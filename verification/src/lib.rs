//! Host-side client for the Focus protocol: a half-duplex, line-oriented,
//! text command/response protocol spoken by a keyboard's firmware over a
//! serial transport.
//!
//! The crate covers device discovery by USB vendor/product identifier,
//! connection configuration, sentinel-delimited response framing, the typed
//! value codecs (numeric vectors, booleans, colors), and the bulk settings
//! transaction built on top of them.

use vstd::prelude::*;

pub mod api;
pub mod color;
pub mod discovery;
pub mod engine;
pub mod enums;
pub mod error;
pub mod framing;
pub mod hardware;
pub mod numeric;
pub mod settings;
pub mod transport;

pub use color::color_vec_to_string;
pub use color::rgb_vec_to_string;
pub use color::rgba_vec_to_string;
pub use color::rgbw_vec_to_string;
pub use color::string_to_color_vec;
pub use color::string_to_rgb_vec;
pub use color::string_to_rgba_vec;
pub use color::string_to_rgbw_vec;
pub use color::Color;
pub use color::RGB;
pub use color::RGBA;
pub use color::RGBW;
pub use discovery::collect_devices;
pub use discovery::supported_devices;
pub use discovery::Device;
pub use discovery::PortInfo;
pub use discovery::PortType;
pub use discovery::SupportedDevice;
pub use engine::Focus;
pub use enums::LedMode;
pub use enums::Side;
pub use enums::WirelessPowerMode;
pub use error::FocusError;
pub use hardware::DeviceType;
pub use hardware::Grid;
pub use hardware::Hardware;
pub use hardware::Usb;
pub use numeric::numerical_vec_to_string;
pub use numeric::string_to_numerical_vec;
pub use settings::Settings;
pub use transport::MockStep;
pub use transport::MockTransport;
pub use transport::SerialTransport;
pub use transport::Transport;

verus! {

/// Highest layer index a keyboard accepts; layers are numbered from zero.
pub const MAX_LAYERS: u8 = 9;

} // verus!
