//! The typed protocol operations.
//!
//! Every operation is one strict request/response exchange built on the
//! engine: the contract of each pins, on the transport's write ledger, the
//! exact command bytes the call may put on the wire, and relates a
//! successful result to a well-formed response payload that decodes to it.
//! Client-side validation limits are checked before any bytes are sent.

use vstd::prelude::*;

use vstd::string::StrSliceExecFns;
use vstd::string::StringExecFns;

use crate::color::group_rgb;
use crate::color::group_rgbw;
use crate::color::flat_rgb;
use crate::color::flat_rgbw;
use crate::color::string_to_rgb_vec;
use crate::color::string_to_rgbw_vec;
use crate::color::rgb_vec_to_string;
use crate::color::rgbw_vec_to_string;
use crate::color::RGB;
use crate::color::RGBW;
use crate::engine::bool_of_response;
use crate::engine::is_transport_error;
use crate::engine::line_cmd;
use crate::engine::lines_of;
use crate::engine::sent_at_most;
use crate::engine::sent_exactly;
use crate::engine::space_cmd;
use crate::engine::wf_response;
use crate::engine::Focus;
use crate::enums::LedMode;
use crate::enums::Side;
use crate::enums::WirelessPowerMode;
use crate::error::FocusError;
use crate::numeric::decode_wire_list;
use crate::numeric::dec_repr;
use crate::numeric::encode_list;
use crate::numeric::numerical_vec_to_string;
use crate::numeric::parse_token;
use crate::numeric::push_decimal;
use crate::numeric::string_to_numerical_vec;
use crate::numeric::tokenize;
use crate::numeric::WireNumber;
use crate::transport::Transport;
use crate::MAX_LAYERS;

verus! {

/// A payload that decodes as a whole RGB vector.
pub open spec fn rgb_response_decodes(s: Seq<char>, v: Seq<RGB>) -> bool {
    decode_wire_list::<u8>(s) matches Some(vals) && vals.len() % 3 == 0 && v == group_rgb(vals)
}

/// A payload that decodes as a whole RGBW vector.
pub open spec fn rgbw_response_decodes(s: Seq<char>, v: Seq<RGBW>) -> bool {
    decode_wire_list::<u8>(s) matches Some(vals) && vals.len() % 4 == 0 && v == group_rgbw(vals)
}

/// A payload that decodes as a single RGB triple.
pub open spec fn rgb_single_decodes(s: Seq<char>, c: RGB) -> bool {
    decode_wire_list::<u8>(s) matches Some(vals) && vals.len() == 3 && c == (RGB {
        r: vals[0] as u8,
        g: vals[1] as u8,
        b: vals[2] as u8,
    })
}

impl<T: Transport> Focus<T> {
    /// Gets the version of the firmware.
    pub fn version(&mut self) -> (r: Result<String, FocusError>)
        ensures
            sent_at_most(*old(self), *final(self), line_cmd("version"@)),
            r matches Ok(s) ==> sent_exactly(*old(self), *final(self), line_cmd("version"@))
                && wf_response(s@),
    {
        self.command_response_string("version")
    }

    /// Gets the whole custom keymap stored in the keyboard.
    pub fn keymap_custom_get(&mut self) -> (r: Result<Vec<u16>, FocusError>)
        ensures
            sent_at_most(*old(self), *final(self), line_cmd("keymap.custom"@)),
            r matches Ok(v) ==> sent_exactly(*old(self), *final(self), line_cmd("keymap.custom"@)) && (
            exists|s: Seq<char>|
                wf_response(s) && decode_wire_list::<u16>(s) == Some(
                    v@.map_values(|x: u16| x.as_natural()),
                )),
    {
        let data = match self.command_response_string("keymap.custom") {
            Ok(s) => s,
            Err(e) => {
                return Err(e);
            },
        };
        match string_to_numerical_vec::<u16>(data.as_str()) {
            Ok(v) => {
                proof {
                    match decode_wire_list::<u16>(data@) {
                        Some(vals) => {
                            assert(wf_response(data@) && decode_wire_list::<u16>(data@) == Some(
                                v@.map_values(|x: u16| x.as_natural()),
                            ));
                        },
                        None => {
                            assert(false);
                        },
                    }
                }
                Ok(v)
            },
            Err(e) => Err(e),
        }
    }

    /// Sets the whole custom keymap stored in the keyboard.
    pub fn keymap_custom_set(&mut self, data: &Vec<u16>) -> (r: Result<(), FocusError>)
        ensures
            sent_at_most(
                *old(self),
                *final(self),
                line_cmd("keymap.custom "@ + encode_list(data@.map_values(|x: u16| x.as_natural()))),
            ),
            r is Ok ==> sent_exactly(
                *old(self),
                *final(self),
                line_cmd("keymap.custom "@ + encode_list(data@.map_values(|x: u16| x.as_natural()))),
            ),
    {
        let mut cmd = String::from_str("keymap.custom ");
        let encoded = numerical_vec_to_string::<u16>(data);
        cmd.append(encoded.as_str());
        self.command_new_line(cmd.as_str(), true)
    }

    /// Gets the default keymap stored in the keyboard.
    pub fn keymap_default_get(&mut self) -> (r: Result<Vec<u16>, FocusError>)
        ensures
            sent_at_most(*old(self), *final(self), line_cmd("keymap.default"@)),
            r matches Ok(v) ==> sent_exactly(*old(self), *final(self), line_cmd("keymap.default"@)) && (
            exists|s: Seq<char>|
                wf_response(s) && decode_wire_list::<u16>(s) == Some(
                    v@.map_values(|x: u16| x.as_natural()),
                )),
    {
        let data = match self.command_response_string("keymap.default") {
            Ok(s) => s,
            Err(e) => {
                return Err(e);
            },
        };
        match string_to_numerical_vec::<u16>(data.as_str()) {
            Ok(v) => {
                proof {
                    match decode_wire_list::<u16>(data@) {
                        Some(vals) => {
                            assert(wf_response(data@) && decode_wire_list::<u16>(data@) == Some(
                                v@.map_values(|x: u16| x.as_natural()),
                            ));
                        },
                        None => {
                            assert(false);
                        },
                    }
                }
                Ok(v)
            },
            Err(e) => Err(e),
        }
    }

    /// Sets the default keymap stored in the keyboard.
    pub fn keymap_default_set(&mut self, data: &Vec<u16>) -> (r: Result<(), FocusError>)
        ensures
            sent_at_most(
                *old(self),
                *final(self),
                line_cmd("keymap.default "@ + encode_list(data@.map_values(|x: u16| x.as_natural()))),
            ),
            r is Ok ==> sent_exactly(
                *old(self),
                *final(self),
                line_cmd("keymap.default "@ + encode_list(data@.map_values(|x: u16| x.as_natural()))),
            ),
    {
        let mut cmd = String::from_str("keymap.default ");
        let encoded = numerical_vec_to_string::<u16>(data);
        cmd.append(encoded.as_str());
        self.command_new_line(cmd.as_str(), true)
    }

    /// Gets the user setting of hiding the default layers.
    pub fn keymap_only_custom_get(&mut self) -> (r: Result<bool, FocusError>)
        ensures
            sent_at_most(*old(self), *final(self), line_cmd("keymap.onlyCustom"@)),
            r matches Ok(b) ==> sent_exactly(*old(self), *final(self), line_cmd("keymap.onlyCustom"@)) && (
            exists|s: Seq<char>|
                wf_response(s) && s.len() > 0 && bool_of_response(s) == Some(b)),
    {
        self.command_response_bool("keymap.onlyCustom")
    }

    /// Sets the user setting of hiding the default layers.
    pub fn keymap_only_custom_set(&mut self, state: bool) -> (r: Result<(), FocusError>)
        ensures
            sent_at_most(
                *old(self),
                *final(self),
                line_cmd("keymap.onlyCustom "@ + dec_repr(if state { 1nat } else { 0nat })),
            ),
            r is Ok ==> sent_exactly(
                *old(self),
                *final(self),
                line_cmd("keymap.onlyCustom "@ + dec_repr(if state { 1nat } else { 0nat })),
            ),
    {
        let mut cmd = String::from_str("keymap.onlyCustom ");
        let code: u64 = if state { 1 } else { 0 };
        push_decimal(&mut cmd, code);
        self.command_new_line(cmd.as_str(), true)
    }

    /// Gets the default layer the keyboard will boot with.
    pub fn settings_default_layer_get(&mut self) -> (r: Result<u8, FocusError>)
        ensures
            sent_at_most(*old(self), *final(self), line_cmd("settings.defaultLayer"@)),
            r matches Ok(x) ==> sent_exactly(*old(self), *final(self), line_cmd("settings.defaultLayer"@)) && (
            exists|s: Seq<char>|
                wf_response(s) && parse_token(s) == Some(x.as_natural())),
    {
        self.command_response_numerical::<u8>("settings.defaultLayer")
    }

    /// Gets the current settings version.
    pub fn settings_version_get(&mut self) -> (r: Result<String, FocusError>)
        ensures
            sent_at_most(*old(self), *final(self), line_cmd("settings.version"@)),
            r matches Ok(s) ==> sent_exactly(*old(self), *final(self), line_cmd("settings.version"@))
                && wf_response(s@),
    {
        self.command_response_string("settings.version")
    }

    /// Sets the current settings version.
    pub fn settings_version_set(&mut self, version: &str) -> (r: Result<(), FocusError>)
        ensures
            sent_at_most(*old(self), *final(self), line_cmd("settings.version "@ + version@)),
            r is Ok ==> sent_exactly(*old(self), *final(self), line_cmd("settings.version "@ + version@)),
    {
        let mut cmd = String::from_str("settings.version ");
        cmd.append(version);
        self.command_new_line(cmd.as_str(), true)
    }

    /// Gets the CRC checksum of the layout.
    pub fn settings_crc(&mut self) -> (r: Result<String, FocusError>)
        ensures
            sent_at_most(*old(self), *final(self), line_cmd("settings.crc"@)),
            r matches Ok(s) ==> sent_exactly(*old(self), *final(self), line_cmd("settings.crc"@))
                && wf_response(s@),
    {
        self.command_response_string("settings.crc")
    }

    /// Gets the EEPROM's contents.
    pub fn eeprom_contents_get(&mut self) -> (r: Result<String, FocusError>)
        ensures
            sent_at_most(*old(self), *final(self), line_cmd("eeprom.contents"@)),
            r matches Ok(s) ==> sent_exactly(*old(self), *final(self), line_cmd("eeprom.contents"@))
                && wf_response(s@),
    {
        self.command_response_string("eeprom.contents")
    }

    /// Sets the EEPROM's contents.
    pub fn eeprom_contents_set(&mut self, data: &str) -> (r: Result<(), FocusError>)
        ensures
            sent_at_most(*old(self), *final(self), line_cmd("eeprom.contents "@ + data@)),
            r is Ok ==> sent_exactly(*old(self), *final(self), line_cmd("eeprom.contents "@ + data@)),
    {
        let mut cmd = String::from_str("eeprom.contents ");
        cmd.append(data);
        self.command_new_line(cmd.as_str(), true)
    }

    /// Gets the EEPROM's free bytes.
    pub fn eeprom_free(&mut self) -> (r: Result<String, FocusError>)
        ensures
            sent_at_most(*old(self), *final(self), line_cmd("eeprom.free"@)),
            r matches Ok(s) ==> sent_exactly(*old(self), *final(self), line_cmd("eeprom.free"@))
                && wf_response(s@),
    {
        self.command_response_string("eeprom.free")
    }

    /// Puts the keyboard in its firmware upgrade handshake.
    pub fn upgrade_start(&mut self) -> (r: Result<(), FocusError>)
        ensures
            sent_at_most(*old(self), *final(self), line_cmd("upgrade.start"@)),
            r is Ok ==> sent_exactly(*old(self), *final(self), line_cmd("upgrade.start"@)),
    {
        self.command_new_line("upgrade.start", false)
    }

    /// Asks whether the keyboard is ready to upgrade.
    pub fn upgrade_is_ready(&mut self) -> (r: Result<bool, FocusError>)
        ensures
            sent_at_most(*old(self), *final(self), line_cmd("upgrade.isReady"@)),
            r matches Ok(b) ==> sent_exactly(*old(self), *final(self), line_cmd("upgrade.isReady"@)) && (
            exists|s: Seq<char>|
                wf_response(s) && s.len() > 0 && bool_of_response(s) == Some(b)),
    {
        self.command_response_bool("upgrade.isReady")
    }

    /// Starts the neuron upgrade.
    pub fn upgrade_neuron(&mut self) -> (r: Result<(), FocusError>)
        ensures
            sent_at_most(*old(self), *final(self), line_cmd("upgrade.neuron"@)),
            r is Ok ==> sent_exactly(*old(self), *final(self), line_cmd("upgrade.neuron"@)),
    {
        self.command_new_line("upgrade.neuron", false)
    }

    /// Leaves the upgrade handshake by re-issuing its command.
    pub fn upgrade_end(&mut self) -> (r: Result<(), FocusError>)
        ensures
            sent_at_most(*old(self), *final(self), line_cmd("upgrade.start"@)),
            r is Ok ==> sent_exactly(*old(self), *final(self), line_cmd("upgrade.start"@)),
    {
        self.command_new_line("upgrade.start", false)
    }

    /// Gets the Superkeys map of action key codes.
    pub fn superkeys_map_get(&mut self) -> (r: Result<Vec<u16>, FocusError>)
        ensures
            sent_at_most(*old(self), *final(self), line_cmd("superkeys.map"@)),
            r matches Ok(v) ==> sent_exactly(*old(self), *final(self), line_cmd("superkeys.map"@)) && (
            exists|s: Seq<char>|
                wf_response(s) && decode_wire_list::<u16>(s) == Some(
                    v@.map_values(|x: u16| x.as_natural()),
                )),
    {
        let data = match self.command_response_string("superkeys.map") {
            Ok(s) => s,
            Err(e) => {
                return Err(e);
            },
        };
        match string_to_numerical_vec::<u16>(data.as_str()) {
            Ok(v) => {
                proof {
                    match decode_wire_list::<u16>(data@) {
                        Some(vals) => {
                            assert(wf_response(data@) && decode_wire_list::<u16>(data@) == Some(
                                v@.map_values(|x: u16| x.as_natural()),
                            ));
                        },
                        None => {
                            assert(false);
                        },
                    }
                }
                Ok(v)
            },
            Err(e) => Err(e),
        }
    }

    /// Sets the Superkeys map of action key codes.
    pub fn superkeys_map_set(&mut self, data: &Vec<u16>) -> (r: Result<(), FocusError>)
        ensures
            sent_at_most(
                *old(self),
                *final(self),
                line_cmd("superkeys.map "@ + encode_list(data@.map_values(|x: u16| x.as_natural()))),
            ),
            r is Ok ==> sent_exactly(
                *old(self),
                *final(self),
                line_cmd("superkeys.map "@ + encode_list(data@.map_values(|x: u16| x.as_natural()))),
            ),
    {
        let mut cmd = String::from_str("superkeys.map ");
        let encoded = numerical_vec_to_string::<u16>(data);
        cmd.append(encoded.as_str());
        self.command_new_line(cmd.as_str(), true)
    }

    /// Gets the Superkeys wait-for duration in milliseconds.
    pub fn superkeys_wait_for_get(&mut self) -> (r: Result<u16, FocusError>)
        ensures
            sent_at_most(*old(self), *final(self), line_cmd("superkeys.waitfor"@)),
            r matches Ok(x) ==> sent_exactly(*old(self), *final(self), line_cmd("superkeys.waitfor"@)) && (
            exists|s: Seq<char>|
                wf_response(s) && parse_token(s) == Some(x.as_natural())),
    {
        self.command_response_numerical::<u16>("superkeys.waitfor")
    }

    /// Sets the Superkeys wait-for duration in milliseconds.
    pub fn superkeys_wait_for_set(&mut self, milliseconds: u16) -> (r: Result<(), FocusError>)
        ensures
            sent_at_most(
                *old(self),
                *final(self),
                line_cmd("superkeys.waitfor "@ + dec_repr(milliseconds as nat)),
            ),
            r is Ok ==> sent_exactly(
                *old(self),
                *final(self),
                line_cmd("superkeys.waitfor "@ + dec_repr(milliseconds as nat)),
            ),
    {
        let mut cmd = String::from_str("superkeys.waitfor ");
        push_decimal(&mut cmd, milliseconds as u64);
        self.command_new_line(cmd.as_str(), true)
    }

    /// Gets the Superkeys timeout for the next tap in milliseconds.
    pub fn superkeys_timeout_get(&mut self) -> (r: Result<u16, FocusError>)
        ensures
            sent_at_most(*old(self), *final(self), line_cmd("superkeys.timeout"@)),
            r matches Ok(x) ==> sent_exactly(*old(self), *final(self), line_cmd("superkeys.timeout"@)) && (
            exists|s: Seq<char>|
                wf_response(s) && parse_token(s) == Some(x.as_natural())),
    {
        self.command_response_numerical::<u16>("superkeys.timeout")
    }

    /// Sets the Superkeys timeout for the next tap in milliseconds.
    pub fn superkeys_timeout_set(&mut self, milliseconds: u16) -> (r: Result<(), FocusError>)
        ensures
            sent_at_most(
                *old(self),
                *final(self),
                line_cmd("superkeys.timeout "@ + dec_repr(milliseconds as nat)),
            ),
            r is Ok ==> sent_exactly(
                *old(self),
                *final(self),
                line_cmd("superkeys.timeout "@ + dec_repr(milliseconds as nat)),
            ),
    {
        let mut cmd = String::from_str("superkeys.timeout ");
        push_decimal(&mut cmd, milliseconds as u64);
        self.command_new_line(cmd.as_str(), true)
    }

    /// Gets the Superkeys repeat duration in milliseconds.
    pub fn superkeys_repeat_get(&mut self) -> (r: Result<u16, FocusError>)
        ensures
            sent_at_most(*old(self), *final(self), line_cmd("superkeys.repeat"@)),
            r matches Ok(x) ==> sent_exactly(*old(self), *final(self), line_cmd("superkeys.repeat"@)) && (
            exists|s: Seq<char>|
                wf_response(s) && parse_token(s) == Some(x.as_natural())),
    {
        self.command_response_numerical::<u16>("superkeys.repeat")
    }

    /// Sets the Superkeys repeat duration in milliseconds.
    pub fn superkeys_repeat_set(&mut self, milliseconds: u16) -> (r: Result<(), FocusError>)
        ensures
            sent_at_most(
                *old(self),
                *final(self),
                line_cmd("superkeys.repeat "@ + dec_repr(milliseconds as nat)),
            ),
            r is Ok ==> sent_exactly(
                *old(self),
                *final(self),
                line_cmd("superkeys.repeat "@ + dec_repr(milliseconds as nat)),
            ),
    {
        let mut cmd = String::from_str("superkeys.repeat ");
        push_decimal(&mut cmd, milliseconds as u64);
        self.command_new_line(cmd.as_str(), true)
    }

    /// Gets the Superkeys hold-start duration in milliseconds.
    pub fn superkeys_hold_start_get(&mut self) -> (r: Result<u16, FocusError>)
        ensures
            sent_at_most(*old(self), *final(self), line_cmd("superkeys.holdstart"@)),
            r matches Ok(x) ==> sent_exactly(*old(self), *final(self), line_cmd("superkeys.holdstart"@)) && (
            exists|s: Seq<char>|
                wf_response(s) && parse_token(s) == Some(x.as_natural())),
    {
        self.command_response_numerical::<u16>("superkeys.holdstart")
    }

    /// Sets the Superkeys hold-start duration in milliseconds.
    pub fn superkeys_hold_start_set(&mut self, milliseconds: u16) -> (r: Result<(), FocusError>)
        ensures
            sent_at_most(
                *old(self),
                *final(self),
                line_cmd("superkeys.holdstart "@ + dec_repr(milliseconds as nat)),
            ),
            r is Ok ==> sent_exactly(
                *old(self),
                *final(self),
                line_cmd("superkeys.holdstart "@ + dec_repr(milliseconds as nat)),
            ),
    {
        let mut cmd = String::from_str("superkeys.holdstart ");
        push_decimal(&mut cmd, milliseconds as u64);
        self.command_new_line(cmd.as_str(), true)
    }

    /// Gets the Superkeys overlap percentage.
    pub fn superkeys_overlap_get(&mut self) -> (r: Result<u8, FocusError>)
        ensures
            sent_at_most(*old(self), *final(self), line_cmd("superkeys.overlap"@)),
            r matches Ok(x) ==> sent_exactly(*old(self), *final(self), line_cmd("superkeys.overlap"@)) && (
            exists|s: Seq<char>|
                wf_response(s) && parse_token(s) == Some(x.as_natural())),
    {
        self.command_response_numerical::<u8>("superkeys.overlap")
    }

    /// Gets the LED mode.
    pub fn led_mode_get(&mut self) -> (r: Result<LedMode, FocusError>)
        ensures
            sent_at_most(*old(self), *final(self), line_cmd("led.mode"@)),
            r matches Ok(x) ==> sent_exactly(*old(self), *final(self), line_cmd("led.mode"@)) && (
            exists|s: Seq<char>|
                wf_response(s) && parse_token(s) == Some(x.as_natural())),
    {
        self.command_response_numerical::<LedMode>("led.mode")
    }

    /// Sets the LED mode.
    pub fn led_mode_set(&mut self, mode: LedMode) -> (r: Result<(), FocusError>)
        ensures
            sent_at_most(
                *old(self),
                *final(self),
                line_cmd("led.mode "@ + dec_repr(mode.spec_wire_code())),
            ),
            r is Ok ==> sent_exactly(
                *old(self),
                *final(self),
                line_cmd("led.mode "@ + dec_repr(mode.spec_wire_code())),
            ),
    {
        let mut cmd = String::from_str("led.mode ");
        push_decimal(&mut cmd, mode.wire_code() as u64);
        self.command_new_line(cmd.as_str(), true)
    }

    /// Gets the key LED brightness (wired).
    pub fn led_brightness_top_get(&mut self) -> (r: Result<u8, FocusError>)
        ensures
            sent_at_most(*old(self), *final(self), line_cmd("led.brightness"@)),
            r matches Ok(x) ==> sent_exactly(*old(self), *final(self), line_cmd("led.brightness"@)) && (
            exists|s: Seq<char>|
                wf_response(s) && parse_token(s) == Some(x.as_natural())),
    {
        self.command_response_numerical::<u8>("led.brightness")
    }

    /// Sets the key LED brightness (wired).
    pub fn led_brightness_top_set(&mut self, brightness: u8) -> (r: Result<(), FocusError>)
        ensures
            sent_at_most(
                *old(self),
                *final(self),
                line_cmd("led.brightness "@ + dec_repr(brightness as nat)),
            ),
            r is Ok ==> sent_exactly(
                *old(self),
                *final(self),
                line_cmd("led.brightness "@ + dec_repr(brightness as nat)),
            ),
    {
        let mut cmd = String::from_str("led.brightness ");
        push_decimal(&mut cmd, brightness as u64);
        self.command_new_line(cmd.as_str(), true)
    }

    /// Gets the underglow LED brightness (wired).
    pub fn led_brightness_underglow_wired_get(&mut self) -> (r: Result<u8, FocusError>)
        ensures
            sent_at_most(*old(self), *final(self), line_cmd("led.brightnessUG"@)),
            r matches Ok(x) ==> sent_exactly(*old(self), *final(self), line_cmd("led.brightnessUG"@)) && (
            exists|s: Seq<char>|
                wf_response(s) && parse_token(s) == Some(x.as_natural())),
    {
        self.command_response_numerical::<u8>("led.brightnessUG")
    }

    /// Sets the underglow LED brightness (wired).
    pub fn led_brightness_underglow_wired_set(&mut self, brightness: u8) -> (r: Result<(), FocusError>)
        ensures
            sent_at_most(
                *old(self),
                *final(self),
                line_cmd("led.brightnessUG "@ + dec_repr(brightness as nat)),
            ),
            r is Ok ==> sent_exactly(
                *old(self),
                *final(self),
                line_cmd("led.brightnessUG "@ + dec_repr(brightness as nat)),
            ),
    {
        let mut cmd = String::from_str("led.brightnessUG ");
        push_decimal(&mut cmd, brightness as u64);
        self.command_new_line(cmd.as_str(), true)
    }

    /// Gets the key LED brightness (wireless).
    pub fn led_brightness_keys_wireless_get(&mut self) -> (r: Result<u8, FocusError>)
        ensures
            sent_at_most(*old(self), *final(self), line_cmd("led.brightness.wireless"@)),
            r matches Ok(x) ==> sent_exactly(*old(self), *final(self), line_cmd("led.brightness.wireless"@)) && (
            exists|s: Seq<char>|
                wf_response(s) && parse_token(s) == Some(x.as_natural())),
    {
        self.command_response_numerical::<u8>("led.brightness.wireless")
    }

    /// Sets the key LED brightness (wireless).
    pub fn led_brightness_keys_wireless_set(&mut self, brightness: u8) -> (r: Result<(), FocusError>)
        ensures
            sent_at_most(
                *old(self),
                *final(self),
                line_cmd("led.brightness.wireless "@ + dec_repr(brightness as nat)),
            ),
            r is Ok ==> sent_exactly(
                *old(self),
                *final(self),
                line_cmd("led.brightness.wireless "@ + dec_repr(brightness as nat)),
            ),
    {
        let mut cmd = String::from_str("led.brightness.wireless ");
        push_decimal(&mut cmd, brightness as u64);
        self.command_new_line(cmd.as_str(), true)
    }

    /// Gets the underglow LED brightness (wireless).
    pub fn led_brightness_underglow_wireless_get(&mut self) -> (r: Result<u8, FocusError>)
        ensures
            sent_at_most(*old(self), *final(self), line_cmd("led.brightnessUG.wireless"@)),
            r matches Ok(x) ==> sent_exactly(*old(self), *final(self), line_cmd("led.brightnessUG.wireless"@)) && (
            exists|s: Seq<char>|
                wf_response(s) && parse_token(s) == Some(x.as_natural())),
    {
        self.command_response_numerical::<u8>("led.brightnessUG.wireless")
    }

    /// Sets the underglow LED brightness (wireless).
    pub fn led_brightness_underglow_wireless_set(&mut self, brightness: u8) -> (r: Result<(), FocusError>)
        ensures
            sent_at_most(
                *old(self),
                *final(self),
                line_cmd("led.brightnessUG.wireless "@ + dec_repr(brightness as nat)),
            ),
            r is Ok ==> sent_exactly(
                *old(self),
                *final(self),
                line_cmd("led.brightnessUG.wireless "@ + dec_repr(brightness as nat)),
            ),
    {
        let mut cmd = String::from_str("led.brightnessUG.wireless ");
        push_decimal(&mut cmd, brightness as u64);
        self.command_new_line(cmd.as_str(), true)
    }

    /// Gets the LED fade.
    pub fn led_fade_get(&mut self) -> (r: Result<u16, FocusError>)
        ensures
            sent_at_most(*old(self), *final(self), line_cmd("led.fade"@)),
            r matches Ok(x) ==> sent_exactly(*old(self), *final(self), line_cmd("led.fade"@)) && (
            exists|s: Seq<char>|
                wf_response(s) && parse_token(s) == Some(x.as_natural())),
    {
        self.command_response_numerical::<u16>("led.fade")
    }

    /// Sets the LED fade.
    pub fn led_fade_set(&mut self, fade: u16) -> (r: Result<(), FocusError>)
        ensures
            sent_at_most(
                *old(self),
                *final(self),
                line_cmd("led.fade "@ + dec_repr(fade as nat)),
            ),
            r is Ok ==> sent_exactly(
                *old(self),
                *final(self),
                line_cmd("led.fade "@ + dec_repr(fade as nat)),
            ),
    {
        let mut cmd = String::from_str("led.fade ");
        push_decimal(&mut cmd, fade as u64);
        self.command_new_line(cmd.as_str(), true)
    }

    /// Gets the LED theme.
    pub fn led_theme_get(&mut self) -> (r: Result<Vec<RGB>, FocusError>)
        ensures
            sent_at_most(*old(self), *final(self), line_cmd("led.theme"@)),
            r matches Ok(v) ==> sent_exactly(*old(self), *final(self), line_cmd("led.theme"@)) && (
            exists|s: Seq<char>|
                wf_response(s) && rgb_response_decodes(s, v@)),
    {
        let data = match self.command_response_string("led.theme") {
            Ok(s) => s,
            Err(e) => {
                return Err(e);
            },
        };
        match string_to_rgb_vec(data.as_str()) {
            Ok(v) => {
                proof {
                    match decode_wire_list::<u8>(data@) {
                        Some(vals) => {
                            assert(wf_response(data@) && rgb_response_decodes(data@, v@));
                        },
                        None => {
                            assert(false);
                        },
                    }
                }
                Ok(v)
            },
            Err(e) => Err(e),
        }
    }

    /// Sets the LED theme.
    pub fn led_theme_set(&mut self, data: &Vec<RGB>) -> (r: Result<(), FocusError>)
        ensures
            sent_at_most(
                *old(self),
                *final(self),
                line_cmd("led.theme "@ + encode_list(flat_rgb(data@))),
            ),
            r is Ok ==> sent_exactly(
                *old(self),
                *final(self),
                line_cmd("led.theme "@ + encode_list(flat_rgb(data@))),
            ),
    {
        let mut cmd = String::from_str("led.theme ");
        let encoded = rgb_vec_to_string(data);
        cmd.append(encoded.as_str());
        self.command_new_line(cmd.as_str(), true)
    }

    /// Gets the color palette of RGB hardware.
    pub fn palette_rgb_get(&mut self) -> (r: Result<Vec<RGB>, FocusError>)
        ensures
            sent_at_most(*old(self), *final(self), line_cmd("palette"@)),
            r matches Ok(v) ==> sent_exactly(*old(self), *final(self), line_cmd("palette"@)) && (
            exists|s: Seq<char>|
                wf_response(s) && rgb_response_decodes(s, v@)),
    {
        let data = match self.command_response_string("palette") {
            Ok(s) => s,
            Err(e) => {
                return Err(e);
            },
        };
        match string_to_rgb_vec(data.as_str()) {
            Ok(v) => {
                proof {
                    match decode_wire_list::<u8>(data@) {
                        Some(vals) => {
                            assert(wf_response(data@) && rgb_response_decodes(data@, v@));
                        },
                        None => {
                            assert(false);
                        },
                    }
                }
                Ok(v)
            },
            Err(e) => Err(e),
        }
    }

    /// Sets the color palette of RGB hardware.
    pub fn palette_rgb_set(&mut self, data: &Vec<RGB>) -> (r: Result<(), FocusError>)
        ensures
            sent_at_most(
                *old(self),
                *final(self),
                line_cmd("palette "@ + encode_list(flat_rgb(data@))),
            ),
            r is Ok ==> sent_exactly(
                *old(self),
                *final(self),
                line_cmd("palette "@ + encode_list(flat_rgb(data@))),
            ),
    {
        let mut cmd = String::from_str("palette ");
        let encoded = rgb_vec_to_string(data);
        cmd.append(encoded.as_str());
        self.command_new_line(cmd.as_str(), true)
    }

    /// Gets the color palette of RGBW hardware.
    pub fn palette_rgbw_get(&mut self) -> (r: Result<Vec<RGBW>, FocusError>)
        ensures
            sent_at_most(*old(self), *final(self), line_cmd("palette"@)),
            r matches Ok(v) ==> sent_exactly(*old(self), *final(self), line_cmd("palette"@)) && (
            exists|s: Seq<char>|
                wf_response(s) && rgbw_response_decodes(s, v@)),
    {
        let data = match self.command_response_string("palette") {
            Ok(s) => s,
            Err(e) => {
                return Err(e);
            },
        };
        match string_to_rgbw_vec(data.as_str()) {
            Ok(v) => {
                proof {
                    match decode_wire_list::<u8>(data@) {
                        Some(vals) => {
                            assert(wf_response(data@) && rgbw_response_decodes(data@, v@));
                        },
                        None => {
                            assert(false);
                        },
                    }
                }
                Ok(v)
            },
            Err(e) => Err(e),
        }
    }

    /// Sets the color palette of RGBW hardware.
    pub fn palette_rgbw_set(&mut self, data: &Vec<RGBW>) -> (r: Result<(), FocusError>)
        ensures
            sent_at_most(
                *old(self),
                *final(self),
                line_cmd("palette "@ + encode_list(flat_rgbw(data@))),
            ),
            r is Ok ==> sent_exactly(
                *old(self),
                *final(self),
                line_cmd("palette "@ + encode_list(flat_rgbw(data@))),
            ),
    {
        let mut cmd = String::from_str("palette ");
        let encoded = rgbw_vec_to_string(data);
        cmd.append(encoded.as_str());
        self.command_new_line(cmd.as_str(), true)
    }

    /// Gets the color map assigning palette entries to LEDs.
    pub fn color_map_get(&mut self) -> (r: Result<Vec<u8>, FocusError>)
        ensures
            sent_at_most(*old(self), *final(self), line_cmd("colormap.map"@)),
            r matches Ok(v) ==> sent_exactly(*old(self), *final(self), line_cmd("colormap.map"@)) && (
            exists|s: Seq<char>|
                wf_response(s) && decode_wire_list::<u8>(s) == Some(
                    v@.map_values(|x: u8| x.as_natural()),
                )),
    {
        let data = match self.command_response_string("colormap.map") {
            Ok(s) => s,
            Err(e) => {
                return Err(e);
            },
        };
        match string_to_numerical_vec::<u8>(data.as_str()) {
            Ok(v) => {
                proof {
                    match decode_wire_list::<u8>(data@) {
                        Some(vals) => {
                            assert(wf_response(data@) && decode_wire_list::<u8>(data@) == Some(
                                v@.map_values(|x: u8| x.as_natural()),
                            ));
                        },
                        None => {
                            assert(false);
                        },
                    }
                }
                Ok(v)
            },
            Err(e) => Err(e),
        }
    }

    /// Sets the color map assigning palette entries to LEDs.
    pub fn color_map_set(&mut self, data: &Vec<u8>) -> (r: Result<(), FocusError>)
        ensures
            sent_at_most(
                *old(self),
                *final(self),
                line_cmd("colormap.map "@ + encode_list(data@.map_values(|x: u8| x.as_natural()))),
            ),
            r is Ok ==> sent_exactly(
                *old(self),
                *final(self),
                line_cmd("colormap.map "@ + encode_list(data@.map_values(|x: u8| x.as_natural()))),
            ),
    {
        let mut cmd = String::from_str("colormap.map ");
        let encoded = numerical_vec_to_string::<u8>(data);
        cmd.append(encoded.as_str());
        self.command_new_line(cmd.as_str(), true)
    }

    /// Gets the idle LED true sleep state.
    pub fn led_idle_true_sleep_get(&mut self) -> (r: Result<bool, FocusError>)
        ensures
            sent_at_most(*old(self), *final(self), line_cmd("idleleds.true_sleep"@)),
            r matches Ok(b) ==> sent_exactly(*old(self), *final(self), line_cmd("idleleds.true_sleep"@)) && (
            exists|s: Seq<char>|
                wf_response(s) && s.len() > 0 && bool_of_response(s) == Some(b)),
    {
        self.command_response_bool("idleleds.true_sleep")
    }

    /// Sets the idle LED true sleep state.
    pub fn led_idle_true_sleep_set(&mut self, state: bool) -> (r: Result<(), FocusError>)
        ensures
            sent_at_most(
                *old(self),
                *final(self),
                line_cmd("idleleds.true_sleep "@ + dec_repr(if state { 1nat } else { 0nat })),
            ),
            r is Ok ==> sent_exactly(
                *old(self),
                *final(self),
                line_cmd("idleleds.true_sleep "@ + dec_repr(if state { 1nat } else { 0nat })),
            ),
    {
        let mut cmd = String::from_str("idleleds.true_sleep ");
        let code: u64 = if state { 1 } else { 0 };
        push_decimal(&mut cmd, code);
        self.command_new_line(cmd.as_str(), true)
    }

    /// Gets the idle LED true sleep time in seconds.
    pub fn led_idle_true_sleep_time_get(&mut self) -> (r: Result<u16, FocusError>)
        ensures
            sent_at_most(*old(self), *final(self), line_cmd("idleleds.true_sleep_time"@)),
            r matches Ok(x) ==> sent_exactly(*old(self), *final(self), line_cmd("idleleds.true_sleep_time"@)) && (
            exists|s: Seq<char>|
                wf_response(s) && parse_token(s) == Some(x.as_natural())),
    {
        self.command_response_numerical::<u16>("idleleds.true_sleep_time")
    }

    /// Gets the idle LED time limit in seconds (wired).
    pub fn led_idle_time_limit_wired_get(&mut self) -> (r: Result<u16, FocusError>)
        ensures
            sent_at_most(*old(self), *final(self), line_cmd("idleleds.time_limit"@)),
            r matches Ok(x) ==> sent_exactly(*old(self), *final(self), line_cmd("idleleds.time_limit"@)) && (
            exists|s: Seq<char>|
                wf_response(s) && parse_token(s) == Some(x.as_natural())),
    {
        self.command_response_numerical::<u16>("idleleds.time_limit")
    }

    /// Gets the idle LED time limit in seconds (wireless).
    pub fn led_idle_time_limit_wireless_get(&mut self) -> (r: Result<u16, FocusError>)
        ensures
            sent_at_most(*old(self), *final(self), line_cmd("idleleds.wireless"@)),
            r matches Ok(x) ==> sent_exactly(*old(self), *final(self), line_cmd("idleleds.wireless"@)) && (
            exists|s: Seq<char>|
                wf_response(s) && parse_token(s) == Some(x.as_natural())),
    {
        self.command_response_numerical::<u16>("idleleds.wireless")
    }

    /// Gets the keyboard model name.
    pub fn hardware_version_get(&mut self) -> (r: Result<String, FocusError>)
        ensures
            sent_at_most(*old(self), *final(self), line_cmd("hardware.version"@)),
            r matches Ok(s) ==> sent_exactly(*old(self), *final(self), line_cmd("hardware.version"@))
                && wf_response(s@),
    {
        self.command_response_string("hardware.version")
    }

    /// Sets the keyboard model name.
    pub fn hardware_version_set(&mut self, data: &str) -> (r: Result<(), FocusError>)
        ensures
            sent_at_most(*old(self), *final(self), line_cmd("hardware.version "@ + data@)),
            r is Ok ==> sent_exactly(*old(self), *final(self), line_cmd("hardware.version "@ + data@)),
    {
        let mut cmd = String::from_str("hardware.version ");
        cmd.append(data);
        self.command_new_line(cmd.as_str(), true)
    }

    /// Gets the Qukeys hold timeout in milliseconds.
    pub fn qukeys_hold_timeout_get(&mut self) -> (r: Result<u16, FocusError>)
        ensures
            sent_at_most(*old(self), *final(self), line_cmd("qukeys.holdTimeout"@)),
            r matches Ok(x) ==> sent_exactly(*old(self), *final(self), line_cmd("qukeys.holdTimeout"@)) && (
            exists|s: Seq<char>|
                wf_response(s) && parse_token(s) == Some(x.as_natural())),
    {
        self.command_response_numerical::<u16>("qukeys.holdTimeout")
    }

    /// Sets the Qukeys hold timeout in milliseconds.
    pub fn qukeys_hold_timeout_set(&mut self, milliseconds: u16) -> (r: Result<(), FocusError>)
        ensures
            sent_at_most(
                *old(self),
                *final(self),
                line_cmd("qukeys.holdTimeout "@ + dec_repr(milliseconds as nat)),
            ),
            r is Ok ==> sent_exactly(
                *old(self),
                *final(self),
                line_cmd("qukeys.holdTimeout "@ + dec_repr(milliseconds as nat)),
            ),
    {
        let mut cmd = String::from_str("qukeys.holdTimeout ");
        push_decimal(&mut cmd, milliseconds as u64);
        self.command_new_line(cmd.as_str(), true)
    }

    /// Gets the Qukeys overlap threshold in milliseconds.
    pub fn qukeys_overlap_threshold_get(&mut self) -> (r: Result<u16, FocusError>)
        ensures
            sent_at_most(*old(self), *final(self), line_cmd("qukeys.overlapThreshold"@)),
            r matches Ok(x) ==> sent_exactly(*old(self), *final(self), line_cmd("qukeys.overlapThreshold"@)) && (
            exists|s: Seq<char>|
                wf_response(s) && parse_token(s) == Some(x.as_natural())),
    {
        self.command_response_numerical::<u16>("qukeys.overlapThreshold")
    }

    /// Sets the Qukeys overlap threshold in milliseconds.
    pub fn qukeys_overlap_threshold_set(&mut self, milliseconds: u16) -> (r: Result<(), FocusError>)
        ensures
            sent_at_most(
                *old(self),
                *final(self),
                line_cmd("qukeys.overlapThreshold "@ + dec_repr(milliseconds as nat)),
            ),
            r is Ok ==> sent_exactly(
                *old(self),
                *final(self),
                line_cmd("qukeys.overlapThreshold "@ + dec_repr(milliseconds as nat)),
            ),
    {
        let mut cmd = String::from_str("qukeys.overlapThreshold ");
        push_decimal(&mut cmd, milliseconds as u64);
        self.command_new_line(cmd.as_str(), true)
    }

    /// Gets the macros map.
    pub fn macros_map_get(&mut self) -> (r: Result<Vec<u8>, FocusError>)
        ensures
            sent_at_most(*old(self), *final(self), line_cmd("macros.map"@)),
            r matches Ok(v) ==> sent_exactly(*old(self), *final(self), line_cmd("macros.map"@)) && (
            exists|s: Seq<char>|
                wf_response(s) && decode_wire_list::<u8>(s) == Some(
                    v@.map_values(|x: u8| x.as_natural()),
                )),
    {
        let data = match self.command_response_string("macros.map") {
            Ok(s) => s,
            Err(e) => {
                return Err(e);
            },
        };
        match string_to_numerical_vec::<u8>(data.as_str()) {
            Ok(v) => {
                proof {
                    match decode_wire_list::<u8>(data@) {
                        Some(vals) => {
                            assert(wf_response(data@) && decode_wire_list::<u8>(data@) == Some(
                                v@.map_values(|x: u8| x.as_natural()),
                            ));
                        },
                        None => {
                            assert(false);
                        },
                    }
                }
                Ok(v)
            },
            Err(e) => Err(e),
        }
    }

    /// Sets the macros map.
    pub fn macros_map_set(&mut self, data: &Vec<u8>) -> (r: Result<(), FocusError>)
        ensures
            sent_at_most(
                *old(self),
                *final(self),
                line_cmd("macros.map "@ + encode_list(data@.map_values(|x: u8| x.as_natural()))),
            ),
            r is Ok ==> sent_exactly(
                *old(self),
                *final(self),
                line_cmd("macros.map "@ + encode_list(data@.map_values(|x: u8| x.as_natural()))),
            ),
    {
        let mut cmd = String::from_str("macros.map ");
        let encoded = numerical_vec_to_string::<u8>(data);
        cmd.append(encoded.as_str());
        self.command_new_line(cmd.as_str(), true)
    }

    /// Triggers a macro by its identifier.
    pub fn macros_trigger(&mut self, macro_id: u8) -> (r: Result<(), FocusError>)
        ensures
            sent_at_most(
                *old(self),
                *final(self),
                line_cmd("macros.trigger "@ + dec_repr(macro_id as nat)),
            ),
            r is Ok ==> sent_exactly(
                *old(self),
                *final(self),
                line_cmd("macros.trigger "@ + dec_repr(macro_id as nat)),
            ),
    {
        let mut cmd = String::from_str("macros.trigger ");
        push_decimal(&mut cmd, macro_id as u64);
        self.command_new_line(cmd.as_str(), true)
    }

    /// Gets the macros memory size in bytes.
    pub fn macros_memory(&mut self) -> (r: Result<u16, FocusError>)
        ensures
            sent_at_most(*old(self), *final(self), line_cmd("macros.memory"@)),
            r matches Ok(x) ==> sent_exactly(*old(self), *final(self), line_cmd("macros.memory"@)) && (
            exists|s: Seq<char>|
                wf_response(s) && parse_token(s) == Some(x.as_natural())),
    {
        self.command_response_numerical::<u16>("macros.memory")
    }

    /// Gets the virtual mouse speed.
    pub fn mouse_speed_get(&mut self) -> (r: Result<u8, FocusError>)
        ensures
            sent_at_most(*old(self), *final(self), line_cmd("mouse.speed"@)),
            r matches Ok(x) ==> sent_exactly(*old(self), *final(self), line_cmd("mouse.speed"@)) && (
            exists|s: Seq<char>|
                wf_response(s) && parse_token(s) == Some(x.as_natural())),
    {
        self.command_response_numerical::<u8>("mouse.speed")
    }

    /// Gets the virtual mouse delay in milliseconds.
    pub fn mouse_delay_get(&mut self) -> (r: Result<u16, FocusError>)
        ensures
            sent_at_most(*old(self), *final(self), line_cmd("mouse.speedDelay"@)),
            r matches Ok(x) ==> sent_exactly(*old(self), *final(self), line_cmd("mouse.speedDelay"@)) && (
            exists|s: Seq<char>|
                wf_response(s) && parse_token(s) == Some(x.as_natural())),
    {
        self.command_response_numerical::<u16>("mouse.speedDelay")
    }

    /// Sets the virtual mouse delay in milliseconds.
    pub fn mouse_delay_set(&mut self, milliseconds: u16) -> (r: Result<(), FocusError>)
        ensures
            sent_at_most(
                *old(self),
                *final(self),
                line_cmd("mouse.speedDelay "@ + dec_repr(milliseconds as nat)),
            ),
            r is Ok ==> sent_exactly(
                *old(self),
                *final(self),
                line_cmd("mouse.speedDelay "@ + dec_repr(milliseconds as nat)),
            ),
    {
        let mut cmd = String::from_str("mouse.speedDelay ");
        push_decimal(&mut cmd, milliseconds as u64);
        self.command_new_line(cmd.as_str(), true)
    }

    /// Gets the virtual mouse acceleration speed.
    pub fn mouse_acceleration_speed_get(&mut self) -> (r: Result<u8, FocusError>)
        ensures
            sent_at_most(*old(self), *final(self), line_cmd("mouse.accelSpeed"@)),
            r matches Ok(x) ==> sent_exactly(*old(self), *final(self), line_cmd("mouse.accelSpeed"@)) && (
            exists|s: Seq<char>|
                wf_response(s) && parse_token(s) == Some(x.as_natural())),
    {
        self.command_response_numerical::<u8>("mouse.accelSpeed")
    }

    /// Sets the virtual mouse acceleration speed.
    pub fn mouse_acceleration_speed_set(&mut self, speed: u8) -> (r: Result<(), FocusError>)
        ensures
            sent_at_most(
                *old(self),
                *final(self),
                line_cmd("mouse.accelSpeed "@ + dec_repr(speed as nat)),
            ),
            r is Ok ==> sent_exactly(
                *old(self),
                *final(self),
                line_cmd("mouse.accelSpeed "@ + dec_repr(speed as nat)),
            ),
    {
        let mut cmd = String::from_str("mouse.accelSpeed ");
        push_decimal(&mut cmd, speed as u64);
        self.command_new_line(cmd.as_str(), true)
    }

    /// Gets the virtual mouse acceleration delay in milliseconds.
    pub fn mouse_acceleration_delay_get(&mut self) -> (r: Result<u16, FocusError>)
        ensures
            sent_at_most(*old(self), *final(self), line_cmd("mouse.accelDelay"@)),
            r matches Ok(x) ==> sent_exactly(*old(self), *final(self), line_cmd("mouse.accelDelay"@)) && (
            exists|s: Seq<char>|
                wf_response(s) && parse_token(s) == Some(x.as_natural())),
    {
        self.command_response_numerical::<u16>("mouse.accelDelay")
    }

    /// Sets the virtual mouse acceleration delay in milliseconds.
    pub fn mouse_acceleration_delay_set(&mut self, milliseconds: u16) -> (r: Result<(), FocusError>)
        ensures
            sent_at_most(
                *old(self),
                *final(self),
                line_cmd("mouse.accelDelay "@ + dec_repr(milliseconds as nat)),
            ),
            r is Ok ==> sent_exactly(
                *old(self),
                *final(self),
                line_cmd("mouse.accelDelay "@ + dec_repr(milliseconds as nat)),
            ),
    {
        let mut cmd = String::from_str("mouse.accelDelay ");
        push_decimal(&mut cmd, milliseconds as u64);
        self.command_new_line(cmd.as_str(), true)
    }

    /// Gets the virtual mouse wheel speed.
    pub fn mouse_wheel_speed_get(&mut self) -> (r: Result<u8, FocusError>)
        ensures
            sent_at_most(*old(self), *final(self), line_cmd("mouse.wheelSpeed"@)),
            r matches Ok(x) ==> sent_exactly(*old(self), *final(self), line_cmd("mouse.wheelSpeed"@)) && (
            exists|s: Seq<char>|
                wf_response(s) && parse_token(s) == Some(x.as_natural())),
    {
        self.command_response_numerical::<u8>("mouse.wheelSpeed")
    }

    /// Sets the virtual mouse wheel speed.
    pub fn mouse_wheel_speed_set(&mut self, speed: u8) -> (r: Result<(), FocusError>)
        ensures
            sent_at_most(
                *old(self),
                *final(self),
                line_cmd("mouse.wheelSpeed "@ + dec_repr(speed as nat)),
            ),
            r is Ok ==> sent_exactly(
                *old(self),
                *final(self),
                line_cmd("mouse.wheelSpeed "@ + dec_repr(speed as nat)),
            ),
    {
        let mut cmd = String::from_str("mouse.wheelSpeed ");
        push_decimal(&mut cmd, speed as u64);
        self.command_new_line(cmd.as_str(), true)
    }

    /// Gets the virtual mouse wheel delay in milliseconds.
    pub fn mouse_wheel_delay_get(&mut self) -> (r: Result<u16, FocusError>)
        ensures
            sent_at_most(*old(self), *final(self), line_cmd("mouse.wheelDelay"@)),
            r matches Ok(x) ==> sent_exactly(*old(self), *final(self), line_cmd("mouse.wheelDelay"@)) && (
            exists|s: Seq<char>|
                wf_response(s) && parse_token(s) == Some(x.as_natural())),
    {
        self.command_response_numerical::<u16>("mouse.wheelDelay")
    }

    /// Sets the virtual mouse wheel delay in milliseconds.
    pub fn mouse_wheel_delay_set(&mut self, milliseconds: u16) -> (r: Result<(), FocusError>)
        ensures
            sent_at_most(
                *old(self),
                *final(self),
                line_cmd("mouse.wheelDelay "@ + dec_repr(milliseconds as nat)),
            ),
            r is Ok ==> sent_exactly(
                *old(self),
                *final(self),
                line_cmd("mouse.wheelDelay "@ + dec_repr(milliseconds as nat)),
            ),
    {
        let mut cmd = String::from_str("mouse.wheelDelay ");
        push_decimal(&mut cmd, milliseconds as u64);
        self.command_new_line(cmd.as_str(), true)
    }

    /// Gets the virtual mouse speed limit.
    pub fn mouse_speed_limit_get(&mut self) -> (r: Result<u8, FocusError>)
        ensures
            sent_at_most(*old(self), *final(self), line_cmd("mouse.speedLimit"@)),
            r matches Ok(x) ==> sent_exactly(*old(self), *final(self), line_cmd("mouse.speedLimit"@)) && (
            exists|s: Seq<char>|
                wf_response(s) && parse_token(s) == Some(x.as_natural())),
    {
        self.command_response_numerical::<u8>("mouse.speedLimit")
    }

    /// Sets the virtual mouse speed limit.
    pub fn mouse_speed_limit_set(&mut self, limit: u8) -> (r: Result<(), FocusError>)
        ensures
            sent_at_most(
                *old(self),
                *final(self),
                line_cmd("mouse.speedLimit "@ + dec_repr(limit as nat)),
            ),
            r is Ok ==> sent_exactly(
                *old(self),
                *final(self),
                line_cmd("mouse.speedLimit "@ + dec_repr(limit as nat)),
            ),
    {
        let mut cmd = String::from_str("mouse.speedLimit ");
        push_decimal(&mut cmd, limit as u64);
        self.command_new_line(cmd.as_str(), true)
    }

    /// Activates a layer remotely by its number.
    pub fn layer_activate(&mut self, layer: u8) -> (r: Result<(), FocusError>)
        ensures
            sent_at_most(
                *old(self),
                *final(self),
                line_cmd("layer.activate "@ + dec_repr(layer as nat)),
            ),
            r is Ok ==> sent_exactly(
                *old(self),
                *final(self),
                line_cmd("layer.activate "@ + dec_repr(layer as nat)),
            ),
    {
        let mut cmd = String::from_str("layer.activate ");
        push_decimal(&mut cmd, layer as u64);
        self.command_new_line(cmd.as_str(), true)
    }

    /// Switches to a layer, erasing the layer switching history.
    pub fn layer_move_to(&mut self, layer: u8) -> (r: Result<(), FocusError>)
        ensures
            sent_at_most(
                *old(self),
                *final(self),
                line_cmd("layer.moveTo "@ + dec_repr(layer as nat)),
            ),
            r is Ok ==> sent_exactly(
                *old(self),
                *final(self),
                line_cmd("layer.moveTo "@ + dec_repr(layer as nat)),
            ),
    {
        let mut cmd = String::from_str("layer.moveTo ");
        push_decimal(&mut cmd, layer as u64);
        self.command_new_line(cmd.as_str(), true)
    }

    /// Gets the battery level of the left half as a percentage.
    pub fn wireless_battery_level_left_get(&mut self) -> (r: Result<u8, FocusError>)
        ensures
            sent_at_most(*old(self), *final(self), line_cmd("wireless.battery.left.level"@)),
            r matches Ok(x) ==> sent_exactly(*old(self), *final(self), line_cmd("wireless.battery.left.level"@)) && (
            exists|s: Seq<char>|
                wf_response(s) && parse_token(s) == Some(x.as_natural())),
    {
        self.command_response_numerical::<u8>("wireless.battery.left.level")
    }

    /// Gets the battery level of the right half as a percentage.
    pub fn wireless_battery_level_right_get(&mut self) -> (r: Result<u8, FocusError>)
        ensures
            sent_at_most(*old(self), *final(self), line_cmd("wireless.battery.right.level"@)),
            r matches Ok(x) ==> sent_exactly(*old(self), *final(self), line_cmd("wireless.battery.right.level"@)) && (
            exists|s: Seq<char>|
                wf_response(s) && parse_token(s) == Some(x.as_natural())),
    {
        self.command_response_numerical::<u8>("wireless.battery.right.level")
    }

    /// Gets the battery status of the left half.
    pub fn wireless_battery_status_left_get(&mut self) -> (r: Result<u8, FocusError>)
        ensures
            sent_at_most(*old(self), *final(self), line_cmd("wireless.battery.left.status"@)),
            r matches Ok(x) ==> sent_exactly(*old(self), *final(self), line_cmd("wireless.battery.left.status"@)) && (
            exists|s: Seq<char>|
                wf_response(s) && parse_token(s) == Some(x.as_natural())),
    {
        self.command_response_numerical::<u8>("wireless.battery.left.status")
    }

    /// Gets the battery status of the right half.
    pub fn wireless_battery_status_right_get(&mut self) -> (r: Result<u8, FocusError>)
        ensures
            sent_at_most(*old(self), *final(self), line_cmd("wireless.battery.right.status"@)),
            r matches Ok(x) ==> sent_exactly(*old(self), *final(self), line_cmd("wireless.battery.right.status"@)) && (
            exists|s: Seq<char>|
                wf_response(s) && parse_token(s) == Some(x.as_natural())),
    {
        self.command_response_numerical::<u8>("wireless.battery.right.status")
    }

    /// Gets the battery saving mode state.
    pub fn wireless_battery_saving_mode_get(&mut self) -> (r: Result<bool, FocusError>)
        ensures
            sent_at_most(*old(self), *final(self), line_cmd("wireless.battery.savingMode"@)),
            r matches Ok(b) ==> sent_exactly(*old(self), *final(self), line_cmd("wireless.battery.savingMode"@)) && (
            exists|s: Seq<char>|
                wf_response(s) && s.len() > 0 && bool_of_response(s) == Some(b)),
    {
        self.command_response_bool("wireless.battery.savingMode")
    }

    /// Sets the battery saving mode state.
    pub fn wireless_battery_saving_mode_set(&mut self, state: bool) -> (r: Result<(), FocusError>)
        ensures
            sent_at_most(
                *old(self),
                *final(self),
                line_cmd("wireless.battery.savingMode "@ + dec_repr(if state { 1nat } else { 0nat })),
            ),
            r is Ok ==> sent_exactly(
                *old(self),
                *final(self),
                line_cmd("wireless.battery.savingMode "@ + dec_repr(if state { 1nat } else { 0nat })),
            ),
    {
        let mut cmd = String::from_str("wireless.battery.savingMode ");
        let code: u64 = if state { 1 } else { 0 };
        push_decimal(&mut cmd, code);
        self.command_new_line(cmd.as_str(), true)
    }

    /// Forces the neuron to refresh its battery levels.
    pub fn wireless_battery_force_read(&mut self) -> (r: Result<(), FocusError>)
        ensures
            sent_at_most(*old(self), *final(self), line_cmd("wireless.battery.forceRead"@)),
            r is Ok ==> sent_exactly(*old(self), *final(self), line_cmd("wireless.battery.forceRead"@)),
    {
        self.command_new_line("wireless.battery.forceRead", false)
    }

    /// Gets the RF power level.
    pub fn wireless_rf_power_level_get(&mut self) -> (r: Result<WirelessPowerMode, FocusError>)
        ensures
            sent_at_most(*old(self), *final(self), line_cmd("wireless.rf.power"@)),
            r matches Ok(x) ==> sent_exactly(*old(self), *final(self), line_cmd("wireless.rf.power"@)) && (
            exists|s: Seq<char>|
                wf_response(s) && parse_token(s) == Some(x.as_natural())),
    {
        self.command_response_numerical::<WirelessPowerMode>("wireless.rf.power")
    }

    /// Sets the RF power level.
    pub fn wireless_rf_power_level_set(&mut self, wireless_power_mode: WirelessPowerMode) -> (r: Result<(), FocusError>)
        ensures
            sent_at_most(
                *old(self),
                *final(self),
                line_cmd("wireless.rf.power "@ + dec_repr(wireless_power_mode.spec_wire_code())),
            ),
            r is Ok ==> sent_exactly(
                *old(self),
                *final(self),
                line_cmd("wireless.rf.power "@ + dec_repr(wireless_power_mode.spec_wire_code())),
            ),
    {
        let mut cmd = String::from_str("wireless.rf.power ");
        push_decimal(&mut cmd, wireless_power_mode.wire_code() as u64);
        self.command_new_line(cmd.as_str(), true)
    }

    /// Gets the RF channel hop state.
    pub fn wireless_rf_channel_hop_get(&mut self) -> (r: Result<bool, FocusError>)
        ensures
            sent_at_most(*old(self), *final(self), line_cmd("wireless.rf.channelHop"@)),
            r matches Ok(b) ==> sent_exactly(*old(self), *final(self), line_cmd("wireless.rf.channelHop"@)) && (
            exists|s: Seq<char>|
                wf_response(s) && s.len() > 0 && bool_of_response(s) == Some(b)),
    {
        self.command_response_bool("wireless.rf.channelHop")
    }

    /// Sets the RF channel hop state.
    pub fn wireless_rf_channel_hop_set(&mut self, state: bool) -> (r: Result<(), FocusError>)
        ensures
            sent_at_most(
                *old(self),
                *final(self),
                line_cmd("wireless.rf.channelHop "@ + dec_repr(if state { 1nat } else { 0nat })),
            ),
            r is Ok ==> sent_exactly(
                *old(self),
                *final(self),
                line_cmd("wireless.rf.channelHop "@ + dec_repr(if state { 1nat } else { 0nat })),
            ),
    {
        let mut cmd = String::from_str("wireless.rf.channelHop ");
        let code: u64 = if state { 1 } else { 0 };
        push_decimal(&mut cmd, code);
        self.command_new_line(cmd.as_str(), true)
    }

    /// Gets the sync pairing state.
    pub fn wireless_rf_sync_pairing(&mut self) -> (r: Result<bool, FocusError>)
        ensures
            sent_at_most(*old(self), *final(self), line_cmd("wireless.rf.syncPairing"@)),
            r matches Ok(b) ==> sent_exactly(*old(self), *final(self), line_cmd("wireless.rf.syncPairing"@)) && (
            exists|s: Seq<char>|
                wf_response(s) && s.len() > 0 && bool_of_response(s) == Some(b)),
    {
        self.command_response_bool("wireless.rf.syncPairing")
    }

    /// Gets the keyscanner's upgrade information.
    pub fn upgrade_keyscanner_get_info(&mut self) -> (r: Result<String, FocusError>)
        ensures
            sent_at_most(*old(self), *final(self), line_cmd("upgrade.keyscanner.getInfo"@)),
            r matches Ok(s) ==> sent_exactly(*old(self), *final(self), line_cmd("upgrade.keyscanner.getInfo"@))
                && wf_response(s@),
    {
        self.command_response_string("upgrade.keyscanner.getInfo")
    }

    /// Finishes the keyscanner upgrade.
    pub fn upgrade_keyscanner_finish(&mut self) -> (r: Result<String, FocusError>)
        ensures
            sent_at_most(*old(self), *final(self), line_cmd("upgrade.keyscanner.finish"@)),
            r matches Ok(s) ==> sent_exactly(*old(self), *final(self), line_cmd("upgrade.keyscanner.finish"@))
                && wf_response(s@),
    {
        self.command_response_string("upgrade.keyscanner.finish")
    }

    /// Gets a value that is true when all checks have passed on the current
    /// settings and their upload was done in the intended way. The firmware
    /// answers with the literals `true` or `false`.
    pub fn settings_valid(&mut self) -> (r: Result<bool, FocusError>)
        ensures
            sent_at_most(*old(self), *final(self), line_cmd("settings.valid?"@)),
            r matches Ok(b) ==> sent_exactly(*old(self), *final(self), line_cmd("settings.valid?"@))
                && (exists|s: Seq<char>|
                wf_response(s) && ((b && s == "true"@) || (!b && s == "false"@))),
    {
        let response = match self.command_response_string("settings.valid?") {
            Ok(s) => s,
            Err(e) => {
                return Err(e);
            },
        };
        if crate::engine::str_eq_str(response.as_str(), "true") {
            proof {
                assert(wf_response(response@) && response@ == "true"@);
            }
            Ok(true)
        } else if crate::engine::str_eq_str(response.as_str(), "false") {
            proof {
                assert(wf_response(response@) && response@ == "false"@);
            }
            Ok(false)
        } else {
            Err(FocusError::ParseNumericalError { string: response })
        }
    }

    /// Sets the default layer the keyboard will boot with. A layer above
    /// [`MAX_LAYERS`] is refused before anything is sent; a pre-read
    /// short-circuits the write when the device already has the value.
    pub fn settings_default_layer_set(&mut self, layer: u8) -> (r: Result<(), FocusError>)
        ensures
            layer > MAX_LAYERS ==> final(self).writes() == old(self).writes() && (
            r matches Err(e) && e == (FocusError::ValueAboveLimitError {
                label: "layer",
                max: MAX_LAYERS as usize,
                provided: layer as usize,
            })),
            (final(self).writes() == old(self).writes()) || (final(self).writes() == old(
                self,
            ).writes().push(line_cmd("settings.defaultLayer"@))) || (final(self).writes() == old(
                self,
            ).writes().push(line_cmd("settings.defaultLayer"@)).push(
                line_cmd("settings.defaultLayer "@ + dec_repr(layer as nat)),
            )),
            r is Ok ==> (final(self).writes() == old(self).writes().push(
                line_cmd("settings.defaultLayer"@),
            ).push(line_cmd("settings.defaultLayer "@ + dec_repr(layer as nat)))) || ((final(self).writes()
                == old(self).writes().push(line_cmd("settings.defaultLayer"@))) && (
            exists|s: Seq<char>|
                wf_response(s) && parse_token(s) == Some(layer as nat))),
            r matches Err(e) ==> (e is ValueAboveLimitError ==> layer > MAX_LAYERS),
    {
        if layer > MAX_LAYERS {
            return Err(
                FocusError::ValueAboveLimitError {
                    label: "layer",
                    max: MAX_LAYERS as usize,
                    provided: layer as usize,
                },
            );
        }
        let current = match self.command_response_numerical::<u8>("settings.defaultLayer") {
            Ok(v) => v,
            Err(e) => {
                return Err(e);
            },
        };
        if current == layer {
            return Ok(());
        }
        let mut cmd = String::from_str("settings.defaultLayer ");
        push_decimal(&mut cmd, layer as u64);
        self.command_new_line(cmd.as_str(), true)
    }

    /// Sets the Superkeys overlap percentage. A percentage above 80 is
    /// refused before anything is sent; 80 itself is accepted.
    pub fn superkeys_overlap_set(&mut self, percentage: u8) -> (r: Result<(), FocusError>)
        ensures
            percentage > 80 ==> final(self).writes() == old(self).writes() && (
            r matches Err(e) && e == (FocusError::ValueAboveLimitError {
                label: "percentage",
                max: 80,
                provided: percentage as usize,
            })),
            sent_at_most(
                *old(self),
                *final(self),
                line_cmd("superkeys.overlap "@ + dec_repr(percentage as nat)),
            ),
            r is Ok ==> percentage <= 80 && sent_exactly(
                *old(self),
                *final(self),
                line_cmd("superkeys.overlap "@ + dec_repr(percentage as nat)),
            ),
        r matches Err(e) ==> (e is ValueAboveLimitError ==> percentage > 80),
    {
        if percentage > 80 {
            return Err(
                FocusError::ValueAboveLimitError {
                    label: "percentage",
                    max: 80,
                    provided: percentage as usize,
                },
            );
        }
        let mut cmd = String::from_str("superkeys.overlap ");
        push_decimal(&mut cmd, percentage as u64);
        self.command_new_line(cmd.as_str(), true)
    }

    /// Sets the idle LED true sleep time in seconds; at most 65,000.
    pub fn led_idle_true_sleep_time_set(&mut self, seconds: u16) -> (r: Result<(), FocusError>)
        ensures
            seconds > 65000 ==> final(self).writes() == old(self).writes() && (
            r matches Err(e) && e == (FocusError::ValueAboveLimitError {
                label: "seconds",
                max: 65000,
                provided: seconds as usize,
            })),
            sent_at_most(
                *old(self),
                *final(self),
                line_cmd("idleleds.true_sleep_time "@ + dec_repr(seconds as nat)),
            ),
            r is Ok ==> seconds <= 65000 && sent_exactly(
                *old(self),
                *final(self),
                line_cmd("idleleds.true_sleep_time "@ + dec_repr(seconds as nat)),
            ),
        r matches Err(e) ==> (e is ValueAboveLimitError ==> seconds > 65000),
    {
        if seconds > 65000 {
            return Err(
                FocusError::ValueAboveLimitError {
                    label: "seconds",
                    max: 65000,
                    provided: seconds as usize,
                },
            );
        }
        let mut cmd = String::from_str("idleleds.true_sleep_time ");
        push_decimal(&mut cmd, seconds as u64);
        self.command_new_line(cmd.as_str(), true)
    }

    /// Sets the idle LED time limit in seconds (wired); at most 65,000.
    pub fn led_idle_time_limit_wired_set(&mut self, seconds: u16) -> (r: Result<(), FocusError>)
        ensures
            seconds > 65000 ==> final(self).writes() == old(self).writes() && (
            r matches Err(e) && e == (FocusError::ValueAboveLimitError {
                label: "seconds",
                max: 65000,
                provided: seconds as usize,
            })),
            sent_at_most(
                *old(self),
                *final(self),
                line_cmd("idleleds.time_limit "@ + dec_repr(seconds as nat)),
            ),
            r is Ok ==> seconds <= 65000 && sent_exactly(
                *old(self),
                *final(self),
                line_cmd("idleleds.time_limit "@ + dec_repr(seconds as nat)),
            ),
        r matches Err(e) ==> (e is ValueAboveLimitError ==> seconds > 65000),
    {
        if seconds > 65000 {
            return Err(
                FocusError::ValueAboveLimitError {
                    label: "seconds",
                    max: 65000,
                    provided: seconds as usize,
                },
            );
        }
        let mut cmd = String::from_str("idleleds.time_limit ");
        push_decimal(&mut cmd, seconds as u64);
        self.command_new_line(cmd.as_str(), true)
    }

    /// Sets the idle LED time limit in seconds (wireless); at most 65,000.
    pub fn led_idle_time_limit_wireless_set(&mut self, seconds: u16) -> (r: Result<
        (),
        FocusError,
    >)
        ensures
            seconds > 65000 ==> final(self).writes() == old(self).writes() && (
            r matches Err(e) && e == (FocusError::ValueAboveLimitError {
                label: "seconds",
                max: 65000,
                provided: seconds as usize,
            })),
            sent_at_most(
                *old(self),
                *final(self),
                line_cmd("idleleds.wireless "@ + dec_repr(seconds as nat)),
            ),
            r is Ok ==> seconds <= 65000 && sent_exactly(
                *old(self),
                *final(self),
                line_cmd("idleleds.wireless "@ + dec_repr(seconds as nat)),
            ),
        r matches Err(e) ==> (e is ValueAboveLimitError ==> seconds > 65000),
    {
        if seconds > 65000 {
            return Err(
                FocusError::ValueAboveLimitError {
                    label: "seconds",
                    max: 65000,
                    provided: seconds as usize,
                },
            );
        }
        let mut cmd = String::from_str("idleleds.wireless ");
        push_decimal(&mut cmd, seconds as u64);
        self.command_new_line(cmd.as_str(), true)
    }

    /// Sets the virtual mouse speed; at most 127.
    pub fn mouse_speed_set(&mut self, speed: u8) -> (r: Result<(), FocusError>)
        ensures
            speed > 127 ==> final(self).writes() == old(self).writes() && (
            r matches Err(e) && e == (FocusError::ValueAboveLimitError {
                label: "speed",
                max: 127,
                provided: speed as usize,
            })),
            sent_at_most(
                *old(self),
                *final(self),
                line_cmd("mouse.speed "@ + dec_repr(speed as nat)),
            ),
            r is Ok ==> speed <= 127 && sent_exactly(
                *old(self),
                *final(self),
                line_cmd("mouse.speed "@ + dec_repr(speed as nat)),
            ),
        r matches Err(e) ==> (e is ValueAboveLimitError ==> speed > 127),
    {
        if speed > 127 {
            return Err(
                FocusError::ValueAboveLimitError {
                    label: "speed",
                    max: 127,
                    provided: speed as usize,
                },
            );
        }
        let mut cmd = String::from_str("mouse.speed ");
        push_decimal(&mut cmd, speed as u64);
        self.command_new_line(cmd.as_str(), true)
    }

    /// Gets the color of a specific LED.
    pub fn led_at_get(&mut self, led: u8) -> (r: Result<RGB, FocusError>)
        ensures
            sent_at_most(*old(self), *final(self), line_cmd("led.at "@ + dec_repr(led as nat))),
            r matches Ok(c) ==> sent_exactly(
                *old(self),
                *final(self),
                line_cmd("led.at "@ + dec_repr(led as nat)),
            ) && (exists|s: Seq<char>| wf_response(s) && rgb_single_decodes(s, c)),
            r matches Err(e) ==> is_transport_error(e) || (e == FocusError::EmptyResponseError && (
            exists|s: Seq<char>| wf_response(s) && s.len() == 0)) || (
            e matches FocusError::ParseNumericalVecError { string } && wf_response(string@)
                && decode_wire_list::<u8>(string@) is None) || (e == (FocusError::PartCountError {
                expected: 3u8,
            }) && (exists|s: Seq<char>|
                wf_response(s) && s.len() > 0 && (decode_wire_list::<u8>(s) matches Some(vals)
                    && vals.len() != 3))),
    {
        let mut cmd = String::from_str("led.at ");
        push_decimal(&mut cmd, led as u64);
        let response = match self.command_response_string(cmd.as_str()) {
            Ok(s) => s,
            Err(e) => {
                return Err(e);
            },
        };
        if response.as_str().unicode_len() == 0 {
            return Err(FocusError::EmptyResponseError);
        }
        let parts = match string_to_numerical_vec::<u8>(response.as_str()) {
            Ok(v) => v,
            Err(e) => {
                return Err(e);
            },
        };
        if parts.len() != 3 {
            return Err(FocusError::PartCountError { expected: 3 });
        }
        let c = RGB { r: parts[0], g: parts[1], b: parts[2] };
        proof {
            match decode_wire_list::<u8>(response@) {
                Some(vals) => {
                    assert(vals[0] == parts@[0] as nat);
                    assert(vals[1] == parts@[1] as nat);
                    assert(vals[2] == parts@[2] as nat);
                    assert(wf_response(response@) && rgb_single_decodes(response@, c));
                },
                None => {
                    assert(false);
                },
            }
        }
        Ok(c)
    }

    /// Sets the color of a specific LED.
    pub fn led_at_set(&mut self, led: u8, color: &RGB) -> (r: Result<(), FocusError>)
        ensures
            sent_at_most(
                *old(self),
                *final(self),
                line_cmd(
                    "led.at "@ + dec_repr(led as nat) + " "@ + dec_repr(color.r as nat) + " "@
                        + dec_repr(color.g as nat) + " "@ + dec_repr(color.b as nat),
                ),
            ),
            r is Ok ==> sent_exactly(
                *old(self),
                *final(self),
                line_cmd(
                    "led.at "@ + dec_repr(led as nat) + " "@ + dec_repr(color.r as nat) + " "@
                        + dec_repr(color.g as nat) + " "@ + dec_repr(color.b as nat),
                ),
            ),
    {
        let mut cmd = String::from_str("led.at ");
        push_decimal(&mut cmd, led as u64);
        cmd.append(" ");
        push_decimal(&mut cmd, color.r as u64);
        cmd.append(" ");
        push_decimal(&mut cmd, color.g as u64);
        cmd.append(" ");
        push_decimal(&mut cmd, color.b as u64);
        self.command_new_line(cmd.as_str(), true)
    }

    /// Sets the color of all the LEDs.
    pub fn led_all(&mut self, color: &RGB) -> (r: Result<(), FocusError>)
        ensures
            sent_at_most(
                *old(self),
                *final(self),
                line_cmd(
                    "led.setAll "@ + dec_repr(color.r as nat) + " "@ + dec_repr(color.g as nat)
                        + " "@ + dec_repr(color.b as nat),
                ),
            ),
            r is Ok ==> sent_exactly(
                *old(self),
                *final(self),
                line_cmd(
                    "led.setAll "@ + dec_repr(color.r as nat) + " "@ + dec_repr(color.g as nat)
                        + " "@ + dec_repr(color.b as nat),
                ),
            ),
    {
        let mut cmd = String::from_str("led.setAll ");
        push_decimal(&mut cmd, color.r as u64);
        cmd.append(" ");
        push_decimal(&mut cmd, color.g as u64);
        cmd.append(" ");
        push_decimal(&mut cmd, color.b as u64);
        self.command_new_line(cmd.as_str(), true)
    }

    /// Gets all the commands available in the current firmware.
    pub fn help(&mut self) -> (r: Result<Vec<String>, FocusError>)
        ensures
            sent_at_most(*old(self), *final(self), line_cmd("help"@)),
            r matches Ok(v) ==> sent_exactly(*old(self), *final(self), line_cmd("help"@)) && (
            exists|s: Seq<char>|
                wf_response(s) && v@.map_values(|l: String| l@) == lines_of(s)),
    {
        self.command_response_vec_string("help")
    }

    /// Deactivates the given layer, then the last layer the keyboard
    /// switched to. A layer above [`MAX_LAYERS`] is refused before anything
    /// is sent.
    pub fn layer_deactivate(&mut self, layer: Option<u8>) -> (r: Result<(), FocusError>)
        ensures
            layer matches Some(l) ==> (l > MAX_LAYERS ==> final(self).writes() == old(
                self,
            ).writes() && (r matches Err(e) && e == (FocusError::ValueAboveLimitError {
                label: "layer",
                max: MAX_LAYERS as usize,
                provided: l as usize,
            }))),
            layer is None ==> sent_at_most(*old(self), *final(self), line_cmd("layer.deactivate"@)),
            layer is None && r is Ok ==> sent_exactly(
                *old(self),
                *final(self),
                line_cmd("layer.deactivate"@),
            ),
            layer matches Some(l) ==> (l <= MAX_LAYERS ==> (final(self).writes() == old(
                self,
            ).writes()) || (final(self).writes() == old(self).writes().push(
                line_cmd("layer.deactivate "@ + dec_repr(l as nat)),
            )) || (final(self).writes() == old(self).writes().push(
                line_cmd("layer.deactivate "@ + dec_repr(l as nat)),
            ).push(line_cmd("layer.deactivate"@)))),
            r is Ok ==> (layer matches Some(l) ==> final(self).writes() == old(self).writes().push(
                line_cmd("layer.deactivate "@ + dec_repr(l as nat)),
            ).push(line_cmd("layer.deactivate"@))),
            r matches Err(e) ==> (e is ValueAboveLimitError ==> (layer matches Some(l) && l
                > MAX_LAYERS)),
    {
        if let Some(layer) = layer {
            if layer > MAX_LAYERS {
                return Err(
                    FocusError::ValueAboveLimitError {
                        label: "layer",
                        max: MAX_LAYERS as usize,
                        provided: layer as usize,
                    },
                );
            }
            let mut cmd = String::from_str("layer.deactivate ");
            push_decimal(&mut cmd, layer as u64);
            match self.command_new_line(cmd.as_str(), true) {
                Ok(()) => {},
                Err(e) => {
                    return Err(e);
                },
            }
        }
        self.command_new_line("layer.deactivate", true)
    }

    /// Gets the state of the given layer. A layer above [`MAX_LAYERS`] is
    /// refused before anything is sent.
    pub fn layer_is_active(&mut self, layer: u8) -> (r: Result<bool, FocusError>)
        ensures
            layer > MAX_LAYERS ==> final(self).writes() == old(self).writes() && (
            r matches Err(e) && e == (FocusError::ValueAboveLimitError {
                label: "layer",
                max: MAX_LAYERS as usize,
                provided: layer as usize,
            })),
            sent_at_most(
                *old(self),
                *final(self),
                line_cmd("layer.isActive "@ + dec_repr(layer as nat)),
            ),
            r matches Ok(b) ==> layer <= MAX_LAYERS && sent_exactly(
                *old(self),
                *final(self),
                line_cmd("layer.isActive "@ + dec_repr(layer as nat)),
            ) && (exists|s: Seq<char>|
                wf_response(s) && s.len() > 0 && bool_of_response(s) == Some(b)),
            r matches Err(e) ==> (e is ValueAboveLimitError ==> layer > MAX_LAYERS),
    {
        if layer > MAX_LAYERS {
            return Err(
                FocusError::ValueAboveLimitError {
                    label: "layer",
                    max: MAX_LAYERS as usize,
                    provided: layer as usize,
                },
            );
        }
        let mut cmd = String::from_str("layer.isActive ");
        push_decimal(&mut cmd, layer as u64);
        self.command_response_bool(cmd.as_str())
    }

    /// Gets the status of every layer: one flag per layer, true where the
    /// response token is the literal `1`.
    pub fn layer_state(&mut self) -> (r: Result<Vec<bool>, FocusError>)
        ensures
            sent_at_most(*old(self), *final(self), line_cmd("layer.state"@)),
            r matches Ok(v) ==> sent_exactly(*old(self), *final(self), line_cmd("layer.state"@))
                && (exists|s: Seq<char>|
                wf_response(s) && v@ == crate::numeric::tokens(s).map_values(
                    |t: Seq<char>| t == "1"@,
                )),
    {
        let response = match self.command_response_string("layer.state") {
            Ok(s) => s,
            Err(e) => {
                return Err(e);
            },
        };
        let toks = tokenize(response.as_str());
        let ghost tv = crate::numeric::tokens(response@);
        let mut out: Vec<bool> = Vec::new();
        let mut i: usize = 0;
        while i < toks.len()
            invariant
                i <= toks@.len(),
                toks@.map_values(|t: &str| t@) == tv,
                out@.len() == i,
                forall|q: int| 0 <= q < i ==> out@[q] == (tv[q] == "1"@),
            decreases toks@.len() - i,
        {
            proof {
                assert(toks@[i as int]@ == tv[i as int]);
            }
            let flag = crate::engine::str_eq_str(toks[i], "1");
            out.push(flag);
            i = i + 1;
        }
        proof {
            assert(out@ =~= tv.map_values(|t: Seq<char>| t == "1"@));
            assert(wf_response(response@) && out@ == crate::numeric::tokens(response@).map_values(
                |t: Seq<char>| t == "1"@,
            ));
        }
        Ok(out)
    }

    /// Asks whether the given keyboard half is connected.
    pub fn upgrade_keyscanner_is_connected(&mut self, side: Side) -> (r: Result<bool, FocusError>)
        ensures
            sent_at_most(
                *old(self),
                *final(self),
                line_cmd("upgrade.keyscanner.isConnected "@ + dec_repr(side.spec_wire_code())),
            ),
            r matches Ok(b) ==> sent_exactly(
                *old(self),
                *final(self),
                line_cmd("upgrade.keyscanner.isConnected "@ + dec_repr(side.spec_wire_code())),
            ) && (exists|s: Seq<char>|
                wf_response(s) && s.len() > 0 && bool_of_response(s) == Some(b)),
    {
        let mut cmd = String::from_str("upgrade.keyscanner.isConnected ");
        push_decimal(&mut cmd, side.wire_code() as u64);
        self.command_response_bool(cmd.as_str())
    }

    /// Asks whether the given keyboard half sits in its bootloader.
    pub fn upgrade_keyscanner_is_bootloader(&mut self, side: Side) -> (r: Result<
        bool,
        FocusError,
    >)
        ensures
            sent_at_most(
                *old(self),
                *final(self),
                line_cmd("upgrade.keyscanner.isBootloader "@ + dec_repr(side.spec_wire_code())),
            ),
            r matches Ok(b) ==> sent_exactly(
                *old(self),
                *final(self),
                line_cmd("upgrade.keyscanner.isBootloader "@ + dec_repr(side.spec_wire_code())),
            ) && (exists|s: Seq<char>|
                wf_response(s) && s.len() > 0 && bool_of_response(s) == Some(b)),
    {
        let mut cmd = String::from_str("upgrade.keyscanner.isBootloader ");
        push_decimal(&mut cmd, side.wire_code() as u64);
        self.command_response_bool(cmd.as_str())
    }

    /// Begins the keyscanner upgrade for the given half; any failure means
    /// that half is disconnected.
    pub fn upgrade_keyscanner_begin(&mut self, side: Side) -> (r: Result<bool, FocusError>)
        ensures
            sent_at_most(
                *old(self),
                *final(self),
                line_cmd("upgrade.keyscanner.begin "@ + dec_repr(side.spec_wire_code())),
            ),
            r matches Err(e) ==> e == (FocusError::SideDisconnectedError { side }),
    {
        let mut cmd = String::from_str("upgrade.keyscanner.begin ");
        push_decimal(&mut cmd, side.wire_code() as u64);
        match self.command_response_bool(cmd.as_str()) {
            Ok(b) => Ok(b),
            Err(_) => Err(FocusError::SideDisconnectedError { side }),
        }
    }

    /// Asks whether the keyscanner is ready; any failure means the device
    /// is not ready for the upgrade.
    pub fn upgrade_keyscanner_is_ready(&mut self) -> (r: Result<bool, FocusError>)
        ensures
            sent_at_most(*old(self), *final(self), line_cmd("upgrade.keyscanner.isReady"@)),
            r matches Err(e) ==> e == FocusError::DeviceNotReadyError,
    {
        match self.command_response_bool("upgrade.keyscanner.isReady") {
            Ok(b) => Ok(b),
            Err(_) => Err(FocusError::DeviceNotReadyError),
        }
    }

    /// Sends the keyscanner write command, terminated by a single space
    /// with no response expected.
    pub fn upgrade_keyscanner_send_write(&mut self) -> (r: Result<(), FocusError>)
        ensures
            sent_at_most(*old(self), *final(self), space_cmd("upgrade.keyscanner.sendWrite"@)),
            r is Ok ==> sent_exactly(
                *old(self),
                *final(self),
                space_cmd("upgrade.keyscanner.sendWrite"@),
            ),
    {
        self.command_whitespace("upgrade.keyscanner.sendWrite")
    }
}

} // verus!
