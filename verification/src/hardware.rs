//! The hardware catalog: the fixed table of supported devices.
//!
//! Each entry maps a USB (vendor id, product id) pair to a capability
//! descriptor: grid dimensions, RGBW/bootloader/wireless flags, and the
//! text a user is shown when updating the firmware. The table is pure
//! compiled-in data; [`catalog`] is its specification, entry for entry.

use vstd::prelude::*;

verus! {

/// How a user resets a keyboard that takes the escape-key sequence.
pub const ESCAPE_RESET_INSTRUCTIONS: &'static str = "To update the firmware, the keyboard needs a special reset. When the countdown starts, press and hold the Escape key. Soon after the countdown finished, the Neuron's light should start a blue pulsing pattern, and the flashing will proceed. At this point, you should release the Escape key.";

/// How a user resets a keyboard that takes the bottom-button sequence.
pub const BUTTON_RESET_INSTRUCTIONS: &'static str = "To update the firmware, press the button at the bottom. You must not hold any key on the keyboard while the countdown is in progress, nor afterwards, until the flashing is finished. When the countdown reaches zero, the Neuron's light should start a blue pulsing pattern, and flashing will then proceed.";

/// A key or underglow LED grid, rows by columns.
#[derive(Debug, Copy, Clone, PartialEq, Eq, Structural)]
pub struct Grid {
    pub rows: u8,
    pub columns: u8,
}

/// The family a supported keyboard belongs to.
#[derive(Debug, Copy, Clone, PartialEq, Eq, Structural)]
pub enum DeviceType {
    Wired,
    Wireless,
    ANSI,
    ISO,
}

/// A USB identity: vendor and product.
#[derive(Debug, Copy, Clone, PartialEq, Eq, Structural)]
pub struct Usb {
    pub vendor_id: u16,
    pub product_id: u16,
}

/// One supported keyboard's capability descriptor.
#[derive(Debug, Copy, Clone, PartialEq, Eq)]
pub struct Hardware {
    /// The name shown to a user.
    pub display_name: &'static str,
    /// The family the keyboard belongs to.
    pub device_type: DeviceType,
    /// The USB identity discovery matches on.
    pub usb: Usb,
    /// The key grid, absent on bootloader-only identities.
    pub keyboard: Option<Grid>,
    /// The underglow LED grid, absent where there is none.
    pub keyboard_underglow: Option<Grid>,
    /// Whether the LEDs carry a white channel.
    pub rgbw_mode: bool,
    /// Whether this identity is the bootloader.
    pub bootloader: bool,
    /// Whether the keyboard has a wireless radio.
    pub wireless: bool,
    /// What a user must do to flash this keyboard.
    pub update_instructions: &'static str,
}

/// The catalog, entry for entry.
pub open spec fn catalog() -> Seq<Hardware> {
    seq![
        Hardware {
            display_name: "Dygma Defy Wired",
            device_type: DeviceType::Wired,
            usb: Usb { vendor_id: 0x35ef, product_id: 0x0010 },
            keyboard: Some(Grid { rows: 5, columns: 16 }),
            keyboard_underglow: Some(Grid { rows: 2, columns: 89 }),
            rgbw_mode: true,
            bootloader: false,
            wireless: false,
            update_instructions: ESCAPE_RESET_INSTRUCTIONS,
        },
        Hardware {
            display_name: "Dygma Defy Wired (Bootloader)",
            device_type: DeviceType::Wired,
            usb: Usb { vendor_id: 0x35ef, product_id: 0x0011 },
            keyboard: None,
            keyboard_underglow: None,
            rgbw_mode: true,
            bootloader: true,
            wireless: true,
            update_instructions: BUTTON_RESET_INSTRUCTIONS,
        },
        Hardware {
            display_name: "Dygma Defy Wireless",
            device_type: DeviceType::Wireless,
            usb: Usb { vendor_id: 0x35ef, product_id: 0x0012 },
            keyboard: Some(Grid { rows: 5, columns: 16 }),
            keyboard_underglow: Some(Grid { rows: 2, columns: 89 }),
            rgbw_mode: true,
            bootloader: false,
            wireless: true,
            update_instructions: ESCAPE_RESET_INSTRUCTIONS,
        },
        Hardware {
            display_name: "Dygma Defy Wireless (Bootloader)",
            device_type: DeviceType::Wireless,
            usb: Usb { vendor_id: 0x35ef, product_id: 0x0013 },
            keyboard: None,
            keyboard_underglow: None,
            rgbw_mode: true,
            bootloader: true,
            wireless: true,
            update_instructions: BUTTON_RESET_INSTRUCTIONS,
        },
        Hardware {
            display_name: "Dygma Raise ANSI",
            device_type: DeviceType::ANSI,
            usb: Usb { vendor_id: 0x1209, product_id: 0x2201 },
            keyboard: Some(Grid { rows: 5, columns: 16 }),
            keyboard_underglow: Some(Grid { rows: 6, columns: 22 }),
            rgbw_mode: false,
            bootloader: false,
            wireless: false,
            update_instructions: ESCAPE_RESET_INSTRUCTIONS,
        },
        Hardware {
            display_name: "Dygma Raise ANSI (Bootloader)",
            device_type: DeviceType::ANSI,
            usb: Usb { vendor_id: 0x1209, product_id: 0x2200 },
            keyboard: None,
            keyboard_underglow: None,
            rgbw_mode: false,
            bootloader: true,
            wireless: false,
            update_instructions: BUTTON_RESET_INSTRUCTIONS,
        },
        Hardware {
            display_name: "Dygma Raise ISO",
            device_type: DeviceType::ISO,
            usb: Usb { vendor_id: 0x1209, product_id: 0x2201 },
            keyboard: Some(Grid { rows: 5, columns: 16 }),
            keyboard_underglow: Some(Grid { rows: 6, columns: 22 }),
            rgbw_mode: false,
            bootloader: false,
            wireless: false,
            update_instructions: ESCAPE_RESET_INSTRUCTIONS,
        },
        Hardware {
            display_name: "Dygma Raise ISO (Bootloader)",
            device_type: DeviceType::ISO,
            usb: Usb { vendor_id: 0x1209, product_id: 0x2200 },
            keyboard: None,
            keyboard_underglow: None,
            rgbw_mode: false,
            bootloader: true,
            wireless: false,
            update_instructions: BUTTON_RESET_INSTRUCTIONS,
        },
        Hardware {
            display_name: "Dygma Raise 2 ANSI",
            device_type: DeviceType::ANSI,
            usb: Usb { vendor_id: 0x35ef, product_id: 0x0021 },
            keyboard: Some(Grid { rows: 5, columns: 16 }),
            keyboard_underglow: Some(Grid { rows: 4, columns: 44 }),
            rgbw_mode: true,
            bootloader: false,
            wireless: true,
            update_instructions: BUTTON_RESET_INSTRUCTIONS,
        },
        Hardware {
            display_name: "Dygma Raise 2 ANSI",
            device_type: DeviceType::ANSI,
            usb: Usb { vendor_id: 0x35ef, product_id: 0x0020 },
            keyboard: Some(Grid { rows: 5, columns: 16 }),
            keyboard_underglow: Some(Grid { rows: 4, columns: 44 }),
            rgbw_mode: true,
            bootloader: true,
            wireless: true,
            update_instructions: BUTTON_RESET_INSTRUCTIONS,
        },
        Hardware {
            display_name: "Dygma Raise 2 ISO",
            device_type: DeviceType::ISO,
            usb: Usb { vendor_id: 0x35ef, product_id: 0x0021 },
            keyboard: Some(Grid { rows: 5, columns: 16 }),
            keyboard_underglow: Some(Grid { rows: 4, columns: 44 }),
            rgbw_mode: true,
            bootloader: false,
            wireless: true,
            update_instructions: BUTTON_RESET_INSTRUCTIONS,
        },
        Hardware {
            display_name: "Dygma Raise 2 ISO",
            device_type: DeviceType::ISO,
            usb: Usb { vendor_id: 0x35ef, product_id: 0x0022 },
            keyboard: Some(Grid { rows: 5, columns: 16 }),
            keyboard_underglow: Some(Grid { rows: 4, columns: 44 }),
            rgbw_mode: true,
            bootloader: true,
            wireless: true,
            update_instructions: BUTTON_RESET_INSTRUCTIONS,
        },
    ]
}

/// The fixed table of supported devices, exactly the specification's
/// catalog.
pub fn devices_physical() -> (v: Vec<Hardware>)
    ensures
        v@ == catalog(),
{
    let mut v: Vec<Hardware> = Vec::new();
    v.push(
        Hardware {
            display_name: "Dygma Defy Wired",
            device_type: DeviceType::Wired,
            usb: Usb { vendor_id: 0x35ef, product_id: 0x0010 },
            keyboard: Some(Grid { rows: 5, columns: 16 }),
            keyboard_underglow: Some(Grid { rows: 2, columns: 89 }),
            rgbw_mode: true,
            bootloader: false,
            wireless: false,
            update_instructions: ESCAPE_RESET_INSTRUCTIONS,
        },
    );
    v.push(
        Hardware {
            display_name: "Dygma Defy Wired (Bootloader)",
            device_type: DeviceType::Wired,
            usb: Usb { vendor_id: 0x35ef, product_id: 0x0011 },
            keyboard: None,
            keyboard_underglow: None,
            rgbw_mode: true,
            bootloader: true,
            wireless: true,
            update_instructions: BUTTON_RESET_INSTRUCTIONS,
        },
    );
    v.push(
        Hardware {
            display_name: "Dygma Defy Wireless",
            device_type: DeviceType::Wireless,
            usb: Usb { vendor_id: 0x35ef, product_id: 0x0012 },
            keyboard: Some(Grid { rows: 5, columns: 16 }),
            keyboard_underglow: Some(Grid { rows: 2, columns: 89 }),
            rgbw_mode: true,
            bootloader: false,
            wireless: true,
            update_instructions: ESCAPE_RESET_INSTRUCTIONS,
        },
    );
    v.push(
        Hardware {
            display_name: "Dygma Defy Wireless (Bootloader)",
            device_type: DeviceType::Wireless,
            usb: Usb { vendor_id: 0x35ef, product_id: 0x0013 },
            keyboard: None,
            keyboard_underglow: None,
            rgbw_mode: true,
            bootloader: true,
            wireless: true,
            update_instructions: BUTTON_RESET_INSTRUCTIONS,
        },
    );
    v.push(
        Hardware {
            display_name: "Dygma Raise ANSI",
            device_type: DeviceType::ANSI,
            usb: Usb { vendor_id: 0x1209, product_id: 0x2201 },
            keyboard: Some(Grid { rows: 5, columns: 16 }),
            keyboard_underglow: Some(Grid { rows: 6, columns: 22 }),
            rgbw_mode: false,
            bootloader: false,
            wireless: false,
            update_instructions: ESCAPE_RESET_INSTRUCTIONS,
        },
    );
    v.push(
        Hardware {
            display_name: "Dygma Raise ANSI (Bootloader)",
            device_type: DeviceType::ANSI,
            usb: Usb { vendor_id: 0x1209, product_id: 0x2200 },
            keyboard: None,
            keyboard_underglow: None,
            rgbw_mode: false,
            bootloader: true,
            wireless: false,
            update_instructions: BUTTON_RESET_INSTRUCTIONS,
        },
    );
    v.push(
        Hardware {
            display_name: "Dygma Raise ISO",
            device_type: DeviceType::ISO,
            usb: Usb { vendor_id: 0x1209, product_id: 0x2201 },
            keyboard: Some(Grid { rows: 5, columns: 16 }),
            keyboard_underglow: Some(Grid { rows: 6, columns: 22 }),
            rgbw_mode: false,
            bootloader: false,
            wireless: false,
            update_instructions: ESCAPE_RESET_INSTRUCTIONS,
        },
    );
    v.push(
        Hardware {
            display_name: "Dygma Raise ISO (Bootloader)",
            device_type: DeviceType::ISO,
            usb: Usb { vendor_id: 0x1209, product_id: 0x2200 },
            keyboard: None,
            keyboard_underglow: None,
            rgbw_mode: false,
            bootloader: true,
            wireless: false,
            update_instructions: BUTTON_RESET_INSTRUCTIONS,
        },
    );
    v.push(
        Hardware {
            display_name: "Dygma Raise 2 ANSI",
            device_type: DeviceType::ANSI,
            usb: Usb { vendor_id: 0x35ef, product_id: 0x0021 },
            keyboard: Some(Grid { rows: 5, columns: 16 }),
            keyboard_underglow: Some(Grid { rows: 4, columns: 44 }),
            rgbw_mode: true,
            bootloader: false,
            wireless: true,
            update_instructions: BUTTON_RESET_INSTRUCTIONS,
        },
    );
    v.push(
        Hardware {
            display_name: "Dygma Raise 2 ANSI",
            device_type: DeviceType::ANSI,
            usb: Usb { vendor_id: 0x35ef, product_id: 0x0020 },
            keyboard: Some(Grid { rows: 5, columns: 16 }),
            keyboard_underglow: Some(Grid { rows: 4, columns: 44 }),
            rgbw_mode: true,
            bootloader: true,
            wireless: true,
            update_instructions: BUTTON_RESET_INSTRUCTIONS,
        },
    );
    v.push(
        Hardware {
            display_name: "Dygma Raise 2 ISO",
            device_type: DeviceType::ISO,
            usb: Usb { vendor_id: 0x35ef, product_id: 0x0021 },
            keyboard: Some(Grid { rows: 5, columns: 16 }),
            keyboard_underglow: Some(Grid { rows: 4, columns: 44 }),
            rgbw_mode: true,
            bootloader: false,
            wireless: true,
            update_instructions: BUTTON_RESET_INSTRUCTIONS,
        },
    );
    v.push(
        Hardware {
            display_name: "Dygma Raise 2 ISO",
            device_type: DeviceType::ISO,
            usb: Usb { vendor_id: 0x35ef, product_id: 0x0022 },
            keyboard: Some(Grid { rows: 5, columns: 16 }),
            keyboard_underglow: Some(Grid { rows: 4, columns: 44 }),
            rgbw_mode: true,
            bootloader: true,
            wireless: true,
            update_instructions: BUTTON_RESET_INSTRUCTIONS,
        },
    );
    proof {
        assert(v@ =~= catalog());
    }
    v
}

/// The entries whose USB identity matches, in catalog order. The catalog
/// holds one entry per distinct identity pair, so at most one matches
/// (shared bootloader identities excepted, where the first match wins).
pub open spec fn matching_entries(vendor_id: u16, product_id: u16) -> Seq<Hardware> {
    catalog().filter(
        |h: Hardware| h.usb.vendor_id == vendor_id && h.usb.product_id == product_id,
    )
}

/// Looks one USB identity up in the catalog: the first matching entry.
pub fn lookup(vendor_id: u16, product_id: u16) -> (r: Option<Hardware>)
    ensures
        matching_entries(vendor_id, product_id).len() == 0 ==> r is None,
        matching_entries(vendor_id, product_id).len() > 0 ==> r == Some(
            matching_entries(vendor_id, product_id)[0],
        ),
{
    let devices = devices_physical();
    let ghost p = |h: Hardware| h.usb.vendor_id == vendor_id && h.usb.product_id == product_id;
    let mut i: usize = 0;
    proof {
        assert(catalog().take(0) =~= Seq::<Hardware>::empty());
        reveal(Seq::filter);
        assert(Seq::<Hardware>::empty().filter(p) =~= Seq::<Hardware>::empty());
    }
    while i < devices.len()
        invariant
            i <= devices@.len(),
            devices@ == catalog(),
            p == (|h: Hardware| h.usb.vendor_id == vendor_id && h.usb.product_id
                == product_id),
            catalog().take(i as int).filter(p) =~= Seq::<Hardware>::empty(),
        decreases devices@.len() - i,
    {
        let h = devices[i];
        proof {
            catalog().take(i as int).lemma_filter_push(catalog()[i as int], p);
            assert(catalog().take(i + 1) =~= catalog().take(i as int).push(catalog()[i as int]));
        }
        if h.usb.vendor_id == vendor_id && h.usb.product_id == product_id {
            proof {
                assert(catalog().take(i + 1).filter(p) =~= seq![catalog()[i as int]]);
                lemma_filter_of_prefix(catalog(), p, i + 1);
            }
            return Some(h);
        }
        i = i + 1;
    }
    proof {
        assert(catalog().take(devices@.len() as int) =~= catalog());
        assert(matching_entries(vendor_id, product_id) =~= Seq::<Hardware>::empty());
    }
    None
}

/// A filtered prefix opens every filtered sequence: the first hit of the
/// prefix is the first hit overall.
proof fn lemma_filter_of_prefix(s: Seq<Hardware>, p: spec_fn(Hardware) -> bool, k: int)
    requires
        0 <= k <= s.len(),
        s.take(k).filter(p).len() > 0,
    ensures
        s.filter(p).len() > 0,
        s.filter(p)[0] == s.take(k).filter(p)[0],
    decreases s.len() - k,
{
    if k == s.len() {
        assert(s.take(k) =~= s);
    } else {
        s.take(k).lemma_filter_push(s[k], p);
        assert(s.take(k + 1) =~= s.take(k).push(s[k]));
        assert(s.take(k + 1).filter(p)[0] == s.take(k).filter(p)[0]);
        lemma_filter_of_prefix(s, p, k + 1);
    }
}

} // verus!
