use dygma_focus::discovery::collect_devices;
use dygma_focus::hardware::devices_physical;
use dygma_focus::hardware::lookup;
use dygma_focus::supported_devices;
use dygma_focus::DeviceType;
use dygma_focus::Grid;
use dygma_focus::LedMode;
use dygma_focus::PortInfo;
use dygma_focus::PortType;
use dygma_focus::Side;
use dygma_focus::SupportedDevice;
use dygma_focus::WirelessPowerMode;

#[test]
fn catalog_has_one_descriptor_per_supported_identity() {
    let devices = devices_physical();
    assert_eq!(devices.len(), 12);

    let defy = lookup(0x35ef, 0x0010).unwrap();
    assert_eq!(defy.display_name, "Dygma Defy Wired");
    assert_eq!(defy.device_type, DeviceType::Wired);
    assert_eq!(defy.keyboard, Some(Grid { rows: 5, columns: 16 }));
    assert_eq!(defy.keyboard_underglow, Some(Grid { rows: 2, columns: 89 }));
    assert!(defy.rgbw_mode);
    assert!(!defy.bootloader);
    assert!(!defy.wireless);

    let bootloader = lookup(0x35ef, 0x0011).unwrap();
    assert!(bootloader.bootloader);
    assert_eq!(bootloader.keyboard, None);

    // the Raise ANSI and ISO identities are shared: the first structural
    // match wins
    let raise = lookup(0x1209, 0x2201).unwrap();
    assert_eq!(raise.display_name, "Dygma Raise ANSI");

    assert_eq!(lookup(0x1209, 0x9999), None);
    assert_eq!(lookup(0x0000, 0x0000), None);
}

#[test]
fn discovery_keeps_matching_usb_ports_in_enumeration_order() {
    let ports = vec![
        PortInfo {
            port_name: "/dev/ttyS0".to_string(),
            port_type: PortType::Other,
        },
        PortInfo {
            port_name: "/dev/ttyACM0".to_string(),
            port_type: PortType::Usb { vendor_id: 0x35ef, product_id: 0x0012 },
        },
        PortInfo {
            port_name: "/dev/ttyACM1".to_string(),
            port_type: PortType::Usb { vendor_id: 0x1234, product_id: 0x5678 },
        },
        PortInfo {
            port_name: "/dev/ttyACM2".to_string(),
            port_type: PortType::Usb { vendor_id: 0x35ef, product_id: 0x0010 },
        },
    ];
    let devices = collect_devices(&ports);
    assert_eq!(devices.len(), 2);
    assert_eq!(devices[0].serial_port, "/dev/ttyACM0");
    assert_eq!(devices[0].hardware.display_name, "Dygma Defy Wireless");
    assert_eq!(devices[1].serial_port, "/dev/ttyACM2");
    assert_eq!(devices[1].hardware.display_name, "Dygma Defy Wired");
}

#[test]
fn a_shared_identity_port_matches_every_entry_that_carries_it() {
    let ports = vec![PortInfo {
        port_name: "/dev/ttyACM0".to_string(),
        port_type: PortType::Usb { vendor_id: 0x1209, product_id: 0x2201 },
    }];
    let devices = collect_devices(&ports);
    assert_eq!(devices.len(), 2);
    assert_eq!(devices[0].hardware.display_name, "Dygma Raise ANSI");
    assert_eq!(devices[1].hardware.display_name, "Dygma Raise ISO");
}

#[test]
fn supported_devices_summarize_the_catalog() {
    let summaries = supported_devices();
    assert_eq!(summaries.len(), 12);
    assert_eq!(
        summaries[0],
        SupportedDevice::new("Dygma Defy Wired", 0x35ef, 0x0010)
    );
    assert_eq!(summaries[4].name, "Dygma Raise ANSI");
    assert_eq!(summaries[4].vendor_id, 0x1209);
    assert_eq!(summaries[4].product_id, 0x2201);
}

#[test]
fn led_mode_wire_codes_round_trip() {
    let modes = [
        LedMode::Static,
        LedMode::Rainbow,
        LedMode::Cycle,
        LedMode::Stalker,
        LedMode::Red,
        LedMode::Green,
        LedMode::Blue,
        LedMode::White,
        LedMode::Off,
        LedMode::Debug,
        LedMode::Bluetooth,
    ];
    for (i, mode) in modes.iter().enumerate() {
        assert_eq!(mode.wire_code() as usize, i);
        assert_eq!(LedMode::from_wire_code(mode.wire_code()), Some(*mode));
    }
    assert_eq!(LedMode::from_wire_code(11), None);
}

#[test]
fn wireless_power_mode_wire_codes_round_trip() {
    let modes = [
        WirelessPowerMode::Low,
        WirelessPowerMode::Medium,
        WirelessPowerMode::High,
    ];
    for (i, mode) in modes.iter().enumerate() {
        assert_eq!(mode.wire_code() as usize, i);
        assert_eq!(
            WirelessPowerMode::from_wire_code(mode.wire_code()),
            Some(*mode)
        );
    }
    assert_eq!(WirelessPowerMode::from_wire_code(3), None);
}

#[test]
fn side_wire_codes() {
    assert_eq!(Side::Right.wire_code(), 0);
    assert_eq!(Side::Left.wire_code(), 1);
}
