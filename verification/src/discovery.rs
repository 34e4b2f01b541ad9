//! Device discovery: matching serial ports against the hardware catalog.
//!
//! Discovery lists the operating system's serial ports, keeps the USB ones,
//! and matches each against the catalog by (vendor id, product id). Ports
//! with no match are silently excluded; finding nothing is a recoverable
//! condition, not a defect. The matching itself is pure and exactly
//! specified; only the port enumeration is taken from the driver.

use vstd::prelude::*;

use crate::engine::Focus;
use crate::error::FocusError;
use crate::hardware::catalog;
use crate::hardware::devices_physical;
use crate::hardware::matching_entries;
use crate::hardware::Hardware;
use crate::transport::SerialTransport;

verus! {

/// How a serial port is attached, as far as discovery cares: a USB port
/// with its identity, or anything else.
#[derive(Debug, Clone, PartialEq, Eq)]
pub enum PortType {
    /// A USB serial port and the identity it reports.
    Usb { vendor_id: u16, product_id: u16 },
    /// A port attached any other way; never a supported keyboard.
    Other,
}

/// One serial port as the operating system reports it.
#[derive(Debug, Clone, PartialEq, Eq)]
pub struct PortInfo {
    /// The OS-level port identifier, such as a device path.
    pub port_name: String,
    /// How the port is attached.
    pub port_type: PortType,
}

/// A discovered, supported keyboard: its capability descriptor and the
/// port it was found on.
#[derive(Debug, Clone, PartialEq, Eq)]
pub struct Device {
    /// The catalog entry the port matched.
    pub hardware: Hardware,
    /// The OS-level port identifier to open.
    pub serial_port: String,
}

/// A supported device summary: the display name and USB identity.
#[derive(Debug, Copy, Clone, PartialEq, Eq)]
pub struct SupportedDevice {
    pub name: &'static str,
    pub vendor_id: u16,
    pub product_id: u16,
}

impl SupportedDevice {
    pub fn new(name: &'static str, vendor_id: u16, product_id: u16) -> (d: SupportedDevice)
        ensures
            d == (SupportedDevice { name, vendor_id, product_id }),
    {
        SupportedDevice { name, vendor_id, product_id }
    }
}

/// The devices one port contributes: every catalog entry matching its USB
/// identity, bound to the port's name; nothing for a non-USB port.
pub open spec fn devices_for_port(port: PortInfo) -> Seq<Device> {
    match port.port_type {
        PortType::Usb { vendor_id, product_id } => matching_entries(
            vendor_id,
            product_id,
        ).map_values(|h: Hardware| Device { hardware: h, serial_port: port.port_name }),
        PortType::Other => Seq::<Device>::empty(),
    }
}

/// The devices a port list contributes, preserving enumeration order.
pub open spec fn collect_spec(ports: Seq<PortInfo>) -> Seq<Device>
    decreases ports.len(),
{
    if ports.len() == 0 {
        Seq::<Device>::empty()
    } else {
        devices_for_port(ports[0]) + collect_spec(ports.drop_first())
    }
}

proof fn lemma_collect_push(ports: Seq<PortInfo>, p: PortInfo)
    ensures
        collect_spec(ports.push(p)) == collect_spec(ports) + devices_for_port(p),
    decreases ports.len(),
{
    let w = ports.push(p);
    if ports.len() == 0 {
        assert(w[0] == p);
        assert(w.drop_first() =~= Seq::<PortInfo>::empty());
        assert(collect_spec(w.drop_first()) =~= Seq::<Device>::empty());
        assert(collect_spec(w) == devices_for_port(w[0]) + collect_spec(w.drop_first()));
        assert(devices_for_port(p) + Seq::<Device>::empty() =~= devices_for_port(p));
        assert(collect_spec(ports) =~= Seq::<Device>::empty());
        assert(Seq::<Device>::empty() + devices_for_port(p) =~= devices_for_port(p));
        assert(collect_spec(w) =~= collect_spec(ports) + devices_for_port(p));
    } else {
        assert(w[0] == ports[0]);
        assert(w.drop_first() =~= ports.drop_first().push(p));
        lemma_collect_push(ports.drop_first(), p);
        assert(collect_spec(w) =~= collect_spec(ports) + devices_for_port(p));
    }
}

/// Every device discovery hands back carries a catalog entry that matches
/// the port's reported identity.
pub proof fn lemma_collect_members(ports: Seq<PortInfo>)
    ensures
        forall|i: int|
            0 <= i < collect_spec(ports).len() ==> catalog().contains(
                #[trigger] collect_spec(ports)[i].hardware,
            ),
    decreases ports.len(),
{
    if ports.len() > 0 {
        lemma_collect_members(ports.drop_first());
        let head = devices_for_port(ports[0]);
        assert forall|i: int|
            0 <= i < collect_spec(ports).len() implies catalog().contains(
            #[trigger] collect_spec(ports)[i].hardware,
        ) by {
            if i < head.len() {
                match ports[0].port_type {
                    PortType::Usb { vendor_id, product_id } => {
                        let m = matching_entries(vendor_id, product_id);
                        assert(head[i].hardware == m[i]);
                        lemma_filter_member(catalog(), |h: Hardware| h.usb.vendor_id == vendor_id
                            && h.usb.product_id == product_id, i);
                    },
                    PortType::Other => {},
                }
            } else {
                assert(collect_spec(ports)[i] == collect_spec(ports.drop_first())[i - head.len()]);
            }
        }
    }
}

/// An element of a filtered sequence is an element of the sequence.
proof fn lemma_filter_member<A>(s: Seq<A>, p: spec_fn(A) -> bool, i: int)
    requires
        0 <= i < s.filter(p).len(),
    ensures
        s.contains(s.filter(p)[i]),
    decreases s.len(),
{
    reveal(Seq::filter);
    if s.len() > 0 {
        let pre = s.drop_last();
        assert(s =~= pre.push(s.last()));
        if i < pre.filter(p).len() {
            lemma_filter_member(pre, p, i);
            let w = choose|k: int| 0 <= k < pre.len() && pre[k] == pre.filter(p)[i];
            assert(s[w] == pre.filter(p)[i]);
        } else {
            assert(s.filter(p)[i] == s.last());
            assert(s[s.len() - 1] == s.last());
        }
    }
}

/// Matches a port list against the catalog: USB ports keep every matching
/// entry, everything else is silently excluded, enumeration order kept.
pub fn collect_devices(ports: &Vec<PortInfo>) -> (r: Vec<Device>)
    ensures
        r@ == collect_spec(ports@),
{
    let mut out: Vec<Device> = Vec::new();
    let mut i: usize = 0;
    proof {
        assert(ports@.take(0) =~= Seq::<PortInfo>::empty());
    }
    while i < ports.len()
        invariant
            i <= ports@.len(),
            out@ == collect_spec(ports@.take(i as int)),
        decreases ports@.len() - i,
    {
        match &ports[i].port_type {
            PortType::Usb { vendor_id, product_id } => {
                let vid: u16 = *vendor_id;
                let pid: u16 = *product_id;
                let ghost p = |h: Hardware| h.usb.vendor_id == vid && h.usb.product_id == pid;
                let ghost mk = |h: Hardware|
                    Device { hardware: h, serial_port: ports@[i as int].port_name };
                let table = devices_physical();
                let mut j: usize = 0;
                proof {
                    assert(catalog().take(0) =~= Seq::<Hardware>::empty());
                    reveal(Seq::filter);
                    assert(Seq::<Hardware>::empty().filter(p) =~= Seq::<Hardware>::empty());
                    assert(out@ =~= collect_spec(ports@.take(i as int)) + catalog().take(
                        0,
                    ).filter(p).map_values(mk));
                }
                while j < table.len()
                    invariant
                        j <= table@.len(),
                        table@ == catalog(),
                        i < ports@.len(),
                        p == (|h: Hardware| h.usb.vendor_id == vid && h.usb.product_id == pid),
                        mk == (|h: Hardware|
                            Device { hardware: h, serial_port: ports@[i as int].port_name }),
                        ports@[i as int].port_type == (PortType::Usb {
                            vendor_id: vid,
                            product_id: pid,
                        }),
                        out@ == collect_spec(ports@.take(i as int)) + catalog().take(
                            j as int,
                        ).filter(p).map_values(mk),
                    decreases table@.len() - j,
                {
                    let h = table[j];
                    proof {
                        catalog().take(j as int).lemma_filter_push(catalog()[j as int], p);
                        assert(catalog().take(j + 1) =~= catalog().take(j as int).push(
                            catalog()[j as int],
                        ));
                    }
                    if h.usb.vendor_id == vid && h.usb.product_id == pid {
                        let ghost pre = out@;
                        out.push(Device { hardware: h, serial_port: ports[i].port_name.clone() });
                        proof {
                            assert(catalog().take(j + 1).filter(p) =~= catalog().take(
                                j as int,
                            ).filter(p).push(h));
                            assert(catalog().take(j + 1).filter(p).map_values(mk)
                                =~= catalog().take(j as int).filter(p).map_values(mk).push(mk(h)));
                            assert(out@ =~= collect_spec(ports@.take(i as int)) + catalog().take(
                                j + 1,
                            ).filter(p).map_values(mk));
                        }
                    }
                    j = j + 1;
                }
                proof {
                    assert(catalog().take(table@.len() as int) =~= catalog());
                    assert(devices_for_port(ports@[i as int]) =~= matching_entries(
                        vid,
                        pid,
                    ).map_values(mk));
                    lemma_collect_push(ports@.take(i as int), ports@[i as int]);
                    assert(ports@.take(i as int).push(ports@[i as int]) =~= ports@.take(i + 1));
                    assert(out@ =~= collect_spec(ports@.take(i + 1)));
                }
            },
            PortType::Other => {
                proof {
                    lemma_collect_push(ports@.take(i as int), ports@[i as int]);
                    assert(ports@.take(i as int).push(ports@[i as int]) =~= ports@.take(i + 1));
                    assert(devices_for_port(ports@[i as int]) =~= Seq::<Device>::empty());
                    assert(out@ =~= collect_spec(ports@.take(i + 1)));
                }
            },
        }
        i = i + 1;
    }
    proof {
        assert(ports@.take(ports@.len() as int) =~= ports@);
    }
    out
}

/// Relies on serialport's `available_ports`: lists the system's serial
/// ports, each converted to its name and, for USB ports, the reported
/// vendor and product identity; the driver's error text is carried in
/// [`FocusError::SerialPortEnumerationError`].
#[verifier::external_body]
fn list_ports() -> (r: Result<Vec<PortInfo>, FocusError>) {
    let ports = serialport::available_ports().map_err(
        |e| FocusError::SerialPortEnumerationError(e.to_string()),
    )?;
    Ok(ports.into_iter().map(|p| PortInfo {
        port_name: p.port_name,
        port_type: match p.port_type {
            serialport::SerialPortType::UsbPort(u) => PortType::Usb {
                vendor_id: u.vid,
                product_id: u.pid,
            },
            _ => PortType::Other,
        },
    }).collect())
}

/// The supported devices as summaries: one per catalog entry, in catalog
/// order.
pub fn supported_devices() -> (v: Vec<SupportedDevice>)
    ensures
        v@ == catalog().map_values(
            |h: Hardware|
                SupportedDevice {
                    name: h.display_name,
                    vendor_id: h.usb.vendor_id,
                    product_id: h.usb.product_id,
                },
        ),
{
    let ghost mk = |h: Hardware|
        SupportedDevice {
            name: h.display_name,
            vendor_id: h.usb.vendor_id,
            product_id: h.usb.product_id,
        };
    let table = devices_physical();
    let mut v: Vec<SupportedDevice> = Vec::new();
    let mut i: usize = 0;
    while i < table.len()
        invariant
            i <= table@.len(),
            table@ == catalog(),
            mk == (|h: Hardware|
                SupportedDevice {
                    name: h.display_name,
                    vendor_id: h.usb.vendor_id,
                    product_id: h.usb.product_id,
                }),
            v@ == catalog().take(i as int).map_values(mk),
        decreases table@.len() - i,
    {
        let h = table[i];
        v.push(SupportedDevice::new(h.display_name, h.usb.vendor_id, h.usb.product_id));
        proof {
            assert(catalog().take(i + 1) =~= catalog().take(i as int).push(catalog()[i as int]));
            assert(v@ =~= catalog().take(i + 1).map_values(mk));
        }
        i = i + 1;
    }
    proof {
        assert(catalog().take(table@.len() as int) =~= catalog());
    }
    v
}

impl Focus<SerialTransport> {
    /// Finds every supported device among the system's serial ports, in
    /// enumeration order; failing to enumerate is an error, matching
    /// nothing is not.
    pub fn find_all_devices() -> (r: Result<Vec<Device>, FocusError>)
        ensures
            r matches Ok(v) ==> (exists|ports: Seq<PortInfo>| v@ == collect_spec(ports)) && (
            forall|i: int| 0 <= i < v@.len() ==> catalog().contains(#[trigger] v@[i].hardware)),
    {
        let ports = match list_ports() {
            Ok(p) => p,
            Err(e) => {
                return Err(e);
            },
        };
        let devices = collect_devices(&ports);
        proof {
            lemma_collect_members(ports@);
            assert(devices@ == collect_spec(ports@));
        }
        Ok(devices)
    }

    /// Finds the first supported device; none being present is the
    /// recoverable [`FocusError::NoDevicesDetectedError`].
    pub fn find_first_device() -> (r: Result<Device, FocusError>)
        ensures
            r matches Ok(d) ==> catalog().contains(d.hardware),
    {
        let devices = match Focus::find_all_devices() {
            Ok(v) => v,
            Err(e) => {
                return Err(e);
            },
        };
        if devices.len() == 0 {
            return Err(FocusError::NoDevicesDetectedError);
        }
        let mut devices = devices;
        let first = devices.remove(0);
        Ok(first)
    }

    /// Opens a session on the named serial port with the protocol's fixed
    /// framing parameters.
    pub fn new_via_port(port: &str) -> (r: Result<Focus<SerialTransport>, FocusError>)
        ensures
            r matches Ok(f) ==> f.writes() == Seq::<Seq<u8>>::empty(),
    {
        match SerialTransport::open(port) {
            Ok(t) => Ok(Focus::from_transport(t)),
            Err(e) => Err(e),
        }
    }

    /// Opens a session on a discovered device's port.
    pub fn new_via_device(device: &Device) -> (r: Result<Focus<SerialTransport>, FocusError>)
        ensures
            r matches Ok(f) ==> f.writes() == Seq::<Seq<u8>>::empty(),
    {
        Focus::new_via_port(device.serial_port.as_str())
    }

    /// Opens a session on the first supported device found.
    pub fn new_first_available() -> (r: Result<Focus<SerialTransport>, FocusError>)
        ensures
            r matches Ok(f) ==> f.writes() == Seq::<Seq<u8>>::empty(),
    {
        let device = match Focus::find_first_device() {
            Ok(d) => d,
            Err(e) => {
                return Err(e);
            },
        };
        Focus::new_via_device(&device)
    }
}

} // verus!
