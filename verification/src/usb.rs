//! Picking the device among the attached USB endpoints.
//!
//! The serial ports are looked at first, because a serial endpoint carries a
//! duplex stream; raw HID is the fallback wherever the serial ports hold no
//! match. The first endpoint with the identifiers of the key is taken: one
//! such device is assumed to be attached.

use vstd::prelude::*;

verus! {

/// USB vendor identifier of the key.
pub const USBD_VID: u16 = 0x2E8A;

/// USB product identifier of the key.
pub const USBD_PID: u16 = 0x000A;

/// The channel over which the device is reached.
#[derive(Debug)]
pub enum DeviceTransport {
    /// A serial port, by its name.
    Serial(String),
    /// A raw HID endpoint, by its device path.
    Hid(String),
}

/// The content of a [`DeviceTransport`].
pub enum Transport {
    Serial(Seq<char>),
    Hid(Seq<char>),
}

impl View for DeviceTransport {
    type V = Transport;

    open spec fn view(&self) -> Transport {
        match self {
            DeviceTransport::Serial(name) => Transport::Serial(name@),
            DeviceTransport::Hid(path) => Transport::Hid(path@),
        }
    }
}

/// What the enumeration of serial ports reports of one port.
#[derive(Debug)]
pub struct SerialPortEntry {
    /// The name under which the port is opened.
    pub name: String,
    /// Vendor and product identifier, where the port is a USB port.
    pub usb_ids: Option<(u16, u16)>,
}

/// What the enumeration of HID devices reports of one device.
#[derive(Debug)]
pub struct HidEntry {
    /// Vendor identifier.
    pub vendor_id: u16,
    /// Product identifier.
    pub product_id: u16,
    /// The path under which the device is opened.
    pub path: String,
}

/// What the locator has found out after looking at the serial ports.
#[derive(Debug)]
pub enum SerialStage {
    /// The device is attached as a serial port.
    Found(DeviceTransport),
    /// No serial port is the device, or the serial ports could not be
    /// enumerated: the HID devices are to be enumerated.
    ScanHid,
}

impl SerialPortEntry {
    /// Whether the port is a USB port with the identifiers `vid` and `pid`.
    pub open spec fn is_device(self, vid: u16, pid: u16) -> bool {
        self.usb_ids == Some((vid, pid))
    }
}

impl HidEntry {
    /// Whether the device has the identifiers `vid` and `pid`.
    pub open spec fn is_device(self, vid: u16, pid: u16) -> bool {
        self.vendor_id == vid && self.product_id == pid
    }
}

/// The first of `ports` with the identifiers `vid` and `pid`, as a serial
/// transport.
pub open spec fn first_serial(ports: Seq<SerialPortEntry>, vid: u16, pid: u16) -> Option<Transport>
    decreases ports.len(),
{
    if ports.len() == 0 {
        None
    } else if ports[0].is_device(vid, pid) {
        Some(Transport::Serial(ports[0].name@))
    } else {
        first_serial(ports.drop_first(), vid, pid)
    }
}

/// The first of `devices` with the identifiers `vid` and `pid`, as a HID
/// transport.
pub open spec fn first_hid(devices: Seq<HidEntry>, vid: u16, pid: u16) -> Option<Transport>
    decreases devices.len(),
{
    if devices.len() == 0 {
        None
    } else if devices[0].is_device(vid, pid) {
        Some(Transport::Hid(devices[0].path@))
    } else {
        first_hid(devices.drop_first(), vid, pid)
    }
}

/// The serial transport among what the enumeration of the serial ports
/// gave. A failed enumeration, `None`, holds no match.
pub open spec fn serial_match(serial: Option<Seq<SerialPortEntry>>, vid: u16, pid: u16) -> Option<
    Transport,
> {
    match serial {
        Some(ports) => first_serial(ports, vid, pid),
        None => None,
    }
}

/// The HID transport among what the enumeration of the HID devices gave. A
/// failed enumeration, `None`, holds no match.
pub open spec fn hid_match(hid: Option<Seq<HidEntry>>, vid: u16, pid: u16) -> Option<Transport> {
    match hid {
        Some(devices) => first_hid(devices, vid, pid),
        None => None,
    }
}

/// The transport that the locator settles on. `serial` and `hid` are what
/// the two enumerations gave, `None` where one failed. The HID devices
/// count wherever the serial ports hold no match, and there is no
/// transport only where neither enumeration holds one.
pub open spec fn located(
    serial: Option<Seq<SerialPortEntry>>,
    hid: Option<Seq<HidEntry>>,
    vid: u16,
    pid: u16,
) -> Option<Transport> {
    match serial_match(serial, vid, pid) {
        Some(found) => Some(found),
        None => hid_match(hid, vid, pid),
    }
}

/// The view of an optional transport.
pub open spec fn transport_view(found: Option<DeviceTransport>) -> Option<Transport> {
    match found {
        Some(transport) => Some(transport@),
        None => None,
    }
}

/// The view of an optional enumeration of serial ports.
pub open spec fn ports_view(ports: Option<Vec<SerialPortEntry>>) -> Option<Seq<SerialPortEntry>> {
    match ports {
        Some(list) => Some(list@),
        None => None,
    }
}

/// The view of an optional enumeration of HID devices.
pub open spec fn devices_view(devices: Option<Vec<HidEntry>>) -> Option<Seq<HidEntry>> {
    match devices {
        Some(list) => Some(list@),
        None => None,
    }
}

/// Picks the first serial port with the identifiers `vid` and `pid`.
pub fn select_serial(ports: &Vec<SerialPortEntry>, vid: u16, pid: u16) -> (found: Option<
    DeviceTransport,
>)
    ensures
        transport_view(found) == first_serial(ports@, vid, pid),
{
    let mut i: usize = 0;
    assert(ports@.skip(0) =~= ports@);
    while i < ports.len()
        invariant
            i <= ports.len(),
            first_serial(ports@, vid, pid) == first_serial(ports@.skip(i as int), vid, pid),
        decreases ports.len() - i,
    {
        assert(ports@.skip(i as int).drop_first() =~= ports@.skip(i + 1));
        match ports[i].usb_ids {
            Some((v, p)) => {
                if v == vid && p == pid {
                    return Some(DeviceTransport::Serial(ports[i].name.clone()));
                }
            },
            None => {},
        }
        i += 1;
    }
    None
}

/// Picks the first HID device with the identifiers `vid` and `pid`.
pub fn select_hid(devices: &Vec<HidEntry>, vid: u16, pid: u16) -> (found: Option<DeviceTransport>)
    ensures
        transport_view(found) == first_hid(devices@, vid, pid),
{
    let mut i: usize = 0;
    assert(devices@.skip(0) =~= devices@);
    while i < devices.len()
        invariant
            i <= devices.len(),
            first_hid(devices@, vid, pid) == first_hid(devices@.skip(i as int), vid, pid),
        decreases devices.len() - i,
    {
        assert(devices@.skip(i as int).drop_first() =~= devices@.skip(i + 1));
        if devices[i].vendor_id == vid && devices[i].product_id == pid {
            return Some(DeviceTransport::Hid(devices[i].path.clone()));
        }
        i += 1;
    }
    None
}

/// The first step of the search. `ports` is what the enumeration of the
/// serial ports gave, `None` where it failed. The answer
/// [`SerialStage::ScanHid`] asks for the HID devices to be enumerated; it
/// is given exactly where the serial ports hold no match.
pub fn serial_stage(ports: &Option<Vec<SerialPortEntry>>, vid: u16, pid: u16) -> (step: SerialStage)
    ensures
        match step {
            SerialStage::Found(transport) => serial_match(ports_view(*ports), vid, pid) == Some(
                transport@,
            ),
            SerialStage::ScanHid => serial_match(ports_view(*ports), vid, pid) is None,
        },
{
    match ports {
        None => SerialStage::ScanHid,
        Some(list) => match select_serial(list, vid, pid) {
            Some(transport) => SerialStage::Found(transport),
            None => SerialStage::ScanHid,
        },
    }
}

/// The second step of the search, taken where the serial ports hold no
/// match. `devices` is what the enumeration of the HID devices gave, `None`
/// where it failed.
pub fn hid_stage(devices: &Option<Vec<HidEntry>>, vid: u16, pid: u16) -> (found: Option<
    DeviceTransport,
>)
    ensures
        transport_view(found) == hid_match(devices_view(*devices), vid, pid),
{
    match devices {
        None => None,
        Some(list) => select_hid(list, vid, pid),
    }
}

/// Locates the device among what the two enumerations gave.
pub fn find_vaultkey_device(
    serial_ports: &Option<Vec<SerialPortEntry>>,
    hid_devices: &Option<Vec<HidEntry>>,
    vid: u16,
    pid: u16,
) -> (found: Option<DeviceTransport>)
    ensures
        transport_view(found) == located(
            ports_view(*serial_ports),
            devices_view(*hid_devices),
            vid,
            pid,
        ),
{
    match serial_stage(serial_ports, vid, pid) {
        SerialStage::Found(transport) => Some(transport),
        SerialStage::ScanHid => hid_stage(hid_devices, vid, pid),
    }
}

/// What the first serial match is: where a port is picked, it has the
/// identifiers and no port before it has them; where none is picked, no
/// port has them.
pub proof fn lemma_first_serial(ports: Seq<SerialPortEntry>, vid: u16, pid: u16)
    ensures
        match first_serial(ports, vid, pid) {
            Some(found) => exists|i: int|
                0 <= i < ports.len() && #[trigger] ports[i].is_device(vid, pid) && found
                    == Transport::Serial(ports[i].name@) && forall|j: int|
                    0 <= j < i ==> !#[trigger] ports[j].is_device(vid, pid),
            None => forall|i: int| 0 <= i < ports.len() ==> !#[trigger] ports[i].is_device(vid, pid),
        },
    decreases ports.len(),
{
    if ports.len() == 0 {
    } else if ports[0].is_device(vid, pid) {
        assert(ports[0].is_device(vid, pid));
    } else {
        let rest = ports.drop_first();
        lemma_first_serial(rest, vid, pid);
        assert(forall|i: int| 0 <= i < rest.len() ==> rest[i] == ports[i + 1]);
        match first_serial(rest, vid, pid) {
            Some(found) => {
                let k = choose|i: int|
                    0 <= i < rest.len() && #[trigger] rest[i].is_device(vid, pid) && found
                        == Transport::Serial(rest[i].name@) && forall|j: int|
                        0 <= j < i ==> !#[trigger] rest[j].is_device(vid, pid);
                assert(ports[k + 1].is_device(vid, pid));
                assert forall|j: int| 0 <= j < k + 1 implies !#[trigger] ports[j].is_device(
                    vid,
                    pid,
                ) by {
                    if j > 0 {
                        assert(!rest[j - 1].is_device(vid, pid));
                    }
                }
            },
            None => {
                assert forall|i: int| 0 <= i < ports.len() implies !#[trigger] ports[i].is_device(
                    vid,
                    pid,
                ) by {
                    if i > 0 {
                        assert(!rest[i - 1].is_device(vid, pid));
                    }
                }
            },
        }
    }
}

/// What the first HID match is: where a device is picked, it has the
/// identifiers and no device before it has them; where none is picked, no
/// device has them.
pub proof fn lemma_first_hid(devices: Seq<HidEntry>, vid: u16, pid: u16)
    ensures
        match first_hid(devices, vid, pid) {
            Some(found) => exists|i: int|
                0 <= i < devices.len() && #[trigger] devices[i].is_device(vid, pid) && found
                    == Transport::Hid(devices[i].path@) && forall|j: int|
                    0 <= j < i ==> !#[trigger] devices[j].is_device(vid, pid),
            None => forall|i: int|
                0 <= i < devices.len() ==> !#[trigger] devices[i].is_device(vid, pid),
        },
    decreases devices.len(),
{
    if devices.len() == 0 {
    } else if devices[0].is_device(vid, pid) {
        assert(devices[0].is_device(vid, pid));
    } else {
        let rest = devices.drop_first();
        lemma_first_hid(rest, vid, pid);
        assert(forall|i: int| 0 <= i < rest.len() ==> rest[i] == devices[i + 1]);
        match first_hid(rest, vid, pid) {
            Some(found) => {
                let k = choose|i: int|
                    0 <= i < rest.len() && #[trigger] rest[i].is_device(vid, pid) && found
                        == Transport::Hid(rest[i].path@) && forall|j: int|
                        0 <= j < i ==> !#[trigger] rest[j].is_device(vid, pid);
                assert(devices[k + 1].is_device(vid, pid));
                assert forall|j: int| 0 <= j < k + 1 implies !#[trigger] devices[j].is_device(
                    vid,
                    pid,
                ) by {
                    if j > 0 {
                        assert(!rest[j - 1].is_device(vid, pid));
                    }
                }
            },
            None => {
                assert forall|i: int|
                    0 <= i < devices.len() implies !#[trigger] devices[i].is_device(vid, pid) by {
                    if i > 0 {
                        assert(!rest[i - 1].is_device(vid, pid));
                    }
                }
            },
        }
    }
}

/// Where exactly one serial port has the identifiers, the locator settles
/// on that port as a serial transport, whatever the HID enumeration holds
/// or would hold.
pub proof fn lemma_single_serial_is_chosen(
    ports: Seq<SerialPortEntry>,
    hid: Option<Seq<HidEntry>>,
    k: int,
    vid: u16,
    pid: u16,
)
    requires
        0 <= k < ports.len(),
        forall|i: int| 0 <= i < ports.len() ==> (#[trigger] ports[i].is_device(vid, pid) <==> i == k),
    ensures
        first_serial(ports, vid, pid) == Some(Transport::Serial(ports[k].name@)),
        located(Some(ports), hid, vid, pid) == Some(Transport::Serial(ports[k].name@)),
{
    lemma_first_serial(ports, vid, pid);
    assert(ports[k].is_device(vid, pid));
    match first_serial(ports, vid, pid) {
        Some(found) => {
            let i = choose|i: int|
                0 <= i < ports.len() && #[trigger] ports[i].is_device(vid, pid) && found
                    == Transport::Serial(ports[i].name@) && forall|j: int|
                    0 <= j < i ==> !#[trigger] ports[j].is_device(vid, pid);
            assert(i == k);
        },
        None => {},
    }
}

/// Where no serial port has the identifiers, be it that the enumeration
/// of the serial ports failed, and exactly one HID device has them, the
/// locator settles on that device as a HID transport.
pub proof fn lemma_single_hid_is_chosen(
    serial: Option<Seq<SerialPortEntry>>,
    devices: Seq<HidEntry>,
    k: int,
    vid: u16,
    pid: u16,
)
    requires
        serial is Some ==> forall|i: int|
            0 <= i < serial.unwrap().len() ==> !#[trigger] serial.unwrap()[i].is_device(vid, pid),
        0 <= k < devices.len(),
        forall|i: int|
            0 <= i < devices.len() ==> (#[trigger] devices[i].is_device(vid, pid) <==> i == k),
    ensures
        serial_match(serial, vid, pid) is None,
        located(serial, Some(devices), vid, pid) == Some(Transport::Hid(devices[k].path@)),
{
    match serial {
        Some(ports) => {
            lemma_first_serial(ports, vid, pid);
            match first_serial(ports, vid, pid) {
                Some(found) => {
                    let i = choose|i: int|
                        0 <= i < ports.len() && #[trigger] ports[i].is_device(vid, pid) && found
                            == Transport::Serial(ports[i].name@) && forall|j: int|
                            0 <= j < i ==> !#[trigger] ports[j].is_device(vid, pid);
                    assert(!ports[i].is_device(vid, pid));
                },
                None => {},
            }
        },
        None => {},
    }
    lemma_first_hid(devices, vid, pid);
    assert(devices[k].is_device(vid, pid));
    match first_hid(devices, vid, pid) {
        Some(found) => {
            let i = choose|i: int|
                0 <= i < devices.len() && #[trigger] devices[i].is_device(vid, pid) && found
                    == Transport::Hid(devices[i].path@) && forall|j: int|
                    0 <= j < i ==> !#[trigger] devices[j].is_device(vid, pid);
            assert(i == k);
        },
        None => {},
    }
}

/// Where neither enumeration holds a device with the identifiers, there is
/// no transport.
pub proof fn lemma_no_match_is_absence(
    serial: Option<Seq<SerialPortEntry>>,
    hid: Option<Seq<HidEntry>>,
    vid: u16,
    pid: u16,
)
    requires
        serial is Some ==> forall|i: int|
            0 <= i < serial.unwrap().len() ==> !#[trigger] serial.unwrap()[i].is_device(vid, pid),
        hid is Some ==> forall|i: int|
            0 <= i < hid.unwrap().len() ==> !#[trigger] hid.unwrap()[i].is_device(vid, pid),
    ensures
        located(serial, hid, vid, pid) is None,
{
    match serial {
        Some(ports) => {
            lemma_first_serial(ports, vid, pid);
            match first_serial(ports, vid, pid) {
                Some(found) => {
                    let i = choose|i: int|
                        0 <= i < ports.len() && #[trigger] ports[i].is_device(vid, pid) && found
                            == Transport::Serial(ports[i].name@) && forall|j: int|
                            0 <= j < i ==> !#[trigger] ports[j].is_device(vid, pid);
                    assert(!ports[i].is_device(vid, pid));
                },
                None => {},
            }
        },
        None => {},
    }
    match hid {
        Some(devices) => {
            lemma_first_hid(devices, vid, pid);
            match first_hid(devices, vid, pid) {
                Some(found) => {
                    let i = choose|i: int|
                        0 <= i < devices.len() && #[trigger] devices[i].is_device(vid, pid)
                            && found == Transport::Hid(devices[i].path@) && forall|j: int|
                            0 <= j < i ==> !#[trigger] devices[j].is_device(vid, pid);
                    assert(!devices[i].is_device(vid, pid));
                },
                None => {},
            }
        },
        None => {},
    }
}

} // verus!
