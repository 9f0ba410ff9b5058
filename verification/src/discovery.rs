//! Discovery of Steam Controller 2 hidraw nodes: which of the nodes that udev
//! knows are controllers, and which logical device each belongs to.
//!
//! Topology:
//! - Puck dongle `28de:1304`: USB interfaces 2..=5 are controller slots 0..=3,
//!   interface 6 is a dongle status channel (silent; skipped).
//! - Wired controller `28de:1302` / BLE `28de:1303`: all hidraw nodes of one
//!   physical device are treated as a single logical controller.
use crate::text;
use crate::text::{parse_number, push_decimal, split_once};
use vstd::prelude::*;
use vstd::string::StringExecFns;

verus! {

pub const VALVE_VENDOR: u32 = 0x28de;

pub const PID_CONTROLLER_USB: u32 = 0x1302;

pub const PID_CONTROLLER_BLE: u32 = 0x1303;

pub const PID_PUCK: u32 = 0x1304;

/// A hidraw node that belongs to a controller.
#[derive(Debug, PartialEq, Eq)]
pub struct HidrawNode {
    /// Path of the node.
    pub devnode: String,
    /// Stable logical-device key (shared by nodes that belong to the same
    /// controller), e.g. `<usb syspath>/slot0`.
    pub key: String,
    /// Human-readable label for the logical device.
    pub name: String,
}

/// The model of a node.
#[verifier::ext_equal]
pub struct NodeView {
    pub devnode: Seq<char>,
    pub key: Seq<char>,
    pub name: Seq<char>,
}

impl View for HidrawNode {
    type V = NodeView;

    open spec fn view(&self) -> NodeView {
        NodeView { devnode: self.devnode@, key: self.key@, name: self.name@ }
    }
}

impl Clone for HidrawNode {
    fn clone(&self) -> (r: Self)
        ensures
            r == *self,
    {
        HidrawNode {
            devnode: self.devnode.clone(),
            key: self.key.clone(),
            name: self.name.clone(),
        }
    }
}

/// A change among the nodes.
#[derive(Debug, PartialEq, Eq)]
pub enum Event {
    Added(HidrawNode),
    Removed(String),
}

/// The model of a change.
pub enum EventView {
    Added(NodeView),
    Removed(Seq<char>),
}

impl View for Event {
    type V = EventView;

    open spec fn view(&self) -> EventView {
        match self {
            Event::Added(node) => EventView::Added(node@),
            Event::Removed(devnode) => EventView::Removed(devnode@),
        }
    }
}

/// What udev says happened to a device.
#[derive(Debug, Clone, Copy, PartialEq, Eq, Structural)]
pub enum Uevent {
    Add,
    Change,
    Remove,
    Other,
}

/// What udev knows of the HID device above a hidraw node.
#[derive(Debug, PartialEq, Eq)]
pub struct HidParent {
    /// Property `HID_ID`: `<bus>:<vid>:<pid>`, in hexadecimal. It is present on
    /// every transport, unlike a USB ancestor.
    pub id: Option<String>,
    /// Property `HID_UNIQ`: for Bluetooth the controller's address.
    pub uniq: Option<String>,
    /// Path below `/sys`.
    pub syspath: String,
}

/// What udev knows of a hidraw node, as far as it matters.
#[derive(Debug, PartialEq, Eq)]
pub struct UdevDevice {
    /// Path of the node.
    pub devnode: Option<String>,
    /// The HID device above it.
    pub hid: Option<HidParent>,
    /// Attribute `bInterfaceNumber` of the USB interface above it.
    pub interface_number: Option<String>,
    /// Path below `/sys` of the USB device above it (absent for Bluetooth).
    pub usb_syspath: Option<String>,
}

/// The model of a HID device.
#[verifier::ext_equal]
pub struct HidParentView {
    pub id: Option<Seq<char>>,
    pub uniq: Option<Seq<char>>,
    pub syspath: Seq<char>,
}

/// The model of a hidraw node as udev knows it.
#[verifier::ext_equal]
pub struct UdevDeviceView {
    pub devnode: Option<Seq<char>>,
    pub hid: Option<HidParentView>,
    pub interface_number: Option<Seq<char>>,
    pub usb_syspath: Option<Seq<char>>,
}

/// The model of a text that may be missing.
pub open spec fn text_view(t: Option<String>) -> Option<Seq<char>> {
    match t {
        Some(s) => Some(s@),
        None => None,
    }
}

impl View for HidParent {
    type V = HidParentView;

    open spec fn view(&self) -> HidParentView {
        HidParentView {
            id: text_view(self.id),
            uniq: text_view(self.uniq),
            syspath: self.syspath@,
        }
    }
}

impl View for UdevDevice {
    type V = UdevDeviceView;

    open spec fn view(&self) -> UdevDeviceView {
        UdevDeviceView {
            devnode: text_view(self.devnode),
            hid: match self.hid {
                Some(hid) => Some(hid@),
                None => None,
            },
            interface_number: text_view(self.interface_number),
            usb_syspath: text_view(self.usb_syspath),
        }
    }
}

/// The vendor and product that a `HID_ID` names.
pub open spec fn hid_ids(id: Seq<char>) -> Option<(int, int)> {
    match text::split_at_first(id, ':') {
        Some((_, rest)) => match text::split_at_first(rest, ':') {
            Some((vendor, product)) => match (
                text::number_of(vendor, 16, u32::MAX as int),
                text::number_of(product, 16, u32::MAX as int),
            ) {
                (Some(v), Some(p)) => Some((v, p)),
                _ => None,
            },
            None => None,
        },
        None => None,
    }
}

/// The controller slot of a puck's USB interface.
pub open spec fn puck_slot(interface_number: Option<Seq<char>>) -> Option<int> {
    match interface_number {
        Some(number) => match text::number_of(number, 10, 255) {
            Some(n) => if 2 <= n <= 5 {
                Some(n - 2)
            } else {
                None
            },
            None => None,
        },
        None => None,
    }
}

/// Key of a puck's slot.
pub open spec fn slot_key(usb_syspath: Seq<char>, slot: int) -> Seq<char> {
    usb_syspath + "/slot"@ + text::decimal(slot as nat)
}

/// Label of a puck's slot.
pub open spec fn slot_name(slot: int) -> Seq<char> {
    "Steam Controller (puck slot "@ + text::decimal(slot as nat) + ")"@
}

/// Key of a Bluetooth controller: its address, which is stable across
/// reconnects, or the HID device's path where the address is missing.
pub open spec fn ble_key(hid: HidParentView) -> Seq<char> {
    if hid.uniq is Some && hid.uniq->0.len() > 0 {
        "ble/"@ + hid.uniq->0
    } else {
        hid.syspath
    }
}

/// The key and label of a controller's node.
pub open spec fn identity_of(d: UdevDeviceView, product: int) -> Option<(Seq<char>, Seq<char>)> {
    if product == PID_PUCK {
        match (puck_slot(d.interface_number), d.usb_syspath) {
            (Some(slot), Some(path)) => Some((slot_key(path, slot), slot_name(slot))),
            _ => None,
        }
    } else if product == PID_CONTROLLER_USB {
        match d.usb_syspath {
            Some(path) => Some((path, "Steam Controller (USB)"@)),
            None => None,
        }
    } else if product == PID_CONTROLLER_BLE {
        Some((ble_key(d.hid->0), "Steam Controller (Bluetooth)"@))
    } else {
        None
    }
}

/// The node that a udev device is; `None` for what is no controller and for
/// the puck's status interface.
pub open spec fn node_of(d: UdevDeviceView) -> Option<NodeView> {
    if d.devnode is None || d.hid is None || d.hid->0.id is None {
        None
    } else {
        match hid_ids(d.hid->0.id->0) {
            Some((vendor, product)) => if vendor == VALVE_VENDOR {
                match identity_of(d, product) {
                    Some((key, name)) => Some(NodeView { devnode: d.devnode->0, key, name }),
                    None => None,
                }
            } else {
                None
            },
            None => None,
        }
    }
}

/// Reads a `HID_ID`.
fn parse_hid_id(id: &str) -> (r: Option<(u32, u32)>)
    ensures
        match r {
            Some((vendor, product)) => hid_ids(id@) == Some((vendor as int, product as int)),
            None => hid_ids(id@) is None,
        },
{
    let (_bus, rest) = match split_once(id, ':') {
        Some(parts) => parts,
        None => return None,
    };
    let (vendor, product) = match split_once(rest, ':') {
        Some(parts) => parts,
        None => return None,
    };
    match (parse_number(vendor, 16, u32::MAX), parse_number(product, 16, u32::MAX)) {
        (Some(v), Some(p)) => Some((v, p)),
        _ => None,
    }
}

/// The slot of a puck's interface.
fn parse_slot(interface_number: &Option<String>) -> (r: Option<u32>)
    ensures
        match r {
            Some(slot) => puck_slot(text_view(*interface_number)) == Some(slot as int) && slot <= 3,
            None => puck_slot(text_view(*interface_number)) is None,
        },
{
    match interface_number {
        Some(number) => {
            let n: u32 = match parse_number(number.as_str(), 10, 255) {
                Some(n) => n,
                None => return None,
            };
            // Interfaces 2..=5 are controller slots 0..=3; 6 is dongle status.
            match n.checked_sub(2) {
                Some(slot) if slot <= 3 => Some(slot),
                _ => None,
            }
        },
        None => None,
    }
}

/// Classify a udev hidraw device; returns `None` for what is no Steam
/// Controller 2 and for the puck's status interface.
pub fn classify(device: &UdevDevice) -> (r: Option<HidrawNode>)
    ensures
        match r {
            Some(node) => node_of(device@) == Some(node@),
            None => node_of(device@) is None,
        },
{
    let (devnode, hid) = match (&device.devnode, &device.hid) {
        (Some(devnode), Some(hid)) => (devnode, hid),
        _ => return None,
    };
    let (vendor, product) = match &hid.id {
        Some(id) => match parse_hid_id(id.as_str()) {
            Some(ids) => ids,
            None => return None,
        },
        None => return None,
    };
    if vendor != VALVE_VENDOR {
        return None;
    }
    if product == PID_PUCK {
        match (parse_slot(&device.interface_number), &device.usb_syspath) {
            (Some(slot), Some(path)) => {
                let mut key: String = path.clone();
                key.append("/slot");
                push_decimal(&mut key, slot as u64);
                let mut name: String = "Steam Controller (puck slot ".to_owned();
                push_decimal(&mut name, slot as u64);
                name.append(")");
                Some(HidrawNode { devnode: devnode.clone(), key, name })
            },
            _ => None,
        }
    } else if product == PID_CONTROLLER_USB {
        match &device.usb_syspath {
            Some(path) => Some(
                HidrawNode {
                    devnode: devnode.clone(),
                    key: path.clone(),
                    name: "Steam Controller (USB)".to_owned(),
                },
            ),
            None => None,
        }
    } else if product == PID_CONTROLLER_BLE {
        let key: String = match &hid.uniq {
            Some(uniq) if !uniq.as_str().is_empty() => {
                let mut key: String = "ble/".to_owned();
                key.append(uniq.as_str());
                key
            },
            _ => hid.syspath.clone(),
        };
        Some(
            HidrawNode {
                devnode: devnode.clone(),
                key,
                name: "Steam Controller (Bluetooth)".to_owned(),
            },
        )
    } else {
        None
    }
}

/// The models of a list of nodes.
pub open spec fn node_views(nodes: Seq<HidrawNode>) -> Seq<NodeView> {
    Seq::new(nodes.len(), |i: int| nodes[i]@)
}

/// The models of a list of udev devices.
pub open spec fn device_views(devices: Seq<UdevDevice>) -> Seq<UdevDeviceView> {
    Seq::new(devices.len(), |i: int| devices[i]@)
}

/// The controllers' nodes among the hidraw nodes that are present.
pub fn scan(devices: &Vec<UdevDevice>) -> (r: Vec<HidrawNode>)
    ensures
        node_views(r@) == device_views(devices@).filter_map(|d: UdevDeviceView| node_of(d)),
{
    let ghost all = device_views(devices@);
    let ghost f = |d: UdevDeviceView| node_of(d);
    let mut nodes: Vec<HidrawNode> = Vec::new();
    let mut i: usize = 0;
    assert(all.take(0) =~= Seq::<UdevDeviceView>::empty());
    assert(node_views(nodes@) =~= all.take(0).filter_map(f)) by {
        reveal(Seq::filter_map);
    }
    while i < devices.len()
        invariant
            i <= devices@.len(),
            all == device_views(devices@),
            f == (|d: UdevDeviceView| node_of(d)),
            node_views(nodes@) == all.take(i as int).filter_map(f),
        decreases devices@.len() - i,
    {
        let ghost before = nodes@;
        let found = classify(&devices[i]);
        proof {
            all.lemma_filter_map_take_succ(f, i as int);
            assert(all[i as int] == devices@[i as int]@);
        }
        match found {
            Some(node) => {
                nodes.push(node);
                assert(node_views(nodes@) =~= node_views(before).push(node@));
                assert(node_views(nodes@) =~= all.take(i + 1).filter_map(f));
            },
            None => {
                assert(node_views(nodes@) =~= all.take(i + 1).filter_map(f));
            },
        }
        i = i + 1;
    }
    assert(all.take(devices@.len() as int) =~= all);
    nodes
}

/// What a udev event means. A `Change` counts as an `Add`, so that a node that
/// failed to open can recover on it.
pub open spec fn event_of(kind: Uevent, d: UdevDeviceView) -> Option<EventView> {
    match kind {
        Uevent::Add | Uevent::Change => match node_of(d) {
            Some(node) => Some(EventView::Added(node)),
            None => None,
        },
        Uevent::Remove => match d.devnode {
            Some(devnode) => Some(EventView::Removed(devnode)),
            None => None,
        },
        Uevent::Other => None,
    }
}

/// Turns a udev event into a change among the nodes; `None` where it concerns
/// no controller.
pub fn interpret(kind: Uevent, device: &UdevDevice) -> (r: Option<Event>)
    ensures
        match r {
            Some(event) => event_of(kind, device@) == Some(event@),
            None => event_of(kind, device@) is None,
        },
{
    match kind {
        Uevent::Add | Uevent::Change => match classify(device) {
            Some(node) => Some(Event::Added(node)),
            None => None,
        },
        Uevent::Remove => match &device.devnode {
            Some(devnode) => Some(Event::Removed(devnode.clone())),
            None => None,
        },
        Uevent::Other => None,
    }
}

/// A device is a node of a Steam Controller 2 by its product.
pub open spec fn is_product(d: UdevDeviceView, product: u32) -> bool {
    d.devnode is Some && d.hid is Some && d.hid->0.id is Some && hid_ids(d.hid->0.id->0) == Some(
        (VALVE_VENDOR as int, product as int),
    )
}

proof fn slot_keys_differ(p: Seq<char>, a: int, q: Seq<char>, b: int)
    requires
        0 <= a <= 3,
        0 <= b <= 3,
        slot_key(p, a) == slot_key(q, b),
    ensures
        p == q,
        a == b,
{
    let x = slot_key(p, a);
    let y = slot_key(q, b);
    assert(text::decimal(a as nat).len() == 1 && text::decimal(b as nat).len() == 1);
    assert(x.len() == p.len() + "/slot"@.len() + 1);
    assert(y.len() == q.len() + "/slot"@.len() + 1);
    assert(x.take(p.len() as int) =~= p);
    assert(y.take(q.len() as int) =~= q);
    assert(x.skip((p + "/slot"@).len() as int) =~= text::decimal(a as nat));
    assert(y.skip((q + "/slot"@).len() as int) =~= text::decimal(b as nat));
    text::decimal_injective(a as nat, b as nat);
}

/// Two nodes of pucks belong to the same controller if and only if they are of
/// the same puck and the same slot.
pub proof fn slots_have_their_own_keys(a: UdevDeviceView, b: UdevDeviceView)
    requires
        is_product(a, PID_PUCK),
        is_product(b, PID_PUCK),
        node_of(a) is Some,
        node_of(b) is Some,
    ensures
        node_of(a)->0.key == node_of(b)->0.key <==> a.usb_syspath == b.usb_syspath && puck_slot(
            a.interface_number,
        ) == puck_slot(b.interface_number),
{
    if node_of(a)->0.key == node_of(b)->0.key {
        slot_keys_differ(
            a.usb_syspath->0,
            puck_slot(a.interface_number)->0,
            b.usb_syspath->0,
            puck_slot(b.interface_number)->0,
        );
    }
}

/// Two nodes of wired controllers share a key if and only if they are of the
/// same USB device.
pub proof fn wired_nodes_share_a_key(a: UdevDeviceView, b: UdevDeviceView)
    requires
        is_product(a, PID_CONTROLLER_USB),
        is_product(b, PID_CONTROLLER_USB),
        a.usb_syspath is Some,
        b.usb_syspath is Some,
    ensures
        node_of(a) is Some,
        node_of(b) is Some,
        node_of(a)->0.key == node_of(b)->0.key <==> a.usb_syspath == b.usb_syspath,
{
}

/// Two nodes of Bluetooth controllers with an address share a key if and only
/// if they have the same address, however often it reconnects under another
/// path.
pub proof fn bluetooth_nodes_share_a_key(a: UdevDeviceView, b: UdevDeviceView)
    requires
        is_product(a, PID_CONTROLLER_BLE),
        is_product(b, PID_CONTROLLER_BLE),
        a.hid->0.uniq is Some,
        a.hid->0.uniq->0.len() > 0,
        b.hid->0.uniq is Some,
        b.hid->0.uniq->0.len() > 0,
    ensures
        node_of(a) is Some,
        node_of(b) is Some,
        node_of(a)->0.key == node_of(b)->0.key <==> a.hid->0.uniq == b.hid->0.uniq,
{
    let head = "ble/"@;
    let x = a.hid->0.uniq->0;
    let y = b.hid->0.uniq->0;
    assert((head + x).skip(head.len() as int) =~= x);
    assert((head + y).skip(head.len() as int) =~= y);
}

/// Of a puck the interfaces 2 to 5 are controllers, and no others: not the
/// status interface either.
pub proof fn puck_interfaces(d: UdevDeviceView, number: Seq<char>, n: int)
    requires
        is_product(d, PID_PUCK),
        d.usb_syspath is Some,
        d.interface_number == Some(number),
        text::number_of(number, 10, 255) == Some(n),
    ensures
        node_of(d) is Some <==> 2 <= n <= 5,
        2 <= n <= 5 ==> node_of(d)->0.key == slot_key(d.usb_syspath->0, n - 2),
{
}

/// Nodes of other vendors are never controllers.
pub proof fn other_vendors_are_ignored(d: UdevDeviceView)
    requires
        d.hid is Some,
        d.hid->0.id is Some,
        hid_ids(d.hid->0.id->0) matches Some((vendor, _)) && vendor != VALVE_VENDOR,
    ensures
        node_of(d) is None,
{
}

/// A `HID_ID` of three parts names the vendor by the second and the product by
/// the third, in hexadecimal; one of fewer parts names nothing.
pub proof fn hid_ids_name_vendor_and_product(
    bus: Seq<char>,
    vendor: Seq<char>,
    product: Seq<char>,
)
    requires
        !bus.contains(':'),
        !vendor.contains(':'),
    ensures
        hid_ids(bus) is None,
        hid_ids(bus.push(':') + vendor) is None,
        hid_ids(bus.push(':') + (vendor.push(':') + product)) == match (
            text::number_of(vendor, 16, 0xffff_ffff),
            text::number_of(product, 16, 0xffff_ffff),
        ) {
            (Some(v), Some(p)) => Some((v, p)),
            _ => None,
        },
{
    text::texts_are_cut_at_the_first(bus, ':', vendor);
    text::texts_are_cut_at_the_first(bus, ':', vendor.push(':') + product);
    text::texts_are_cut_at_the_first(vendor, ':', product);
}

/// Of Valve's devices those with the product 0x1302 (wired), 0x1303 (Bluetooth)
/// and 0x1304 (puck) are controllers, and nothing else is: a wired one if its
/// USB device is known, one on a puck if that and one of the interfaces 2 to 5
/// is, a Bluetooth one in any case.
pub proof fn three_products_are_controllers(d: UdevDeviceView)
    ensures
        node_of(d) is Some <==> (d.devnode is Some && (d.hid matches Some(hid) && (hid.id
            matches Some(id) && (hid_ids(id) matches Some((vendor, product)) && vendor == 0x28de
            && {
            ||| product == 0x1303
            ||| product == 0x1302 && d.usb_syspath is Some
            ||| product == 0x1304 && d.usb_syspath is Some && (d.interface_number matches Some(
                number,
            ) && (text::number_of(number, 10, 255) matches Some(n) && 2 <= n <= 5))
        })))),
{
}

/// A controller's node is known by its own path; its key and its label say
/// which controller it is: a wired one by its USB device, a Bluetooth one by
/// its address or, without one, by the path of its HID device, one on a puck by
/// the puck and the slot.
pub proof fn nodes_are_named_by_their_transport(d: UdevDeviceView, vendor: int, product: int)
    requires
        node_of(d) is Some,
        hid_ids(d.hid->0.id->0) == Some((vendor, product)),
    ensures
        ({
            let node = node_of(d)->0;
            &&& Some(node.devnode) == d.devnode
            &&& product == 0x1302 ==> Some(node.key) == d.usb_syspath && node.name
                == "Steam Controller (USB)"@
            &&& product == 0x1303 ==> node.name == "Steam Controller (Bluetooth)"@
            &&& product == 0x1303 ==> match d.hid->0.uniq {
                Some(uniq) => if uniq.len() > 0 {
                    node.key == "ble/"@ + uniq
                } else {
                    node.key == d.hid->0.syspath
                },
                None => node.key == d.hid->0.syspath,
            }
            &&& product == 0x1304 ==> {
                let path = d.usb_syspath->0;
                let n = text::number_of(d.interface_number->0, 10, 255)->0;
                &&& 2 <= n <= 5
                &&& n == 2 ==> node.key == path + "/slot0"@ && node.name
                    == "Steam Controller (puck slot 0)"@
                &&& n == 3 ==> node.key == path + "/slot1"@ && node.name
                    == "Steam Controller (puck slot 1)"@
                &&& n == 4 ==> node.key == path + "/slot2"@ && node.name
                    == "Steam Controller (puck slot 2)"@
                &&& n == 5 ==> node.key == path + "/slot3"@ && node.name
                    == "Steam Controller (puck slot 3)"@
            }
        }),
{
    if product == PID_PUCK {
        let path = d.usb_syspath->0;
        let n = text::number_of(d.interface_number->0, 10, 255)->0;
        reveal_strlit("/slot");
        reveal_strlit("/slot0");
        reveal_strlit("/slot1");
        reveal_strlit("/slot2");
        reveal_strlit("/slot3");
        reveal_strlit("Steam Controller (puck slot ");
        reveal_strlit(")");
        reveal_strlit("Steam Controller (puck slot 0)");
        reveal_strlit("Steam Controller (puck slot 1)");
        reveal_strlit("Steam Controller (puck slot 2)");
        reveal_strlit("Steam Controller (puck slot 3)");
        assert(text::decimal((n - 2) as nat) =~= seq![('0' as int + (n - 2)) as char]);
        if n == 2 {
            assert(slot_key(path, 0) =~= path + "/slot0"@);
            assert(slot_name(0) =~= "Steam Controller (puck slot 0)"@);
        } else if n == 3 {
            assert(slot_key(path, 1) =~= path + "/slot1"@);
            assert(slot_name(1) =~= "Steam Controller (puck slot 1)"@);
        } else if n == 4 {
            assert(slot_key(path, 2) =~= path + "/slot2"@);
            assert(slot_name(2) =~= "Steam Controller (puck slot 2)"@);
        } else {
            assert(slot_key(path, 3) =~= path + "/slot3"@);
            assert(slot_name(3) =~= "Steam Controller (puck slot 3)"@);
        }
    }
}

/// Whatever the transport, a device that is a controller's node is added by an
/// `Add` and by a `Change`, and one that is not by neither. A `Remove` removes
/// the node of any device that has one; other events mean nothing.
pub proof fn events_follow_the_classification(d: UdevDeviceView)
    ensures
        node_of(d) matches Some(node) ==> event_of(Uevent::Add, d) == Some(EventView::Added(node))
            && event_of(Uevent::Change, d) == Some(EventView::Added(node)),
        node_of(d) is None ==> event_of(Uevent::Add, d) is None && event_of(
            Uevent::Change,
            d,
        ) is None,
        d.devnode matches Some(devnode) ==> event_of(Uevent::Remove, d) == Some(
            EventView::Removed(devnode),
        ),
        d.devnode is None ==> event_of(Uevent::Remove, d) is None,
        event_of(Uevent::Other, d) is None,
{
}

/// Every Bluetooth controller is picked up when it connects, though it has no
/// USB device above it; every wired one and every slot of a puck that has one.
pub proof fn every_transport_is_picked_up(d: UdevDeviceView, number: Seq<char>)
    requires
        d.devnode is Some,
        d.hid is Some,
        d.hid->0.id is Some,
    ensures
        ({
            let ids = hid_ids(d.hid->0.id->0);
            let added = |kind: Uevent|
                event_of(kind, d) matches Some(EventView::Added(node)) && Some(node.devnode)
                    == d.devnode;
            &&& ids == Some((0x28deint, 0x1303int)) ==> added(Uevent::Add) && added(Uevent::Change)
            &&& ids == Some((0x28deint, 0x1302int)) && d.usb_syspath is Some ==> added(Uevent::Add)
                && added(Uevent::Change)
            &&& ids == Some((0x28deint, 0x1304int)) && d.usb_syspath is Some && d.interface_number
                == Some(number) && (text::number_of(number, 10, 255) matches Some(n) && 2 <= n <= 5)
                ==> added(Uevent::Add) && added(Uevent::Change)
        }),
{
}

/// A scan finds every controller's node among the devices, in their order, and
/// nothing else.
pub proof fn scan_finds_every_controller(devices: Seq<UdevDeviceView>, nodes: Seq<NodeView>)
    requires
        nodes == devices.filter_map(|d: UdevDeviceView| node_of(d)),
    ensures
        forall|i: int|
            0 <= i < devices.len() && node_of(#[trigger] devices[i]) is Some ==> nodes.contains(
                node_of(devices[i])->0,
            ),
        forall|j: int|
            0 <= j < nodes.len() ==> exists|i: int|
                0 <= i < devices.len() && node_of(#[trigger] devices[i]) == Some(
                    #[trigger] nodes[j],
                ),
    decreases devices.len(),
{
    let f = |d: UdevDeviceView| node_of(d);
    if devices.len() > 0 {
        let shorter = devices.drop_last();
        let before = shorter.filter_map(f);
        let k = devices.len() - 1;
        devices.lemma_filter_map_take_succ(f, k);
        assert(devices.take(k) =~= shorter);
        assert(devices.take(k + 1) =~= devices);
        scan_finds_every_controller(shorter, before);
        assert forall|i: int|
            0 <= i < devices.len() && node_of(
                #[trigger] devices[i],
            ) is Some implies nodes.contains(node_of(devices[i])->0) by {
            if i < k {
                assert(shorter[i] == devices[i]);
                let j = choose|j: int| 0 <= j < before.len() && before[j] == node_of(shorter[i])->0;
                assert(nodes[j] == before[j]);
            } else {
                assert(nodes[before.len() as int] == node_of(devices[k])->0);
            }
        }
        assert forall|j: int| 0 <= j < nodes.len() implies exists|i: int|
            0 <= i < devices.len() && node_of(#[trigger] devices[i]) == Some(
                #[trigger] nodes[j],
            ) by {
            if j < before.len() {
                let i = choose|i: int|
                    0 <= i < shorter.len() && node_of(#[trigger] shorter[i]) == Some(before[j]);
                assert(devices[i] == shorter[i]);
                assert(nodes[j] == before[j]);
            } else {
                assert(node_of(devices[k]) == Some(nodes[j]));
            }
        }
    } else {
        reveal(Seq::filter_map);
    }
}

/// The models of a node, of a change and of a udev device show all that these
/// hold.
pub proof fn node_model_is_faithful(node: HidrawNode, event: Event, d: UdevDevice, h: HidParent)
    ensures
        node@.devnode == node.devnode@,
        node@.key == node.key@,
        node@.name == node.name@,
        event matches Event::Added(n) ==> event@ == EventView::Added(n@),
        event matches Event::Removed(p) ==> event@ == EventView::Removed(p@),
        d.devnode is None <==> d@.devnode is None,
        d.devnode matches Some(t) ==> d@.devnode == Some(t@),
        d.hid is None <==> d@.hid is None,
        d.hid matches Some(hid) ==> d@.hid == Some(hid@),
        d.interface_number is None <==> d@.interface_number is None,
        d.interface_number matches Some(t) ==> d@.interface_number == Some(t@),
        d.usb_syspath is None <==> d@.usb_syspath is None,
        d.usb_syspath matches Some(t) ==> d@.usb_syspath == Some(t@),
        h.id is None <==> h@.id is None,
        h.id matches Some(t) ==> h@.id == Some(t@),
        h.uniq is None <==> h@.uniq is None,
        h.uniq matches Some(t) ==> h@.uniq == Some(t@),
        h@.syspath == h.syspath@,
{
}

/// The models of lists of nodes and of devices hold the model of each, in their
/// order.
pub proof fn node_lists_are_faithful(nodes: Seq<HidrawNode>, devices: Seq<UdevDevice>)
    ensures
        node_views(nodes).len() == nodes.len(),
        forall|i: int| 0 <= i < nodes.len() ==> #[trigger] node_views(nodes)[i] == nodes[i]@,
        device_views(devices).len() == devices.len(),
        forall|i: int|
            0 <= i < devices.len() ==> #[trigger] device_views(devices)[i] == devices[i]@,
{
}

} // verus!
