//! The daemon's side of the session service: what each device object shows,
//! under which path, and what changes from one snapshot to the next.
//!
//! The root object lists the paths of the device objects; one `devN` object
//! per logical controller carries its telemetry as properties.
use crate::interface::{PropertyValue, PropertyView, LEVEL_UNKNOWN, ROOT_PATH};
use crate::protocol::BatteryStatus;
use crate::state::{DeviceSnapshot, SnapshotView};
use crate::text;
use crate::text::push_decimal;
use vstd::prelude::*;
use vstd::string::StringExecFns;
use zbus::zvariant::OwnedObjectPath;

verus! {

/// Whole seconds from the Unix epoch to the last published change; 0 for one
/// that never was or that lies before the epoch.
pub open spec fn updated_secs(snap: SnapshotView) -> u64 {
    match snap.last_updated {
        Some(t) => if t.secs >= 0 {
            t.secs as u64
        } else {
            0
        },
        None => 0,
    }
}

/// Whole seconds from the Unix epoch to the last published change.
pub fn last_updated_secs(snap: &DeviceSnapshot) -> (r: u64)
    ensures
        r == updated_secs(snap@),
{
    match snap.last_updated {
        Some(t) => if t.secs >= 0 {
            t.secs as u64
        } else {
            0
        },
        None => 0,
    }
}

/// What a device object shows of the battery.
pub struct Readings {
    pub charge_state: u8,
    pub level: u8,
    pub battery_voltage: u16,
    pub system_voltage: u16,
    pub input_voltage: u16,
    pub current: u16,
    pub input_current: u16,
    pub temperature: u16,
}

/// The level shown: a percentage, whatever byte was reported.
pub open spec fn shown_level(level: u8) -> u8 {
    if level <= 100 {
        level
    } else {
        100
    }
}

/// The readings shown: all 0 before the first report, but for the level, which
/// is then unknown.
pub open spec fn readings_of(battery: Option<BatteryStatus>) -> Readings {
    match battery {
        Some(b) => Readings {
            charge_state: b.charge_state.code(),
            level: shown_level(b.level),
            battery_voltage: b.battery_voltage,
            system_voltage: b.system_voltage,
            input_voltage: b.input_voltage,
            current: b.current,
            input_current: b.input_current,
            temperature: b.temperature,
        },
        None => Readings {
            charge_state: 0,
            level: LEVEL_UNKNOWN,
            battery_voltage: 0,
            system_voltage: 0,
            input_voltage: 0,
            current: 0,
            input_current: 0,
            temperature: 0,
        },
    }
}

/// A device object: it shows the snapshot that it holds.
#[derive(Debug, PartialEq, Eq)]
pub struct Device {
    pub snapshot: DeviceSnapshot,
}

impl Device {
    /// The battery report that is shown.
    pub fn battery(&self) -> (r: Option<&BatteryStatus>)
        ensures
            match r {
                Some(b) => self.snapshot.battery == Some(*b),
                None => self.snapshot.battery is None,
            },
    {
        self.snapshot.battery.as_ref()
    }

    /// Property `Name`.
    pub fn name(&self) -> (r: &str)
        ensures
            r@ == self.snapshot.name@,
    {
        self.snapshot.name.as_str()
    }

    /// Property `Connected`: controller traffic seen within the staleness
    /// window.
    pub fn connected(&self) -> (r: bool)
        ensures
            r == self.snapshot.connected,
    {
        self.snapshot.connected
    }

    /// Property `ChargeState`: 0 until the first battery report.
    pub fn charge_state(&self) -> (r: u8)
        ensures
            r == readings_of(self.snapshot.battery).charge_state,
    {
        match self.battery() {
            Some(b) => b.charge_state.as_u8(),
            None => 0,
        }
    }

    /// Property `BatteryLevel`: 0..=100, or 255 when no battery report has been
    /// received yet.
    pub fn battery_level(&self) -> (r: u8)
        ensures
            r == readings_of(self.snapshot.battery).level,
            r <= 100 || r == LEVEL_UNKNOWN,
            r == LEVEL_UNKNOWN <==> self.snapshot.battery is None,
    {
        match self.battery() {
            Some(b) => if b.level <= 100 {
                b.level
            } else {
                100
            },
            None => LEVEL_UNKNOWN,
        }
    }

    /// Property `BatteryVoltage`, in mV.
    pub fn battery_voltage(&self) -> (r: u16)
        ensures
            r == readings_of(self.snapshot.battery).battery_voltage,
    {
        match self.battery() {
            Some(b) => b.battery_voltage,
            None => 0,
        }
    }

    /// Property `SystemVoltage`, in mV.
    pub fn system_voltage(&self) -> (r: u16)
        ensures
            r == readings_of(self.snapshot.battery).system_voltage,
    {
        match self.battery() {
            Some(b) => b.system_voltage,
            None => 0,
        }
    }

    /// Property `InputVoltage`, in mV (~5100 while on USB power, 0 unplugged).
    pub fn input_voltage(&self) -> (r: u16)
        ensures
            r == readings_of(self.snapshot.battery).input_voltage,
    {
        match self.battery() {
            Some(b) => b.input_voltage,
            None => 0,
        }
    }

    /// Property `Current`, in mA.
    pub fn current(&self) -> (r: u16)
        ensures
            r == readings_of(self.snapshot.battery).current,
    {
        match self.battery() {
            Some(b) => b.current,
            None => 0,
        }
    }

    /// Property `InputCurrent`, in mA.
    pub fn input_current(&self) -> (r: u16)
        ensures
            r == readings_of(self.snapshot.battery).input_current,
    {
        match self.battery() {
            Some(b) => b.input_current,
            None => 0,
        }
    }

    /// Property `Temperature`, in milli-degrees Celsius.
    pub fn temperature(&self) -> (r: u16)
        ensures
            r == readings_of(self.snapshot.battery).temperature,
    {
        match self.battery() {
            Some(b) => b.temperature,
            None => 0,
        }
    }

    /// Property `LastUpdated`: Unix seconds of the last *published* battery
    /// change, or of the moment at which the device was found silent; 0 =
    /// never.
    pub fn last_updated(&self) -> (r: u64)
        ensures
            r == updated_secs(self.snapshot@),
    {
        last_updated_secs(&self.snapshot)
    }
}

/// A property: its name and its value.
pub type Property = (Seq<char>, PropertyView);

/// Every property of a device object.
pub open spec fn props_of(snap: SnapshotView) -> Seq<Property> {
    let r = readings_of(snap.battery);
    seq![
        ("Name"@, PropertyView::Text(snap.name)),
        ("Connected"@, PropertyView::Flag(snap.connected)),
        ("ChargeState"@, PropertyView::Byte(r.charge_state)),
        ("BatteryLevel"@, PropertyView::Byte(r.level)),
        ("BatteryVoltage"@, PropertyView::Uint16(r.battery_voltage)),
        ("SystemVoltage"@, PropertyView::Uint16(r.system_voltage)),
        ("InputVoltage"@, PropertyView::Uint16(r.input_voltage)),
        ("Current"@, PropertyView::Uint16(r.current)),
        ("InputCurrent"@, PropertyView::Uint16(r.input_current)),
        ("Temperature"@, PropertyView::Uint16(r.temperature)),
        ("LastUpdated"@, PropertyView::Uint64(updated_secs(snap))),
    ]
}

/// The models of a list of properties.
pub open spec fn property_views(props: Seq<(&'static str, PropertyValue)>) -> Seq<Property> {
    Seq::new(props.len(), |i: int| (props[i].0@, props[i].1@))
}

/// Every property of a device object.
pub fn device_props(snap: &DeviceSnapshot) -> (r: Vec<(&'static str, PropertyValue)>)
    ensures
        property_views(r@) == props_of(snap@),
{
    let device = Device { snapshot: snap.clone() };
    let mut props: Vec<(&'static str, PropertyValue)> = Vec::new();
    props.push(("Name", PropertyValue::Text(snap.name.clone())));
    props.push(("Connected", PropertyValue::Flag(device.connected())));
    props.push(("ChargeState", PropertyValue::Byte(device.charge_state())));
    props.push(("BatteryLevel", PropertyValue::Byte(device.battery_level())));
    props.push(("BatteryVoltage", PropertyValue::Uint16(device.battery_voltage())));
    props.push(("SystemVoltage", PropertyValue::Uint16(device.system_voltage())));
    props.push(("InputVoltage", PropertyValue::Uint16(device.input_voltage())));
    props.push(("Current", PropertyValue::Uint16(device.current())));
    props.push(("InputCurrent", PropertyValue::Uint16(device.input_current())));
    props.push(("Temperature", PropertyValue::Uint16(device.temperature())));
    props.push(("LastUpdated", PropertyValue::Uint64(device.last_updated())));
    assert(property_views(props@) =~= props_of(snap@));
    props
}

/// The first `n` properties of `new`, without those that have the value they
/// have in `old`.
pub open spec fn differing(old: Seq<Property>, new: Seq<Property>, n: nat) -> Seq<Property>
    decreases n,
{
    if n == 0 {
        seq![]
    } else {
        let before = differing(old, new, (n - 1) as nat);
        if new[n - 1].1 != old[n - 1].1 {
            before.push(new[n - 1])
        } else {
            before
        }
    }
}

/// The properties that a new snapshot changes, with their new values.
pub open spec fn changes_between(old: SnapshotView, new: SnapshotView) -> Seq<Property> {
    differing(props_of(old), props_of(new), props_of(new).len())
}

/// The properties whose values differ between `old` and `new`, with their new
/// values: what one `PropertiesChanged` signal carries. Where there are none
/// no signal is sent.
pub fn changed_props(old: &DeviceSnapshot, new: &DeviceSnapshot) -> (r: Vec<
    (&'static str, PropertyValue),
>)
    ensures
        property_views(r@) == changes_between(old@, new@),
{
    let before = device_props(old);
    let mut after = device_props(new);
    let ghost was = property_views(before@);
    let ghost all = property_views(after@);
    let mut i: usize = 0;
    assert(was.len() == 11 && all.len() == 11);
    let mut j: usize = 0;
    while j < before.len()
        invariant
            was == property_views(before@),
            was.len() == 11,
            all.len() == 11,
            after@.len() <= 11,
            j <= before@.len(),
            i <= after@.len(),
            after@.len() - i == all.len() - j,
            property_views(after@).take(i as int) =~= differing(was, all, j as nat),
            property_views(after@).skip(i as int) =~= all.skip(j as int),
        decreases before@.len() - j,
    {
        let ghost now = property_views(after@);
        assert(now.skip(i as int)[0] == all.skip(j as int)[0]);
        assert(now[i as int] == all[j as int]);
        assert(was[j as int].1 == before@[j as int].1@);
        if after[i].1.same_as(&before[j].1) {
            after.remove(i);
            assert(property_views(after@) =~= now.remove(i as int));
            assert(property_views(after@).take(i as int) =~= now.take(i as int));
            assert(property_views(after@).skip(i as int) =~= now.skip(i as int).skip(1));
        } else {
            i = i + 1;
            assert(now.take(i as int) =~= now.take(i - 1).push(now[i - 1]));
            assert(now.skip(i as int) =~= now.skip(i - 1).skip(1));
        }
        assert(all.skip(j as int).skip(1) =~= all.skip(j + 1));
        j = j + 1;
    }
    assert(property_views(after@).take(i as int) =~= property_views(after@));
    after
}

/// A character that an element of an object path may hold.
pub open spec fn is_path_char(c: char) -> bool {
    ('a' <= c && c <= 'z') || ('A' <= c && c <= 'Z') || ('0' <= c && c <= '9') || c == '_'
}

/// A D-Bus object path: elements of at least one character, each after a
/// slash; or a slash alone.
pub open spec fn is_object_path(s: Seq<char>) -> bool {
    &&& s.len() > 0
    &&& s[0] == '/'
    &&& s.len() > 1 ==> s.last() != '/'
    &&& forall|i: int| 0 <= i < s.len() ==> is_path_char(#[trigger] s[i]) || s[i] == '/'
    &&& forall|i: int, j: int|
        0 <= i < s.len() && j == i + 1 && j < s.len() ==> !(#[trigger] s[i] == '/'
            && #[trigger] s[j] == '/')
}

#[verifier::external_type_specification]
#[verifier::external_body]
pub struct ExOwnedObjectPath(OwnedObjectPath);

#[verifier::external_type_specification]
#[verifier::external_body]
pub struct ExZvariantError(zbus::zvariant::Error);

/// The characters that an object path holds.
pub uninterp spec fn path_text(path: OwnedObjectPath) -> Seq<char>;

/// Calls `zbus::zvariant::OwnedObjectPath::try_from`: a text that is an object
/// path is taken over as it stands, any other is refused.
#[verifier::external_body]
fn object_path(s: String) -> (r: Result<OwnedObjectPath, zbus::zvariant::Error>)
    ensures
        r is Ok <==> is_object_path(s@),
        r is Ok ==> path_text(r->Ok_0) == s@,
{
    OwnedObjectPath::try_from(s)
}

/// The path of the `index`th device object.
pub open spec fn device_path_text(index: nat) -> Seq<char> {
    ROOT_PATH@ + "/dev"@ + text::decimal(index)
}

/// The path of every device object is an object path.
pub proof fn device_paths_are_valid(index: nat)
    ensures
        is_object_path(device_path_text(index)),
{
    reveal_strlit("/io/github/steambattery");
    reveal_strlit("/dev");
    text::decimal_roundtrip(index);
    let s = device_path_text(index);
    let head = ROOT_PATH@ + "/dev"@;
    let digits = text::decimal(index);
    assert forall|i: int| head.len() <= i < s.len() implies '0' <= #[trigger] s[i] <= '9' by {
        assert(s[i] == digits[i - head.len()]);
    }
    assert forall|i: int| 0 <= i < s.len() implies is_path_char(#[trigger] s[i]) || s[i] == '/' by {
        if i < head.len() {
            assert(s[i] == head[i]);
        }
    }
    assert forall|i: int, j: int| 0 <= i < s.len() && j == i + 1 && j < s.len() implies !(
    #[trigger] s[i] == '/' && #[trigger] s[j] == '/') by {
        if j < head.len() {
            assert(s[i] == head[i] && s[j] == head[j]);
        }
    }
}

/// The path of the `index`th device object.
pub fn device_path(index: usize) -> (r: OwnedObjectPath)
    ensures
        path_text(r) == device_path_text(index as nat),
{
    let mut s: String = ROOT_PATH.to_owned();
    s.append("/dev");
    push_decimal(&mut s, index as u64);
    proof {
        device_paths_are_valid(index as nat);
    }
    object_path(s).unwrap()
}

} // verus!
