//! The applet's side of the session service: what it knows of each device, and
//! what the panel and its popup show of that.
use crate::dbus;
use crate::interface::{ChargeState, PropertyValue, PropertyView, LEVEL_UNKNOWN};
use crate::key_map::KeyMap;
use crate::state::SnapshotView;
use crate::text;
use crate::text::push_decimal;
use vstd::prelude::*;
use vstd::string::StringExecFns;

verus! {

/// Mirror of the daemon's `.Device` properties.
#[derive(Debug, PartialEq, Eq)]
pub struct DeviceInfo {
    pub name: String,
    pub connected: bool,
    /// The charge state says so, or a property `Charging` where one is served.
    pub charging: bool,
    /// SDL3 `EChargeState` (0 reset, 1 discharging, 2 charging,
    /// 3 src-validate, 4 done); 0 until the first report.
    pub charge_state: u8,
    /// Property `BatteryLevel` as it is served: 0..=100, or [`LEVEL_UNKNOWN`].
    pub level: u8,
    /// mV
    pub battery_voltage: u16,
    /// mV
    pub system_voltage: u16,
    /// mV
    pub input_voltage: u16,
    /// mA
    pub current: u16,
    /// mA
    pub input_current: u16,
    /// milli-degrees Celsius
    pub temperature: u16,
    /// Unix seconds; 0 = never.
    pub last_updated: u64,
}

/// The model of what is known of a device.
#[verifier::ext_equal]
pub struct DeviceInfoView {
    pub name: Seq<char>,
    pub connected: bool,
    pub charging: bool,
    pub charge_state: u8,
    pub level: u8,
    pub battery_voltage: u16,
    pub system_voltage: u16,
    pub input_voltage: u16,
    pub current: u16,
    pub input_current: u16,
    pub temperature: u16,
    pub last_updated: u64,
}

impl View for DeviceInfo {
    type V = DeviceInfoView;

    open spec fn view(&self) -> DeviceInfoView {
        DeviceInfoView {
            name: self.name@,
            connected: self.connected,
            charging: self.charging,
            charge_state: self.charge_state,
            level: self.level,
            battery_voltage: self.battery_voltage,
            system_voltage: self.system_voltage,
            input_voltage: self.input_voltage,
            current: self.current,
            input_current: self.input_current,
            temperature: self.temperature,
            last_updated: self.last_updated,
        }
    }
}

impl Clone for DeviceInfo {
    fn clone(&self) -> (r: Self)
        ensures
            r == *self,
    {
        DeviceInfo {
            name: self.name.clone(),
            connected: self.connected,
            charging: self.charging,
            charge_state: self.charge_state,
            level: self.level,
            battery_voltage: self.battery_voltage,
            system_voltage: self.system_voltage,
            input_voltage: self.input_voltage,
            current: self.current,
            input_current: self.input_current,
            temperature: self.temperature,
            last_updated: self.last_updated,
        }
    }
}

/// Properties by name.
pub type Properties = Map<Seq<char>, PropertyView>;

/// A text property; empty where it is missing or no text.
pub open spec fn text_prop(props: Properties, name: Seq<char>) -> Seq<char> {
    if props.contains_key(name) && props[name] is Text {
        props[name]->Text_0
    } else {
        Seq::empty()
    }
}

/// A flag; false where it is missing or no flag.
pub open spec fn flag_prop(props: Properties, name: Seq<char>) -> bool {
    props.contains_key(name) && props[name] == PropertyView::Flag(true)
}

/// A byte; `default` where it is missing or no byte.
pub open spec fn byte_prop(props: Properties, name: Seq<char>, default: u8) -> u8 {
    if props.contains_key(name) && props[name] is Byte {
        props[name]->Byte_0
    } else {
        default
    }
}

/// A 16-bit number; 0 where it is missing or none.
pub open spec fn uint16_prop(props: Properties, name: Seq<char>) -> u16 {
    if props.contains_key(name) && props[name] is Uint16 {
        props[name]->Uint16_0
    } else {
        0
    }
}

/// A 64-bit number; 0 where it is missing or none.
pub open spec fn uint64_prop(props: Properties, name: Seq<char>) -> u64 {
    if props.contains_key(name) && props[name] is Uint64 {
        props[name]->Uint64_0
    } else {
        0
    }
}

/// The charge states 2 and 3 mean that the battery is being charged.
pub open spec fn is_charging_code(code: u8) -> bool {
    code == 2 || code == 3
}

/// What the properties of a device object say. What is missing, or has another
/// type than it should, counts as 0, empty or unknown. A device is charging
/// where its charge state says so, or a flag of its own.
pub open spec fn info_of(props: Properties) -> DeviceInfoView {
    DeviceInfoView {
        name: text_prop(props, "Name"@),
        connected: flag_prop(props, "Connected"@),
        charging: flag_prop(props, "Charging"@) || is_charging_code(
            byte_prop(props, "ChargeState"@, 0),
        ),
        charge_state: byte_prop(props, "ChargeState"@, 0),
        level: byte_prop(props, "BatteryLevel"@, LEVEL_UNKNOWN),
        battery_voltage: uint16_prop(props, "BatteryVoltage"@),
        system_voltage: uint16_prop(props, "SystemVoltage"@),
        input_voltage: uint16_prop(props, "InputVoltage"@),
        current: uint16_prop(props, "Current"@),
        input_current: uint16_prop(props, "InputCurrent"@),
        temperature: uint16_prop(props, "Temperature"@),
        last_updated: uint64_prop(props, "LastUpdated"@),
    }
}

/// The model of properties by name.
pub open spec fn properties_view(props: Map<Seq<char>, PropertyValue>) -> Properties {
    props.map_values(|p: PropertyValue| p@)
}

fn text_of(props: &KeyMap<PropertyValue>, name: &str) -> (r: String)
    requires
        props.wf(),
    ensures
        r@ == text_prop(properties_view(props@), name@),
{
    match props.get(name) {
        Some(PropertyValue::Text(text)) => text.clone(),
        _ => String::new(),
    }
}

fn flag_of(props: &KeyMap<PropertyValue>, name: &str) -> (r: bool)
    requires
        props.wf(),
    ensures
        r == flag_prop(properties_view(props@), name@),
{
    match props.get(name) {
        Some(PropertyValue::Flag(flag)) => *flag,
        _ => false,
    }
}

fn byte_of(props: &KeyMap<PropertyValue>, name: &str, default: u8) -> (r: u8)
    requires
        props.wf(),
    ensures
        r == byte_prop(properties_view(props@), name@, default),
{
    match props.get(name) {
        Some(PropertyValue::Byte(n)) => *n,
        _ => default,
    }
}

fn uint16_of(props: &KeyMap<PropertyValue>, name: &str) -> (r: u16)
    requires
        props.wf(),
    ensures
        r == uint16_prop(properties_view(props@), name@),
{
    match props.get(name) {
        Some(PropertyValue::Uint16(n)) => *n,
        _ => 0,
    }
}

fn uint64_of(props: &KeyMap<PropertyValue>, name: &str) -> (r: u64)
    requires
        props.wf(),
    ensures
        r == uint64_prop(properties_view(props@), name@),
{
    match props.get(name) {
        Some(PropertyValue::Uint64(n)) => *n,
        _ => 0,
    }
}

/// The label of a charge state's code.
pub open spec fn state_label(d: DeviceInfoView) -> Seq<char> {
    if d.level == LEVEL_UNKNOWN {
        "No data"@
    } else {
        crate::interface::charge_state_of(d.charge_state).label_text()
    }
}

/// The battery is being charged.
pub open spec fn is_charging(d: DeviceInfoView) -> bool {
    is_charging_code(d.charge_state)
}

/// The level as a percentage.
pub open spec fn level_text(d: DeviceInfoView) -> Seq<char> {
    if d.level == LEVEL_UNKNOWN {
        "--"@
    } else {
        text::decimal(d.level as nat) + "%"@
    }
}

/// What a device is doing, in words.
pub open spec fn status_text(d: DeviceInfoView) -> Seq<char> {
    if d.connected {
        state_label(d)
    } else if d.level != LEVEL_UNKNOWN {
        state_label(d) + " (asleep, last known)"@
    } else {
        "Asleep or disconnected"@
    }
}

/// How long ago something was, in words.
pub open spec fn ago_text(secs: nat) -> Seq<char> {
    if secs < 60 {
        text::decimal(secs) + " s ago"@
    } else if secs < 3600 {
        text::decimal(secs / 60) + " min ago"@
    } else {
        text::decimal(secs / 3600) + " h ago"@
    }
}

/// How long ago something was, in words.
pub fn ago_label(secs: u64) -> (r: String)
    ensures
        r@ == ago_text(secs as nat),
{
    let mut s: String = String::new();
    if secs < 60 {
        push_decimal(&mut s, secs);
        s.append(" s ago");
    } else if secs < 3600 {
        push_decimal(&mut s, secs / 60);
        s.append(" min ago");
    } else {
        push_decimal(&mut s, secs / 3600);
        s.append(" h ago");
    }
    assert(s@ =~= ago_text(secs as nat));
    s
}

/// A value in the popup.
#[derive(Debug, PartialEq, Eq)]
pub enum DetailValue {
    /// A voltage in mV, shown in volts.
    Volts(u16),
    /// A temperature in milli-degrees, shown in degrees Celsius.
    Celsius(u16),
    /// Text, shown as it is.
    Text(String),
}

/// The model of a value in the popup.
#[verifier::ext_equal]
pub enum DetailView {
    Volts(u16),
    Celsius(u16),
    Text(Seq<char>),
}

impl View for DetailValue {
    type V = DetailView;

    open spec fn view(&self) -> DetailView {
        match self {
            DetailValue::Volts(mv) => DetailView::Volts(*mv),
            DetailValue::Celsius(mc) => DetailView::Celsius(*mc),
            DetailValue::Text(text) => DetailView::Text(text@),
        }
    }
}

/// A current, with its unit.
pub open spec fn milliamps_text(ma: u16) -> Seq<char> {
    text::decimal(ma as nat) + " mA"@
}

fn milliamps(ma: u16) -> (r: DetailValue)
    ensures
        r@ == DetailView::Text(milliamps_text(ma)),
{
    let mut s: String = String::new();
    push_decimal(&mut s, ma as u64);
    s.append(" mA");
    assert(s@ =~= milliamps_text(ma));
    DetailValue::Text(s)
}

/// The rows of the popup: a label and a value each. A device without battery
/// data has none; what comes from the charger is shown only while there is
/// one; the age only of data that has one.
pub open spec fn details_of(d: DeviceInfoView, now: u64) -> Seq<(Seq<char>, DetailView)> {
    let ago: nat = if now >= d.last_updated {
        (now - d.last_updated) as nat
    } else {
        0
    };
    if d.level == LEVEL_UNKNOWN {
        seq![]
    } else {
        seq![
            ("Battery voltage"@, DetailView::Volts(d.battery_voltage)),
            ("System voltage"@, DetailView::Volts(d.system_voltage)),
        ] + (if d.input_voltage > 0 {
            seq![
                ("Input voltage"@, DetailView::Volts(d.input_voltage)),
                ("Input current"@, DetailView::Text(milliamps_text(d.input_current))),
            ]
        } else {
            seq![]
        }) + seq![
            ("Current"@, DetailView::Text(milliamps_text(d.current))),
            ("Temperature"@, DetailView::Celsius(d.temperature)),
        ] + (if d.last_updated > 0 {
            seq![("Updated"@, DetailView::Text(ago_text(ago)))]
        } else {
            seq![]
        })
    }
}

/// The models of the rows of the popup.
pub open spec fn detail_views(rows: Seq<(&'static str, DetailValue)>) -> Seq<
    (Seq<char>, DetailView),
> {
    Seq::new(rows.len(), |i: int| (rows[i].0@, rows[i].1@))
}

impl DeviceInfo {
    /// Reads the properties of a device object.
    pub fn from_properties(props: &KeyMap<PropertyValue>) -> (r: Self)
        requires
            props.wf(),
        ensures
            r@ == info_of(properties_view(props@)),
    {
        let charge_state: u8 = byte_of(props, "ChargeState", 0);
        DeviceInfo {
            name: text_of(props, "Name"),
            connected: flag_of(props, "Connected"),
            charging: flag_of(props, "Charging") || ChargeState::from(charge_state).is_charging(),
            charge_state,
            level: byte_of(props, "BatteryLevel", LEVEL_UNKNOWN),
            battery_voltage: uint16_of(props, "BatteryVoltage"),
            system_voltage: uint16_of(props, "SystemVoltage"),
            input_voltage: uint16_of(props, "InputVoltage"),
            current: uint16_of(props, "Current"),
            input_current: uint16_of(props, "InputCurrent"),
            temperature: uint16_of(props, "Temperature"),
            last_updated: uint64_of(props, "LastUpdated"),
        }
    }

    /// Whether a battery report has arrived.
    pub fn has_battery_data(&self) -> (r: bool)
        ensures
            r == (self.level != LEVEL_UNKNOWN),
    {
        self.level != LEVEL_UNKNOWN
    }

    /// Whether the battery is being charged: 2 and 3 mean that.
    pub fn charging(&self) -> (r: bool)
        ensures
            r == is_charging(self@),
    {
        ChargeState::from(self.charge_state).is_charging()
    }

    /// The charge state in words.
    pub fn charge_state_label(&self) -> (r: &'static str)
        ensures
            r@ == state_label(self@),
    {
        if !self.has_battery_data() {
            return "No data";
        }
        match self.charge_state {
            1 => "Discharging",
            2 => "Charging",
            3 => "Charger validating",
            4 => "Fully charged",
            _ => "Unknown",
        }
    }

    /// The level as a percentage.
    pub fn level_label(&self) -> (r: String)
        ensures
            r@ == level_text(self@),
    {
        if !self.has_battery_data() {
            return "--".to_owned();
        }
        let mut s: String = String::new();
        push_decimal(&mut s, self.level as u64);
        s.append("%");
        assert(s@ =~= level_text(self@));
        s
    }

    /// What the device is doing, in words.
    pub fn status(&self) -> (r: String)
        ensures
            r@ == status_text(self@),
    {
        if self.connected {
            self.charge_state_label().to_owned()
        } else if self.has_battery_data() {
            let mut s: String = self.charge_state_label().to_owned();
            s.append(" (asleep, last known)");
            s
        } else {
            "Asleep or disconnected".to_owned()
        }
    }

    /// The rows of the popup, at `now` in Unix seconds.
    pub fn details(&self, now: u64) -> (r: Vec<(&'static str, DetailValue)>)
        ensures
            detail_views(r@) == details_of(self@, now),
    {
        let mut rows: Vec<(&'static str, DetailValue)> = Vec::new();
        if self.has_battery_data() {
            rows.push(("Battery voltage", DetailValue::Volts(self.battery_voltage)));
            rows.push(("System voltage", DetailValue::Volts(self.system_voltage)));
            if self.input_voltage > 0 {
                rows.push(("Input voltage", DetailValue::Volts(self.input_voltage)));
                rows.push(("Input current", milliamps(self.input_current)));
            }
            rows.push(("Current", milliamps(self.current)));
            rows.push(("Temperature", DetailValue::Celsius(self.temperature)));
            if self.last_updated > 0 {
                let ago: u64 = now.saturating_sub(self.last_updated);
                rows.push(("Updated", DetailValue::Text(ago_label(ago))));
            }
        }
        assert(detail_views(rows@) =~= details_of(self@, now));
        rows
    }
}

/// Properties as the daemon serves them for a device.
pub open spec fn serves(props: Properties, snap: SnapshotView) -> bool {
    &&& forall|i: int|
        0 <= i < dbus::props_of(snap).len() ==> props.contains_key((#[trigger] dbus::props_of(snap)[i]).0)
            && props[dbus::props_of(snap)[i].0] == dbus::props_of(snap)[i].1
    &&& forall|name: Seq<char>| #[trigger]
        props.contains_key(name) ==> exists|i: int|
            0 <= i < dbus::props_of(snap).len() && (#[trigger] dbus::props_of(snap)[i]).0 == name
}

/// The applet reads from the properties that the daemon serves what the daemon
/// knows of the device.
pub proof fn applet_reads_what_the_daemon_serves(props: Properties, snap: SnapshotView)
    requires
        serves(props, snap),
    ensures
        ({
            let r = dbus::readings_of(snap.battery);
            info_of(props) == DeviceInfoView {
                name: snap.name,
                connected: snap.connected,
                charging: is_charging_code(r.charge_state),
                charge_state: r.charge_state,
                level: r.level,
                battery_voltage: r.battery_voltage,
                system_voltage: r.system_voltage,
                input_voltage: r.input_voltage,
                current: r.current,
                input_current: r.input_current,
                temperature: r.temperature,
                last_updated: dbus::updated_secs(snap),
            }
        }),
        info_of(props).level == LEVEL_UNKNOWN <==> snap.battery is None,
        info_of(props).level <= 100 || info_of(props).level == LEVEL_UNKNOWN,
{
    let served = dbus::props_of(snap);
    assert(served[0].0 == "Name"@);
    assert(served[1].0 == "Connected"@);
    assert(served[2].0 == "ChargeState"@);
    assert(served[3].0 == "BatteryLevel"@);
    assert(served[4].0 == "BatteryVoltage"@);
    assert(served[5].0 == "SystemVoltage"@);
    assert(served[6].0 == "InputVoltage"@);
    assert(served[7].0 == "Current"@);
    assert(served[8].0 == "InputCurrent"@);
    assert(served[9].0 == "Temperature"@);
    assert(served[10].0 == "LastUpdated"@);
    if props.contains_key("Charging"@) {
        reveal_strlit("Name");
        reveal_strlit("Connected");
        reveal_strlit("Charging");
        reveal_strlit("ChargeState");
        reveal_strlit("BatteryLevel");
        reveal_strlit("BatteryVoltage");
        reveal_strlit("SystemVoltage");
        reveal_strlit("InputVoltage");
        reveal_strlit("Current");
        reveal_strlit("InputCurrent");
        reveal_strlit("Temperature");
        reveal_strlit("LastUpdated");
        let i = choose|i: int|
            0 <= i < served.len() && (#[trigger] served[i]).0 == "Charging"@;
        assert("Charging"@.len() == 8 && served[i].0.len() != 8);
    }
}

/// The charging state that the applet shows is the one of the daemon.
pub proof fn applet_agrees_on_charging(props: Properties, snap: SnapshotView)
    requires
        serves(props, snap),
        snap.battery is Some,
        snap.battery->0.charge_state.canonical(),
    ensures
        is_charging(info_of(props)) <==> (snap.battery->0.charge_state == ChargeState::Charging
            || snap.battery->0.charge_state == ChargeState::SrcValidate),
        info_of(props).charging == is_charging(info_of(props)),
        state_label(info_of(props)) == snap.battery->0.charge_state.label_text(),
{
    applet_reads_what_the_daemon_serves(props, snap);
    crate::interface::charge_state_roundtrip(snap.battery->0.charge_state);
    crate::interface::charging_codes(snap.battery->0.charge_state.code());
}

/// Each field of a device is what the property of its name says, if that has
/// the right type, and else empty, false, 0 or, for the level, unknown. The
/// charging flag is also set where the charge state is 2 or 3.
pub proof fn fields_are_the_properties(props: Properties)
    ensures
        ({
            let d = info_of(props);
            let served = |name: Seq<char>|
                if props.contains_key(name) {
                    Some(props[name])
                } else {
                    None
                };
            &&& match served("Name"@) {
                Some(PropertyView::Text(t)) => d.name == t,
                _ => d.name.len() == 0,
            }
            &&& d.connected <==> served("Connected"@) == Some(PropertyView::Flag(true))
            &&& d.charging <==> served("Charging"@) == Some(PropertyView::Flag(true)) || served(
                "ChargeState"@,
            ) == Some(PropertyView::Byte(2)) || served("ChargeState"@) == Some(
                PropertyView::Byte(3),
            )
            &&& match served("ChargeState"@) {
                Some(PropertyView::Byte(n)) => d.charge_state == n,
                _ => d.charge_state == 0,
            }
            &&& match served("BatteryLevel"@) {
                Some(PropertyView::Byte(n)) => d.level == n,
                _ => d.level == 255,
            }
            &&& match served("BatteryVoltage"@) {
                Some(PropertyView::Uint16(n)) => d.battery_voltage == n,
                _ => d.battery_voltage == 0,
            }
            &&& match served("SystemVoltage"@) {
                Some(PropertyView::Uint16(n)) => d.system_voltage == n,
                _ => d.system_voltage == 0,
            }
            &&& match served("InputVoltage"@) {
                Some(PropertyView::Uint16(n)) => d.input_voltage == n,
                _ => d.input_voltage == 0,
            }
            &&& match served("Current"@) {
                Some(PropertyView::Uint16(n)) => d.current == n,
                _ => d.current == 0,
            }
            &&& match served("InputCurrent"@) {
                Some(PropertyView::Uint16(n)) => d.input_current == n,
                _ => d.input_current == 0,
            }
            &&& match served("Temperature"@) {
                Some(PropertyView::Uint16(n)) => d.temperature == n,
                _ => d.temperature == 0,
            }
            &&& match served("LastUpdated"@) {
                Some(PropertyView::Uint64(n)) => d.last_updated == n,
                _ => d.last_updated == 0,
            }
        }),
{
}

/// The words for what a device is doing: without a level there is no data; with
/// one the charge state has its words. A device that is not connected is asleep,
/// with what was last known of it where there is a level.
pub proof fn words_follow_the_state(d: DeviceInfoView)
    ensures
        d.level == 255 ==> state_label(d) == "No data"@,
        d.level != 255 && d.charge_state == 1 ==> state_label(d) == "Discharging"@,
        d.level != 255 && d.charge_state == 2 ==> state_label(d) == "Charging"@,
        d.level != 255 && d.charge_state == 3 ==> state_label(d) == "Charger validating"@,
        d.level != 255 && d.charge_state == 4 ==> state_label(d) == "Fully charged"@,
        d.level != 255 && (d.charge_state == 0 || d.charge_state > 4) ==> state_label(d)
            == "Unknown"@,
        d.connected ==> status_text(d) == state_label(d),
        !d.connected && d.level != 255 ==> status_text(d) == state_label(d)
            + " (asleep, last known)"@,
        !d.connected && d.level == 255 ==> status_text(d) == "Asleep or disconnected"@,
        is_charging(d) <==> d.charge_state == 2 || d.charge_state == 3,
{
}

/// A level is shown as its decimal and a percent sign; an unknown one is not.
pub proof fn levels_are_percentages(d: DeviceInfoView)
    ensures
        d.level != 255 ==> level_text(d) == text::decimal(d.level as nat).push('%'),
        d.level == 255 ==> level_text(d) == "--"@,
{
    reveal_strlit("%");
    assert("%"@ =~= seq!['%']);
    assert(text::decimal(d.level as nat) + "%"@ =~= text::decimal(d.level as nat).push('%'));
}

/// An age is shown in seconds below a minute, in whole minutes below an hour,
/// and in whole hours from then on.
pub proof fn ages_are_in_the_largest_unit(secs: nat, n: nat)
    ensures
        secs < 60 ==> ago_text(secs) == text::decimal(secs) + " s ago"@,
        60 <= secs < 3600 && 60 * n <= secs < 60 * n + 60 ==> ago_text(secs) == text::decimal(n)
            + " min ago"@,
        secs >= 3600 && 3600 * n <= secs < 3600 * n + 3600 ==> ago_text(secs) == text::decimal(n)
            + " h ago"@,
{
    if 60 * n <= secs < 60 * n + 60 {
        assert(secs / 60 == n);
    }
    if 3600 * n <= secs < 3600 * n + 3600 {
        assert(secs / 3600 == n);
    }
}

/// The rows of the popup: none without a level; else the voltages of the
/// battery and the system, then those of the charger while it gives any, then
/// current and temperature, and the age where there is a time stamp. Each shows
/// the reading that it is named after.
pub proof fn rows_show_their_readings(d: DeviceInfoView, now: u64)
    ensures
        ({
            let rows = details_of(d, now);
            let plugged = d.input_voltage > 0;
            let k: int = if plugged {
                4
            } else {
                2
            };
            let amps = |ma: u16| DetailView::Text(text::decimal(ma as nat) + " mA"@);
            &&& d.level == 255 ==> rows.len() == 0
            &&& d.level != 255 ==> {
                &&& rows.len() == k + 2 + if d.last_updated > 0 {
                    1int
                } else {
                    0int
                }
                &&& rows[0] == ("Battery voltage"@, DetailView::Volts(d.battery_voltage))
                &&& rows[1] == ("System voltage"@, DetailView::Volts(d.system_voltage))
                &&& plugged ==> rows[2] == ("Input voltage"@, DetailView::Volts(d.input_voltage))
                    && rows[3] == ("Input current"@, amps(d.input_current))
                &&& rows[k] == ("Current"@, amps(d.current))
                &&& rows[k + 1] == ("Temperature"@, DetailView::Celsius(d.temperature))
                &&& d.last_updated > 0 && now >= d.last_updated ==> rows[k + 2] == (
                    "Updated"@,
                    DetailView::Text(ago_text((now - d.last_updated) as nat)),
                )
                &&& d.last_updated > 0 && now < d.last_updated ==> rows[k + 2] == (
                    "Updated"@,
                    DetailView::Text(ago_text(0)),
                )
            }
        }),
{
}

/// The models of a device and of a value in the popup show all that these
/// hold.
pub proof fn device_model_is_faithful(d: DeviceInfo, value: DetailValue)
    ensures
        d@.name == d.name@,
        d@.connected == d.connected,
        d@.charging == d.charging,
        d@.charge_state == d.charge_state,
        d@.level == d.level,
        d@.battery_voltage == d.battery_voltage,
        d@.system_voltage == d.system_voltage,
        d@.input_voltage == d.input_voltage,
        d@.current == d.current,
        d@.input_current == d.input_current,
        d@.temperature == d.temperature,
        d@.last_updated == d.last_updated,
        value matches DetailValue::Volts(mv) ==> value@ == DetailView::Volts(mv),
        value matches DetailValue::Celsius(mc) ==> value@ == DetailView::Celsius(mc),
        value matches DetailValue::Text(t) ==> value@ == DetailView::Text(t@),
{
}

/// The models of the properties by name and of the rows of the popup hold the
/// model of each.
pub proof fn applet_lists_are_faithful(
    props: Map<Seq<char>, PropertyValue>,
    rows: Seq<(&'static str, DetailValue)>,
)
    ensures
        forall|name: Seq<char>| #[trigger]
            properties_view(props).contains_key(name) <==> props.contains_key(name),
        forall|name: Seq<char>|
            props.contains_key(name) ==> #[trigger] properties_view(props)[name] == props[name]@,
        detail_views(rows).len() == rows.len(),
        forall|i: int|
            0 <= i < rows.len() ==> #[trigger] detail_views(rows)[i] == (rows[i].0@, rows[i].1@),
{
}

} // verus!
