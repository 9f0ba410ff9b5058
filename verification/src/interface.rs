//! The `io.github.steambattery` D-Bus contract, shared by the daemon, which
//! serves it, and the applet, which consumes it.
use vstd::prelude::*;

verus! {

pub const BUS_NAME: &'static str = "io.github.steambattery";

pub const ROOT_PATH: &'static str = "/io/github/steambattery";

/// `BatteryLevel` value meaning "no battery report received yet".
pub const LEVEL_UNKNOWN: u8 = 0xff;

/// SDL3 `EChargeState`, carried on the wire as the `ChargeState: y` property.
#[derive(Debug, Clone, Copy, PartialEq, Eq, Structural)]
pub enum ChargeState {
    Reset,
    Discharging,
    Charging,
    SrcValidate,
    ChargingDone,
    Unknown(u8),
}

/// The charge state that a wire code stands for.
pub open spec fn charge_state_of(code: u8) -> ChargeState {
    if code == 0 {
        ChargeState::Reset
    } else if code == 1 {
        ChargeState::Discharging
    } else if code == 2 {
        ChargeState::Charging
    } else if code == 3 {
        ChargeState::SrcValidate
    } else if code == 4 {
        ChargeState::ChargingDone
    } else {
        ChargeState::Unknown(code)
    }
}

impl From<u8> for ChargeState {
    fn from(v: u8) -> (r: Self) {
        match v {
            0 => ChargeState::Reset,
            1 => ChargeState::Discharging,
            2 => ChargeState::Charging,
            3 => ChargeState::SrcValidate,
            4 => ChargeState::ChargingDone,
            other => ChargeState::Unknown(other),
        }
    }
}

impl vstd::std_specs::convert::FromSpecImpl<u8> for ChargeState {
    open spec fn obeys_from_spec() -> bool {
        true
    }

    open spec fn from_spec(v: u8) -> Self {
        charge_state_of(v)
    }
}

impl ChargeState {
    /// The wire code of a charge state.
    pub open spec fn code(self) -> u8 {
        match self {
            ChargeState::Reset => 0,
            ChargeState::Discharging => 1,
            ChargeState::Charging => 2,
            ChargeState::SrcValidate => 3,
            ChargeState::ChargingDone => 4,
            ChargeState::Unknown(v) => v,
        }
    }

    /// `Unknown` holds no code that has a name.
    pub open spec fn canonical(self) -> bool {
        match self {
            ChargeState::Unknown(v) => v > 4,
            _ => true,
        }
    }

    /// The label that people read.
    pub open spec fn label_text(self) -> Seq<char> {
        match self {
            ChargeState::Discharging => "Discharging"@,
            ChargeState::Charging => "Charging"@,
            ChargeState::SrcValidate => "Charger validating"@,
            ChargeState::ChargingDone => "Fully charged"@,
            ChargeState::Reset | ChargeState::Unknown(_) => "Unknown"@,
        }
    }

    /// The wire code.
    #[must_use]
    pub fn as_u8(self) -> (r: u8)
        ensures
            r == self.code(),
    {
        match self {
            ChargeState::Reset => 0,
            ChargeState::Discharging => 1,
            ChargeState::Charging => 2,
            ChargeState::SrcValidate => 3,
            ChargeState::ChargingDone => 4,
            ChargeState::Unknown(v) => v,
        }
    }

    /// Whether the battery is being charged, or the charger being validated.
    #[must_use]
    pub fn is_charging(self) -> (r: bool)
        ensures
            r == (self == ChargeState::Charging || self == ChargeState::SrcValidate),
    {
        matches!(self, ChargeState::Charging | ChargeState::SrcValidate)
    }

    /// Human-readable label. `Reset` doubles as "no report yet" on the wire,
    /// so both it and unknown codes read as "Unknown".
    #[must_use]
    pub fn label(self) -> (r: &'static str)
        ensures
            r@ == self.label_text(),
    {
        match self {
            ChargeState::Discharging => "Discharging",
            ChargeState::Charging => "Charging",
            ChargeState::SrcValidate => "Charger validating",
            ChargeState::ChargingDone => "Fully charged",
            ChargeState::Reset | ChargeState::Unknown(_) => "Unknown",
        }
    }
}

/// The value of a D-Bus property.
#[derive(Debug, PartialEq, Eq)]
pub enum PropertyValue {
    /// `s`
    Text(String),
    /// `b`
    Flag(bool),
    /// `y`
    Byte(u8),
    /// `q`
    Uint16(u16),
    /// `t`
    Uint64(u64),
}

/// The model of a property's value.
#[verifier::ext_equal]
pub enum PropertyView {
    Text(Seq<char>),
    Flag(bool),
    Byte(u8),
    Uint16(u16),
    Uint64(u64),
}

impl View for PropertyValue {
    type V = PropertyView;

    open spec fn view(&self) -> PropertyView {
        match self {
            PropertyValue::Text(text) => PropertyView::Text(text@),
            PropertyValue::Flag(flag) => PropertyView::Flag(*flag),
            PropertyValue::Byte(n) => PropertyView::Byte(*n),
            PropertyValue::Uint16(n) => PropertyView::Uint16(*n),
            PropertyValue::Uint64(n) => PropertyView::Uint64(*n),
        }
    }
}

impl PropertyValue {
    /// Whether two values are the same.
    pub fn same_as(&self, other: &PropertyValue) -> (r: bool)
        ensures
            r == (self@ == other@),
    {
        match (self, other) {
            (PropertyValue::Text(a), PropertyValue::Text(b)) => *a == *b,
            (PropertyValue::Flag(a), PropertyValue::Flag(b)) => *a == *b,
            (PropertyValue::Byte(a), PropertyValue::Byte(b)) => *a == *b,
            (PropertyValue::Uint16(a), PropertyValue::Uint16(b)) => *a == *b,
            (PropertyValue::Uint64(a), PropertyValue::Uint64(b)) => *a == *b,
            _ => false,
        }
    }
}

/// Every wire code survives being read as a charge state and written again.
pub proof fn code_roundtrip(code: u8)
    ensures
        charge_state_of(code).code() == code,
        charge_state_of(code).canonical(),
{
}

/// Every charge state that the wire can carry survives being written and read.
pub proof fn charge_state_roundtrip(state: ChargeState)
    requires
        state.canonical(),
    ensures
        charge_state_of(state.code()) == state,
{
}

/// On the wire 2 and 3 mean "charging", and nothing else does.
pub proof fn charging_codes(code: u8)
    ensures
        (charge_state_of(code) == ChargeState::Charging || charge_state_of(code)
            == ChargeState::SrcValidate) <==> (code == 2 || code == 3),
{
}

/// The five codes that have a name stand for it, and every other for itself.
pub proof fn codes_have_their_names(code: u8)
    ensures
        charge_state_of(code) == ChargeState::Reset <==> code == 0,
        charge_state_of(code) == ChargeState::Discharging <==> code == 1,
        charge_state_of(code) == ChargeState::Charging <==> code == 2,
        charge_state_of(code) == ChargeState::SrcValidate <==> code == 3,
        charge_state_of(code) == ChargeState::ChargingDone <==> code == 4,
        charge_state_of(code) == ChargeState::Unknown(code) <==> code > 4,
        ChargeState::Reset.code() == 0,
        ChargeState::Discharging.code() == 1,
        ChargeState::Charging.code() == 2,
        ChargeState::SrcValidate.code() == 3,
        ChargeState::ChargingDone.code() == 4,
        ChargeState::Unknown(code).code() == code,
{
}

/// Each state that says something of the battery has its own words; the others
/// read as unknown.
pub proof fn labels_tell_states_apart(state: ChargeState)
    ensures
        state.label_text() == "Discharging"@ <==> state == ChargeState::Discharging,
        state.label_text() == "Charging"@ <==> state == ChargeState::Charging,
        state.label_text() == "Charger validating"@ <==> state == ChargeState::SrcValidate,
        state.label_text() == "Fully charged"@ <==> state == ChargeState::ChargingDone,
        state.label_text() == "Unknown"@ <==> state == ChargeState::Reset || state is Unknown,
{
    reveal_strlit("Discharging");
    reveal_strlit("Charging");
    reveal_strlit("Charger validating");
    reveal_strlit("Fully charged");
    reveal_strlit("Unknown");
    assert("Discharging"@.len() == 11);
    assert("Charging"@.len() == 8);
    assert("Charger validating"@.len() == 18);
    assert("Fully charged"@.len() == 13);
    assert("Unknown"@.len() == 7);
}

/// The model of a property's value is its type and the value itself.
pub proof fn property_model_is_faithful(p: PropertyValue)
    ensures
        p matches PropertyValue::Text(text) ==> p@ == PropertyView::Text(text@),
        p matches PropertyValue::Flag(flag) ==> p@ == PropertyView::Flag(flag),
        p matches PropertyValue::Byte(n) ==> p@ == PropertyView::Byte(n),
        p matches PropertyValue::Uint16(n) ==> p@ == PropertyView::Uint16(n),
        p matches PropertyValue::Uint64(n) ==> p@ == PropertyView::Uint64(n),
{
}

} // verus!
