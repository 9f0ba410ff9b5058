//! Wire format for Steam Controller 2 ("Triton") HID input reports.
//!
//! All multi-byte fields are little-endian and follow each other without
//! padding.
use crate::interface::ChargeState;
use vstd::prelude::*;

verus! {

pub const REPORT_CONTROLLER_STATE: u8 = 0x42;

pub const REPORT_BATTERY_STATUS: u8 = 0x43;

pub const REPORT_CONTROLLER_STATE_BLE: u8 = 0x45;

/// Total size of report 0x43 including the report-ID byte.
pub const BATTERY_REPORT_LEN: usize = 15;

/// The 14-byte payload of report 0x43: voltages in mV, currents in mA,
/// temperature in milli-degrees Celsius.
#[derive(Debug, Clone, Copy, PartialEq, Eq, Structural)]
pub struct BatteryStatus {
    pub charge_state: ChargeState,
    /// Percent, as the controller reports it: any byte; shown as at most 100.
    pub level: u8,
    /// mV
    pub battery_voltage: u16,
    /// mV
    pub system_voltage: u16,
    /// mV (~5100 while on USB power, 0 unplugged)
    pub input_voltage: u16,
    /// mA
    pub current: u16,
    /// mA
    pub input_current: u16,
    /// milli-degrees Celsius
    pub temperature: u16,
}

/// What a single hidraw report means.
#[derive(Debug, Clone, Copy, PartialEq, Eq, Structural)]
pub enum Report {
    Battery(BatteryStatus),
    /// Controller state traffic (0x42 wired/dongle, 0x45 BLE): proof that the
    /// controller is awake and connected.
    Liveness,
    Other(u8),
}

/// The 16-bit number whose low byte stands at `off`.
pub open spec fn le16(buf: Seq<u8>, off: int) -> int {
    buf[off] + 256 * buf[off + 1]
}

/// The battery status that a report spells out.
pub open spec fn battery_of(buf: Seq<u8>) -> BatteryStatus {
    BatteryStatus {
        charge_state: crate::interface::charge_state_of(buf[1]),
        level: buf[2],
        battery_voltage: le16(buf, 3) as u16,
        system_voltage: le16(buf, 5) as u16,
        input_voltage: le16(buf, 7) as u16,
        current: le16(buf, 9) as u16,
        input_current: le16(buf, 11) as u16,
        temperature: le16(buf, 13) as u16,
    }
}

/// A report holds a battery status if it has the right ID and is long enough.
pub open spec fn is_battery_report(buf: Seq<u8>) -> bool {
    buf.len() >= BATTERY_REPORT_LEN && buf[0] == REPORT_BATTERY_STATUS
}

/// What a report means; `None` for an empty one and for a battery report that
/// was cut short.
pub open spec fn meaning(buf: Seq<u8>) -> Option<Report> {
    if buf.len() == 0 {
        None
    } else if buf[0] == REPORT_BATTERY_STATUS {
        if buf.len() >= BATTERY_REPORT_LEN {
            Some(Report::Battery(battery_of(buf)))
        } else {
            None
        }
    } else if buf[0] == REPORT_CONTROLLER_STATE || buf[0] == REPORT_CONTROLLER_STATE_BLE {
        Some(Report::Liveness)
    } else {
        Some(Report::Other(buf[0]))
    }
}

/// The little-endian number at `off`.
pub fn u16_le(buf: &[u8], off: usize) -> (r: u16)
    requires
        off + 1 < buf@.len(),
    ensures
        r == le16(buf@, off as int),
{
    buf[off] as u16 + 256 * (buf[off + 1] as u16)
}

/// Parse a report 0x43 buffer (including the leading ID byte).
pub fn parse_battery_report(buf: &[u8]) -> (r: Option<BatteryStatus>)
    ensures
        r == if is_battery_report(buf@) {
            Some(battery_of(buf@))
        } else {
            None
        },
{
    if buf.len() < BATTERY_REPORT_LEN || buf[0] != REPORT_BATTERY_STATUS {
        return None;
    }
    Some(
        BatteryStatus {
            charge_state: ChargeState::from(buf[1]),
            level: buf[2],
            battery_voltage: u16_le(buf, 3),
            system_voltage: u16_le(buf, 5),
            input_voltage: u16_le(buf, 7),
            current: u16_le(buf, 9),
            input_current: u16_le(buf, 11),
            temperature: u16_le(buf, 13),
        },
    )
}

/// Classify one hidraw report (the kernel delivers exactly one per read).
pub fn classify(buf: &[u8]) -> (r: Option<Report>)
    ensures
        r == meaning(buf@),
{
    if buf.len() == 0 {
        return None;
    }
    let id: u8 = buf[0];
    match id {
        REPORT_BATTERY_STATUS => match parse_battery_report(buf) {
            Some(status) => Some(Report::Battery(status)),
            None => None,
        },
        REPORT_CONTROLLER_STATE | REPORT_CONTROLLER_STATE_BLE => Some(Report::Liveness),
        other => Some(Report::Other(other)),
    }
}

/// The two bytes of a number, low byte first.
pub open spec fn le_bytes(x: u16) -> Seq<u8> {
    seq![(x % 256) as u8, (x / 256) as u8]
}

/// The report 0x43 that spells out a battery status.
pub open spec fn report_of(status: BatteryStatus) -> Seq<u8> {
    seq![REPORT_BATTERY_STATUS, status.charge_state.code(), status.level]
        + le_bytes(status.battery_voltage) + le_bytes(status.system_voltage)
        + le_bytes(status.input_voltage) + le_bytes(status.current)
        + le_bytes(status.input_current) + le_bytes(status.temperature)
}

/// Every battery status that the wire can carry is read back from its report,
/// whatever follows the report in the buffer.
pub proof fn report_roundtrip(status: BatteryStatus, rest: Seq<u8>)
    requires
        status.charge_state.canonical(),
    ensures
        report_of(status).len() == BATTERY_REPORT_LEN,
        meaning(report_of(status) + rest) == Some(Report::Battery(status)),
{
    let buf = report_of(status) + rest;
    assert(buf[0] == REPORT_BATTERY_STATUS);
    assert(le16(buf, 3) == status.battery_voltage);
    assert(le16(buf, 5) == status.system_voltage);
    assert(le16(buf, 7) == status.input_voltage);
    assert(le16(buf, 9) == status.current);
    assert(le16(buf, 11) == status.input_current);
    assert(le16(buf, 13) == status.temperature);
}

/// A battery report is the report of the status that is read from it: nothing
/// of its 15 bytes is lost.
pub proof fn report_lossless(buf: Seq<u8>)
    requires
        is_battery_report(buf),
    ensures
        report_of(battery_of(buf)) == buf.take(BATTERY_REPORT_LEN as int),
{
    assert(report_of(battery_of(buf)) =~= buf.take(BATTERY_REPORT_LEN as int));
}

/// Only an empty report and a battery report that was cut short mean nothing.
pub proof fn meaningless_reports(buf: Seq<u8>)
    ensures
        meaning(buf) is None <==> buf.len() == 0 || (buf[0] == REPORT_BATTERY_STATUS && buf.len()
            < BATTERY_REPORT_LEN),
{
}

/// A report of at least 15 bytes with the ID 0x43 is a battery report, and only
/// such a one is. Its status is spelled out by its bytes: the charge state, the
/// level, and six numbers of two bytes each, the low one first.
pub proof fn battery_reports_are_spelled_out(buf: Seq<u8>)
    ensures
        (meaning(buf) matches Some(Report::Battery(_))) <==> buf.len() >= 15 && buf[0] == 0x43,
        is_battery_report(buf) <==> buf.len() >= 15 && buf[0] == 0x43,
        meaning(buf) matches Some(Report::Battery(status)) ==> {
            &&& status == battery_of(buf)
            &&& status.charge_state == ChargeState::Reset <==> buf[1] == 0
            &&& status.charge_state == ChargeState::Discharging <==> buf[1] == 1
            &&& status.charge_state == ChargeState::Charging <==> buf[1] == 2
            &&& status.charge_state == ChargeState::SrcValidate <==> buf[1] == 3
            &&& status.charge_state == ChargeState::ChargingDone <==> buf[1] == 4
            &&& status.charge_state == ChargeState::Unknown(buf[1]) <==> buf[1] > 4
            &&& status.level == buf[2]
            &&& status.battery_voltage == buf[3] + 256 * buf[4]
            &&& status.system_voltage == buf[5] + 256 * buf[6]
            &&& status.input_voltage == buf[7] + 256 * buf[8]
            &&& status.current == buf[9] + 256 * buf[10]
            &&& status.input_current == buf[11] + 256 * buf[12]
            &&& status.temperature == buf[13] + 256 * buf[14]
        },
{
}

/// A report with the ID 0x42 or 0x45 is traffic, whatever else it holds; one
/// with an ID of its own is known by that ID.
pub proof fn other_reports_are_known_by_their_id(buf: Seq<u8>, id: u8)
    ensures
        meaning(buf) == Some(Report::Liveness) <==> buf.len() > 0 && (buf[0] == 0x42 || buf[0]
            == 0x45),
        meaning(buf) == Some(Report::Other(id)) <==> buf.len() > 0 && buf[0] == id && id != 0x42
            && id != 0x43 && id != 0x45,
{
}

} // verus!
