//! The panel applet's window: which device it shows, by which icon, and what
//! its popup holds.
use crate::applet::{DeviceInfo, DeviceInfoView};
use crate::clock::{MILLISECOND, SECOND};
use crate::interface::{ChargeState, LEVEL_UNKNOWN};
use crate::text;
use crate::text::push_decimal;
use vstd::prelude::*;
use vstd::string::StringExecFns;

verus! {

/// How often the popup is drawn anew while it is open ("N s ago").
pub const TICK: i64 = 5 * SECOND;

/// One battery report may come as several signals: how long to wait for the
/// rest of them before fetching.
pub const DEBOUNCE: i64 = 300 * MILLISECOND;

/// How often to fetch without any signal.
pub const REFRESH: i64 = 30 * SECOND;

/// How long to wait before connecting to the bus again.
pub const RECONNECT: i64 = 5 * SECOND;

/// `None` = daemon not reachable on the bus.
pub type State = Option<Vec<DeviceInfo>>;

/// The model of what is known of all devices.
pub open spec fn state_view(state: State) -> Option<Seq<DeviceInfoView>> {
    match state {
        Some(devices) => Some(info_views(devices@)),
        None => None,
    }
}

/// The models of a list of devices.
pub open spec fn info_views(devices: Seq<DeviceInfo>) -> Seq<DeviceInfoView> {
    Seq::new(devices.len(), |i: int| devices[i]@)
}

/// A battery report of this device has arrived.
pub open spec fn has_data(d: DeviceInfoView) -> bool {
    d.level != LEVEL_UNKNOWN
}

/// The first of `devices` that is as `p` says.
pub open spec fn first_where(
    devices: Seq<DeviceInfoView>,
    p: spec_fn(DeviceInfoView) -> bool,
) -> Option<DeviceInfoView>
    decreases devices.len(),
{
    if devices.len() == 0 {
        None
    } else {
        match first_where(devices.drop_last(), p) {
            Some(d) => Some(d),
            None => if p(devices.last()) {
                Some(devices.last())
            } else {
                None
            },
        }
    }
}

/// The device shown in the panel: the first connected one with battery data,
/// or else the first with battery data.
pub open spec fn primary_of(state: Option<Seq<DeviceInfoView>>) -> Option<DeviceInfoView> {
    match state {
        Some(devices) => match first_where(
            devices,
            |d: DeviceInfoView| d.connected && has_data(d),
        ) {
            Some(d) => Some(d),
            None => first_where(devices, |d: DeviceInfoView| has_data(d)),
        },
        None => None,
    }
}

/// A level rounded to the nearest icon step (0, 10, .., 100).
pub open spec fn icon_step(level: u8) -> nat {
    let capped: nat = if level < 100 {
        level as nat
    } else {
        100
    };
    (capped + 5) / 10 * 10
}

/// Name of the icon for a device.
pub open spec fn icon_text(primary: Option<DeviceInfoView>) -> Seq<char> {
    match primary {
        Some(d) => {
            let plugged = crate::applet::is_charging(d) || d.charge_state == 4;
            let suffix = if !plugged {
                ""@
            } else if icon_step(d.level) == 100 {
                "-charged"@
            } else {
                "-charging"@
            };
            "battery-level-"@ + text::decimal(icon_step(d.level)) + suffix + "-symbolic"@
        },
        None => "battery-missing-symbolic"@,
    }
}

/// The edge of the badge in an icon of `size` pixels: about 56%, floored, but
/// never so small that it is illegible.
pub open spec fn badge_edge(size: u16) -> int {
    let scaled: int = if size * 56 > u16::MAX {
        u16::MAX as int
    } else {
        size * 56
    };
    if scaled / 100 > 8 {
        scaled / 100
    } else {
        8
    }
}

/// The edge of the battery badge in an icon of `size` pixels.
pub fn badge_size(size: u16) -> (r: u16)
    ensures
        r == badge_edge(size),
{
    let product: u32 = size as u32 * 56;
    let scaled: u16 = if product > u16::MAX as u32 {
        u16::MAX
    } else {
        product as u16
    };
    if scaled / 100 > 8 {
        scaled / 100
    } else {
        8
    }
}

/// What happens to the window.
#[derive(Debug, PartialEq, Eq)]
pub enum Message {
    TogglePopup,
    CloseRequested(u64),
    State(State),
    /// Periodic drawing while the popup is open ("N s ago" freshness).
    Tick,
}

/// What the window asks of the shell.
#[derive(Debug, Clone, Copy, PartialEq, Eq, Structural)]
pub enum Effect {
    Nothing,
    /// Open a popup under this number.
    OpenPopup(u64),
    /// Destroy the popup of this number.
    DestroyPopup(u64),
}

/// What the popup holds.
#[derive(Debug, PartialEq, Eq)]
pub enum PopupContent {
    /// "steambatteryd is not running"
    NotRunning,
    /// "No Steam Controller detected"
    NoController,
    /// The devices, in their order.
    Devices(Vec<DeviceInfo>),
}

/// The model of what the popup holds.
pub enum PopupView {
    NotRunning,
    NoController,
    Devices(Seq<DeviceInfoView>),
}

impl View for PopupContent {
    type V = PopupView;

    open spec fn view(&self) -> PopupView {
        match self {
            PopupContent::NotRunning => PopupView::NotRunning,
            PopupContent::NoController => PopupView::NoController,
            PopupContent::Devices(devices) => PopupView::Devices(info_views(devices@)),
        }
    }
}

impl PopupContent {
    /// The message that stands in the place of devices.
    pub fn message(&self) -> (r: Option<&'static str>)
        ensures
            match r {
                Some(message) => {
                    ||| self is NotRunning && message@ == "steambatteryd is not running"@
                    ||| self is NoController && message@ == "No Steam Controller detected"@
                },
                None => self is Devices,
            },
    {
        match self {
            PopupContent::NotRunning => Some("steambatteryd is not running"),
            PopupContent::NoController => Some("No Steam Controller detected"),
            PopupContent::Devices(_) => None,
        }
    }
}

/// The devices worth showing: slots that have never seen a controller are
/// noise.
pub open spec fn interesting(devices: Seq<DeviceInfoView>) -> Seq<DeviceInfoView> {
    devices.filter(|d: DeviceInfoView| d.connected || has_data(d))
}

/// What the popup holds.
pub open spec fn popup_of(state: Option<Seq<DeviceInfoView>>) -> PopupView {
    match state {
        Some(devices) => if interesting(devices).len() == 0 {
            PopupView::NoController
        } else {
            PopupView::Devices(interesting(devices))
        },
        None => PopupView::NotRunning,
    }
}

/// The applet's window.
pub struct Window {
    /// The number of the popup that is open.
    pub popup: Option<u64>,
    /// `None` until the first message or while the daemon is unreachable.
    pub state: State,
}

/// The model of the window.
#[verifier::ext_equal]
pub struct WindowView {
    pub popup: Option<u64>,
    pub state: Option<Seq<DeviceInfoView>>,
}

impl View for Window {
    type V = WindowView;

    open spec fn view(&self) -> WindowView {
        WindowView { popup: self.popup, state: state_view(self.state) }
    }
}

/// The window after a message, and what it asks of the shell; `fresh` is the
/// number of a popup that it may open.
pub open spec fn updated(w: WindowView, message: Message, fresh: u64) -> (WindowView, Effect) {
    match message {
        Message::TogglePopup => match w.popup {
            Some(p) => (WindowView { popup: None, ..w }, Effect::DestroyPopup(p)),
            None => (WindowView { popup: Some(fresh), ..w }, Effect::OpenPopup(fresh)),
        },
        Message::CloseRequested(id) => (
            WindowView {
                popup: if w.popup == Some(id) {
                    None
                } else {
                    w.popup
                },
                ..w
            },
            Effect::Nothing,
        ),
        Message::State(state) => (
            WindowView { state: state_view(state), ..w },
            Effect::Nothing,
        ),
        Message::Tick => (w, Effect::Nothing),
    }
}

impl Window {
    /// A window that knows nothing yet.
    pub fn new() -> (r: Self)
        ensures
            r@ == (WindowView { popup: None, state: None }),
    {
        Window { popup: None, state: None }
    }

    /// The device shown in the panel: prefer a connected one, fall back to
    /// anything with battery data (last known value while asleep).
    pub fn primary(&self) -> (r: Option<&DeviceInfo>)
        ensures
            match r {
                Some(d) => primary_of(self@.state) == Some(d@),
                None => primary_of(self@.state) is None,
            },
    {
        let devices = match &self.state {
            Some(devices) => devices,
            None => return None,
        };
        let ghost all = info_views(devices@);
        let ghost awake = |d: DeviceInfoView| d.connected && has_data(d);
        let ghost known = |d: DeviceInfoView| has_data(d);
        let mut fallback: Option<&DeviceInfo> = None;
        let mut i: usize = 0;
        assert(all.take(0) =~= Seq::empty());
        while i < devices.len()
            invariant
                self@.state == Some(all),
                all == info_views(devices@),
                awake == (|d: DeviceInfoView| d.connected && has_data(d)),
                known == (|d: DeviceInfoView| has_data(d)),
                i <= devices@.len(),
                first_where(all.take(i as int), awake) is None,
                match fallback {
                    Some(d) => first_where(all.take(i as int), known) == Some(d@),
                    None => first_where(all.take(i as int), known) is None,
                },
            decreases devices@.len() - i,
        {
            let d = &devices[i];
            proof {
                assert(all.take(i + 1).drop_last() =~= all.take(i as int));
                assert(all.take(i + 1).last() == d@);
            }
            if d.connected && d.has_battery_data() {
                proof {
                    lemma_first_stays(all, i + 1, awake);
                }
                return Some(d);
            }
            if fallback.is_none() && d.has_battery_data() {
                fallback = Some(d);
            }
            i = i + 1;
        }
        assert(all.take(i as int) =~= all);
        fallback
    }

    /// Name of the stock `battery-level-*` icon for the current state.
    pub fn battery_icon(&self) -> (r: String)
        ensures
            r@ == icon_text(primary_of(self@.state)),
    {
        let dev = match self.primary() {
            Some(dev) => dev,
            None => return "battery-missing-symbolic".to_owned(),
        };
        // Round to the nearest icon step (0, 10, .., 100).
        let capped: u64 = if dev.level < 100 {
            dev.level as u64
        } else {
            100
        };
        let level: u64 = (capped + 5) / 10 * 10;
        let plugged: bool = dev.charging() || ChargeState::from(dev.charge_state)
            == ChargeState::ChargingDone;
        let suffix: &'static str = if !plugged {
            ""
        } else if level == 100 {
            "-charged"
        } else {
            "-charging"
        };
        let mut s: String = "battery-level-".to_owned();
        push_decimal(&mut s, level);
        s.append(suffix);
        s.append("-symbolic");
        s
    }

    /// What the popup holds.
    pub fn popup_content(&self) -> (r: PopupContent)
        ensures
            r@ == popup_of(self@.state),
    {
        let devices = match &self.state {
            Some(devices) => devices,
            None => return PopupContent::NotRunning,
        };
        let ghost all = info_views(devices@);
        let ghost p = |d: DeviceInfoView| d.connected || has_data(d);
        let mut shown: Vec<DeviceInfo> = Vec::new();
        let mut i: usize = 0;
        proof {
            reveal(Seq::filter);
            assert(all.take(0) =~= Seq::empty());
            assert(info_views(shown@) =~= all.take(0).filter(p));
        }
        while i < devices.len()
            invariant
                all == info_views(devices@),
                p == (|d: DeviceInfoView| d.connected || has_data(d)),
                i <= devices@.len(),
                info_views(shown@) == all.take(i as int).filter(p),
            decreases devices@.len() - i,
        {
            let d = &devices[i];
            let ghost before = info_views(shown@);
            proof {
                reveal(Seq::filter);
                assert(all.take(i + 1).drop_last() =~= all.take(i as int));
                assert(all.take(i + 1).last() == d@);
            }
            if d.connected || d.has_battery_data() {
                shown.push(d.clone());
                assert(info_views(shown@) =~= before.push(d@));
            }
            i = i + 1;
        }
        assert(all.take(i as int) =~= all);
        assert(info_views(shown@).len() == shown@.len());
        if shown.len() == 0 {
            PopupContent::NoController
        } else {
            PopupContent::Devices(shown)
        }
    }

    /// Whether the window has to be drawn anew every `TICK`.
    pub fn ticks(&self) -> (r: bool)
        ensures
            r == (self@.popup is Some),
    {
        self.popup.is_some()
    }

    /// Takes in a message and says what to ask of the shell; `fresh` is the
    /// number of a popup that may be opened.
    pub fn update(&mut self, message: Message, fresh: u64) -> (effect: Effect)
        ensures
            (final(self)@, effect) == updated(old(self)@, message, fresh),
    {
        match message {
            Message::TogglePopup => match self.popup.take() {
                Some(p) => Effect::DestroyPopup(p),
                None => {
                    self.popup = Some(fresh);
                    Effect::OpenPopup(fresh)
                },
            },
            Message::CloseRequested(id) => {
                if self.popup == Some(id) {
                    self.popup = None;
                }
                Effect::Nothing
            },
            Message::State(state) => {
                self.state = state;
                Effect::Nothing
            },
            Message::Tick => Effect::Nothing,
        }
    }
}

/// The first one stays the first when more follow.
proof fn lemma_first_stays(
    devices: Seq<DeviceInfoView>,
    n: int,
    p: spec_fn(DeviceInfoView) -> bool,
)
    requires
        0 <= n <= devices.len(),
        first_where(devices.take(n), p) is Some,
    ensures
        first_where(devices, p) == first_where(devices.take(n), p),
    decreases devices.len(),
{
    if n == devices.len() {
        assert(devices.take(n) =~= devices);
    } else {
        assert(devices.drop_last().take(n) =~= devices.take(n));
        lemma_first_stays(devices.drop_last(), n, p);
    }
}

/// What happened on the bus while the applet waited.
#[derive(Debug, Clone, Copy, PartialEq, Eq, Structural)]
pub enum BusEvent {
    /// A `PropertiesChanged` below the daemon's root.
    PropertiesChanged,
    /// The stream of these signals ended: the connection died.
    SignalsEnded,
    /// The daemon started or stopped.
    OwnerChanged,
    /// Nothing for `REFRESH`.
    Timeout,
}

/// What the applet does next.
#[derive(Debug, Clone, Copy, PartialEq, Eq, Structural)]
pub enum BusStep {
    /// Fetch the state of all devices.
    Fetch,
    /// Wait for `DEBOUNCE`, drop the signals that came by then, and fetch.
    DebounceThenFetch,
    /// Connect from scratch.
    Reconnect,
}

/// What to do about an event on the bus.
pub fn on_bus_event(event: BusEvent) -> (r: BusStep)
    ensures
        r == BusStep::Reconnect <==> event == BusEvent::SignalsEnded,
        r == BusStep::DebounceThenFetch <==> event == BusEvent::PropertiesChanged,
        r == BusStep::Fetch <==> event == BusEvent::OwnerChanged || event == BusEvent::Timeout,
{
    match event {
        BusEvent::SignalsEnded => BusStep::Reconnect,
        BusEvent::PropertiesChanged => BusStep::DebounceThenFetch,
        BusEvent::OwnerChanged | BusEvent::Timeout => BusStep::Fetch,
    }
}

/// As long as a connected device with battery data is there, a connected one
/// is shown; a device without battery data never is.
pub proof fn panel_prefers_connected(devices: Seq<DeviceInfoView>)
    ensures
        match primary_of(Some(devices)) {
            Some(d) => {
                &&& devices.contains(d)
                &&& has_data(d)
                &&& !d.connected ==> forall|i: int|
                    0 <= i < devices.len() ==> !((#[trigger] devices[i]).connected && has_data(
                        devices[i],
                    ))
            },
            None => forall|i: int| 0 <= i < devices.len() ==> !has_data(#[trigger] devices[i]),
        },
{
    first_where_is_exact(devices, |d: DeviceInfoView| d.connected && has_data(d));
    first_where_is_exact(devices, |d: DeviceInfoView| has_data(d));
}

proof fn first_where_is_exact(
    devices: Seq<DeviceInfoView>,
    p: spec_fn(DeviceInfoView) -> bool,
)
    ensures
        match first_where(devices, p) {
            Some(d) => devices.contains(d) && p(d),
            None => forall|i: int| 0 <= i < devices.len() ==> !p(#[trigger] devices[i]),
        },
    decreases devices.len(),
{
    if devices.len() > 0 {
        let shorter = devices.drop_last();
        first_where_is_exact(shorter, p);
        match first_where(shorter, p) {
            Some(d) => {
                let i = choose|i: int| 0 <= i < shorter.len() && shorter[i] == d;
                assert(devices[i] == d);
            },
            None => {
                assert forall|i: int| 0 <= i < devices.len() && !p(devices.last()) implies !p(
                    #[trigger] devices[i],
                ) by {
                    if i < shorter.len() {
                        assert(shorter[i] == devices[i]);
                    }
                }
                assert(devices[devices.len() - 1] == devices.last());
            },
        }
    }
}

/// Every level has an icon step of the stock icons, which is off by at most 5.
pub proof fn icon_step_is_near(level: u8)
    requires
        level <= 100,
    ensures
        icon_step(level) % 10 == 0,
        icon_step(level) <= 100,
        level - 5 <= icon_step(level) <= level + 5,
{
}

/// Toggling twice leaves no popup if there was none, and a fresh one if there
/// was one; what is known of the devices stays.
pub proof fn toggling_twice(w: WindowView, a: u64, b: u64)
    ensures
        ({
            let once = updated(w, Message::TogglePopup, a).0;
            let twice = updated(once, Message::TogglePopup, b).0;
            &&& once.popup is Some <==> w.popup is None
            &&& twice.popup is Some <==> w.popup is Some
            &&& twice.state == w.state
        }),
{
}

/// The panel shows the first connected device with battery data; without one
/// the first device with battery data; without that none.
pub proof fn panel_shows_the_first(devices: Seq<DeviceInfoView>, i: int)
    requires
        0 <= i < devices.len(),
        devices[i].level != 255,
        forall|j: int|
            0 <= j < i ==> (#[trigger] devices[j]).level == 255 || (devices[i].connected
                && !devices[j].connected),
        devices[i].connected || forall|j: int|
            0 <= j < devices.len() ==> !((#[trigger] devices[j]).connected && devices[j].level
                != 255),
    ensures
        primary_of(Some(devices)) == Some(devices[i]),
        primary_of(None) is None,
{
    let awake = |d: DeviceInfoView| d.connected && has_data(d);
    let known = |d: DeviceInfoView| has_data(d);
    if devices[i].connected {
        first_where_is_first(devices, awake, i);
    } else {
        first_where_is_exact(devices, awake);
        first_where_is_first(devices, known, i);
    }
}

proof fn first_where_is_first(
    devices: Seq<DeviceInfoView>,
    p: spec_fn(DeviceInfoView) -> bool,
    i: int,
)
    requires
        0 <= i < devices.len(),
        p(devices[i]),
        forall|j: int| 0 <= j < i ==> !p(#[trigger] devices[j]),
    ensures
        first_where(devices, p) == Some(devices[i]),
    decreases devices.len(),
{
    let shorter = devices.drop_last();
    if i < shorter.len() {
        assert(shorter[i] == devices[i]);
        assert forall|j: int| 0 <= j < i implies !p(#[trigger] shorter[j]) by {
            assert(shorter[j] == devices[j]);
        }
        first_where_is_first(shorter, p, i);
    } else {
        first_where_is_exact(shorter, p);
        match first_where(shorter, p) {
            Some(d) => {
                let j = choose|j: int| 0 <= j < shorter.len() && shorter[j] == d;
                assert(!p(devices[j]));
            },
            None => {},
        }
    }
}

/// A device has battery data unless its level is unknown.
pub proof fn data_means_a_level(d: DeviceInfoView)
    ensures
        has_data(d) <==> d.level != 255,
{
}

/// `places` are the places of `devices` at which a connected device or one with
/// battery data stands, all of them and in their order.
pub open spec fn are_the_shown_places(places: Seq<int>, devices: Seq<DeviceInfoView>) -> bool {
    &&& forall|a: int, b: int|
        0 <= a < b < places.len() ==> #[trigger] places[a] < #[trigger] places[b]
    &&& forall|a: int| 0 <= a < places.len() ==> 0 <= #[trigger] places[a] < devices.len()
    &&& forall|i: int|
        0 <= i < devices.len() ==> (places.contains(i) <==> (#[trigger] devices[i]).connected
            || devices[i].level != 255)
}

proof fn shown_places(devices: Seq<DeviceInfoView>) -> (places: Seq<int>)
    ensures
        are_the_shown_places(places, devices),
        places.len() == interesting(devices).len(),
        forall|a: int|
            0 <= a < places.len() ==> interesting(devices)[a] == devices[#[trigger] places[a]],
    decreases devices.len(),
{
    reveal(Seq::filter);
    if devices.len() == 0 {
        Seq::empty()
    } else {
        let shorter = devices.drop_last();
        let k = devices.len() - 1;
        let before = shown_places(shorter);
        let last = devices.last();
        let places = if last.connected || last.level != 255 {
            before.push(k)
        } else {
            before
        };
        assert forall|i: int| 0 <= i < devices.len() implies (places.contains(i) <==> (
        #[trigger] devices[i]).connected || devices[i].level != 255) by {
            if i < k {
                assert(shorter[i] == devices[i]);
                if before.contains(i) {
                    let a = choose|a: int| 0 <= a < before.len() && before[a] == i;
                    assert(places[a] == i);
                }
                if places.contains(i) {
                    let a = choose|a: int| 0 <= a < places.len() && places[a] == i;
                    assert(before[a] == i);
                }
            } else {
                if last.connected || last.level != 255 {
                    assert(places[before.len() as int] == k);
                } else if places.contains(k) {
                    let a = choose|a: int| 0 <= a < places.len() && places[a] == k;
                    assert(before[a] < shorter.len());
                }
            }
        }
        assert forall|a: int| 0 <= a < places.len() implies interesting(devices)[a]
            == devices[#[trigger] places[a]] by {
            if a < before.len() {
                assert(interesting(shorter)[a] == shorter[before[a]]);
            }
        }
        places
    }
}

/// The popup lists every device that is connected or has battery data, also one
/// that is both, in their order, and leaves out only those that are neither. It
/// says that there is no controller only if every device is neither, and that
/// the daemon is not running only if nothing is known.
pub proof fn popup_lists_every_controller(devices: Seq<DeviceInfoView>)
    ensures
        popup_of(None) is NotRunning,
        popup_of(Some(devices)) is NoController <==> forall|i: int|
            0 <= i < devices.len() ==> !(#[trigger] devices[i]).connected && devices[i].level
                == 255,
        !(popup_of(Some(devices)) is NoController) ==> (popup_of(Some(devices))
            matches PopupView::Devices(listed) && exists|places: Seq<int>| #[trigger]
            are_the_shown_places(places, devices) && listed.len() == places.len() && forall|a: int|
                0 <= a < places.len() ==> listed[a] == devices[#[trigger] places[a]]),
{
    let places = shown_places(devices);
    if interesting(devices).len() == 0 {
        assert forall|i: int| 0 <= i < devices.len() implies !(#[trigger] devices[i]).connected
            && devices[i].level == 255 by {
            assert(!places.contains(i));
        }
    } else {
        assert(0 <= places[0] < devices.len());
        assert(places.contains(places[0]));
        assert(devices[places[0]].connected || devices[places[0]].level != 255);
    }
}

/// The icon of a device: the level rounded to the nearest ten, halves up and
/// never above 100; a charging or charged device has an icon of its own, which
/// says that it is charged at 100. Without a device it says that there is none.
pub proof fn icons_show_level_and_charging(d: DeviceInfoView, step: nat)
    requires
        step % 10 == 0,
        step <= 100,
        d.level <= 100 ==> step <= d.level + 5 && d.level < step + 5,
        d.level > 100 ==> step == 100,
    ensures
        ({
            let plugged = d.charge_state == 2 || d.charge_state == 3 || d.charge_state == 4;
            let name = "battery-level-"@ + text::decimal(step);
            &&& !plugged ==> icon_text(Some(d)) == name + "-symbolic"@
            &&& plugged && step == 100 ==> icon_text(Some(d)) == name + "-charged"@ + "-symbolic"@
            &&& plugged && step < 100 ==> icon_text(Some(d)) == name + "-charging"@ + "-symbolic"@
            &&& icon_text(None) == "battery-missing-symbolic"@
        }),
{
    reveal_strlit("");
    assert(icon_step(d.level) == step);
    let name = "battery-level-"@ + text::decimal(step);
    assert(name + ""@ =~= name);
}

/// The badge takes 56 hundredths of the icon, rounded down, but at least 8
/// pixels; of an icon too large to say so, what fits.
pub proof fn badge_is_over_half_the_icon(size: u16)
    ensures
        badge_edge(size) >= 8,
        size * 56 <= 65535 && badge_edge(size) > 8 ==> 100 * badge_edge(size) <= size * 56 < 100
            * badge_edge(size) + 100,
        size * 56 <= 65535 && badge_edge(size) == 8 ==> size * 56 < 900,
        size * 56 > 65535 ==> badge_edge(size) == 655,
{
}

/// A toggle closes the popup that is open and opens a fresh one where none is;
/// a request to close takes away the popup that it names and no other; a new
/// state takes the place of the old one; a tick changes nothing. Nothing else
/// of the window changes, and nothing else is asked of the shell.
pub proof fn messages_do_what_they_say(w: WindowView, id: u64, state: State, fresh: u64)
    ensures
        ({
            let (after, effect) = updated(w, Message::TogglePopup, fresh);
            &&& after.state == w.state
            &&& w.popup is None ==> after.popup == Some(fresh) && effect == Effect::OpenPopup(fresh)
            &&& w.popup matches Some(open) ==> after.popup is None && effect
                == Effect::DestroyPopup(open)
        }),
        ({
            let (after, effect) = updated(w, Message::CloseRequested(id), fresh);
            &&& after.state == w.state
            &&& effect == Effect::Nothing
            &&& w.popup == Some(id) ==> after.popup is None
            &&& w.popup != Some(id) ==> after.popup == w.popup
        }),
        ({
            let (after, effect) = updated(w, Message::State(state), fresh);
            &&& after.popup == w.popup
            &&& effect == Effect::Nothing
            &&& state is None <==> after.state is None
            &&& state matches Some(devices) ==> after.state->0.len() == devices@.len() && forall|
                i: int,
            |
                0 <= i < devices@.len() ==> #[trigger] after.state->0[i] == devices@[i]@
        }),
        updated(w, Message::Tick, fresh) == (w, Effect::Nothing),
{
}

/// The models of the window and of the popup show all that these hold.
pub proof fn window_model_is_faithful(w: Window, content: PopupContent)
    ensures
        w@.popup == w.popup,
        w.state is None <==> w@.state is None,
        w.state matches Some(devices) ==> w@.state->0.len() == devices@.len() && forall|i: int|
            0 <= i < devices@.len() ==> #[trigger] w@.state->0[i] == devices@[i]@,
        content is NotRunning <==> content@ is NotRunning,
        content is NoController <==> content@ is NoController,
        content matches PopupContent::Devices(devices) ==> (content@ matches PopupView::Devices(
            shown,
        ) && shown.len() == devices@.len() && forall|i: int|
            0 <= i < devices@.len() ==> #[trigger] shown[i] == devices@[i]@),
{
}

/// The popup is drawn anew every 5 seconds; signals are gathered for 0.3
/// seconds; without any the state is fetched every 30 seconds; a lost
/// connection is tried again after 5.
pub proof fn intervals_are_in_proportion()
    ensures
        TICK == 5_000_000_000,
        DEBOUNCE == 300_000_000,
        REFRESH == 6 * TICK,
        RECONNECT == TICK,
        DEBOUNCE < TICK < REFRESH,
{
}

} // verus!
