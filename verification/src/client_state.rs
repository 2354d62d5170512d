//! Client-side state shared between the polling loop and the status
//! window: connectivity, the time of the last successful poll and the last
//! statuses received. Locking is done by the caller.

use vstd::prelude::*;
use vstd::hash_map::StringHashMap;
use crate::status::{PowerState, UpsStatus, UpsStatusView, now_millis};

verus! {

/// Whether the server answered recently.
#[derive(Debug, Clone, Copy, PartialEq, Eq, Structural)]
pub enum Connectivity {
    Connected,
    Unreachable,
}

/// What the client knows of the server and the UPS units.
#[derive(Debug)]
pub struct ClientState {
    pub connectivity: Connectivity,
    /// When the last successful poll completed, in milliseconds since the
    /// Unix epoch.
    pub last_success: Option<i64>,
    pub statuses: Vec<UpsStatus>,
}

impl Default for ClientState {
    /// Nothing heard from the server yet.
    fn default() -> (r: Self)
        ensures
            r.connectivity == Connectivity::Unreachable,
            r.last_success is None,
            r.statuses@.len() == 0,
    {
        ClientState {
            connectivity: Connectivity::Unreachable,
            last_success: None,
            statuses: Vec::new(),
        }
    }
}

/// Merge a fresh server snapshot taken at `now` into the state, marking
/// connectivity good.
pub fn apply_success_at(state: &mut ClientState, statuses: Vec<UpsStatus>, now: i64)
    ensures
        final(state).statuses@ == statuses@,
        final(state).connectivity == Connectivity::Connected,
        final(state).last_success == Some(now),
{
    state.statuses = statuses;
    state.connectivity = Connectivity::Connected;
    state.last_success = Some(now);
}

/// Merge a fresh server snapshot into the state, marking connectivity good
/// and stamping the current time.
pub fn apply_success(state: &mut ClientState, statuses: Vec<UpsStatus>)
    ensures
        final(state).statuses@ == statuses@,
        final(state).connectivity == Connectivity::Connected,
        final(state).last_success is Some,
{
    apply_success_at(state, statuses, now_millis());
}

/// Record a failed poll: the server becomes unreachable when `unreachable`
/// says so; otherwise nothing changes.
pub fn apply_failure(state: &mut ClientState, unreachable: bool)
    ensures
        final(state).connectivity == (if unreachable {
            Connectivity::Unreachable
        } else {
            old(state).connectivity
        }),
        final(state).last_success == old(state).last_success,
        final(state).statuses@ == old(state).statuses@,
{
    if unreachable {
        state.connectivity = Connectivity::Unreachable;
    }
}

/// The statuses keyed by id; when an id occurs more than once, the later
/// entry wins.
pub open spec fn statuses_by_id(s: Seq<UpsStatusView>) -> Map<Seq<char>, UpsStatusView>
    decreases s.len(),
{
    if s.len() == 0 {
        Map::empty()
    } else {
        statuses_by_id(s.drop_last()).insert(s.last().id, s.last())
    }
}

/// The last statuses in map form, keyed by id.
pub fn by_id(state: &ClientState) -> (r: StringHashMap<UpsStatus>)
    ensures
        r@.map_values(|s: UpsStatus| s@) == statuses_by_id(
            state.statuses@.map_values(|s: UpsStatus| s@),
        ),
{
    let ghost views = state.statuses@.map_values(|s: UpsStatus| s@);
    let mut m: StringHashMap<UpsStatus> = StringHashMap::new();
    let mut k: usize = 0;
    while k < state.statuses.len()
        invariant
            k <= state.statuses@.len(),
            views == state.statuses@.map_values(|s: UpsStatus| s@),
            m@.map_values(|s: UpsStatus| s@) == statuses_by_id(views.take(k as int)),
        decreases state.statuses@.len() - k,
    {
        let s = state.statuses[k].clone();
        proof {
            assert(views.take(k + 1).drop_last() =~= views.take(k as int));
        }
        let ghost before = m@;
        m.insert(s.id.clone(), s);
        assert(m@.map_values(|s: UpsStatus| s@) =~= before.map_values(|s: UpsStatus| s@).insert(
            views[k as int].id,
            views[k as int],
        ));
        k = k + 1;
    }
    assert(views.take(state.statuses@.len() as int) =~= views);
    m
}

/// What the client tray icon shows.
#[derive(Debug, Clone, Copy, PartialEq, Eq, Structural)]
pub enum TrayState {
    /// Connected, all online.
    Healthy,
    /// Connected, some UPS on battery.
    OnBattery,
    /// Cannot reach the server.
    Unreachable,
}

/// Whether some status in `s` is on battery.
pub open spec fn any_on_battery(s: Seq<UpsStatus>) -> bool {
    exists|k: int| 0 <= k < s.len() && #[trigger] s[k].status == PowerState::OnBattery
}

/// The client tray state: unreachable dominates, then any UPS on battery.
pub fn tray_state(cs: &ClientState) -> (r: TrayState)
    ensures
        r == (if cs.connectivity == Connectivity::Unreachable {
            TrayState::Unreachable
        } else if any_on_battery(cs.statuses@) {
            TrayState::OnBattery
        } else {
            TrayState::Healthy
        }),
{
    if cs.connectivity == Connectivity::Unreachable {
        return TrayState::Unreachable;
    }
    let mut k: usize = 0;
    while k < cs.statuses.len()
        invariant
            k <= cs.statuses@.len(),
            cs.connectivity != Connectivity::Unreachable,
            forall|j: int| 0 <= j < k ==> (#[trigger] cs.statuses@[j]).status != PowerState::OnBattery,
        decreases cs.statuses@.len() - k,
    {
        if cs.statuses[k].status == PowerState::OnBattery {
            assert(cs.statuses@[k as int].status == PowerState::OnBattery);
            return TrayState::OnBattery;
        }
        k = k + 1;
    }
    TrayState::Healthy
}

/// The client tray tooltip for a tray state.
pub open spec fn tray_tooltip_text(t: TrayState) -> Seq<char> {
    match t {
        TrayState::Healthy => "UPS Monitor — all online"@,
        TrayState::OnBattery => "UPS Monitor — a UPS is on battery"@,
        TrayState::Unreachable => "UPS Monitor — server unreachable"@,
    }
}

/// The client tray tooltip for a tray state.
pub fn tray_tooltip(t: TrayState) -> (r: String)
    ensures
        r@ == tray_tooltip_text(t),
{
    match t {
        TrayState::Healthy => String::from_str("UPS Monitor — all online"),
        TrayState::OnBattery => String::from_str("UPS Monitor — a UPS is on battery"),
        TrayState::Unreachable => String::from_str("UPS Monitor — server unreachable"),
    }
}

} // verus!
