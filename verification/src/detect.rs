//! Two-tier alert/transition detection for clients: one alert per power
//! transition and one per crossing below the low-battery threshold, never
//! one per poll.

use vstd::prelude::*;
use vstd::hash_map::StringHashMap;
use crate::status::{PowerState, UpsStatus, UpsStatusView};

verus! {

/// What the detector decided for a single UPS on this poll.
#[derive(Debug, Clone, PartialEq, Eq)]
pub enum AlertEvent {
    /// Online -> OnBattery (Tier 1).
    WentOnBattery { id: String },
    /// OnBattery -> Online (recovery, quiet).
    Recovered { id: String },
    /// Crossed below the low-battery threshold while on battery (Tier 2).
    LowBattery { id: String, pct: u8, runtime_secs: Option<u32> },
}

/// The mathematical content of an `AlertEvent`.
pub enum AlertView {
    WentOnBattery { id: Seq<char> },
    Recovered { id: Seq<char> },
    LowBattery { id: Seq<char>, pct: u8, runtime_secs: Option<u32> },
}

impl View for AlertEvent {
    type V = AlertView;

    open spec fn view(&self) -> AlertView {
        match self {
            AlertEvent::WentOnBattery { id } => AlertView::WentOnBattery { id: id@ },
            AlertEvent::Recovered { id } => AlertView::Recovered { id: id@ },
            AlertEvent::LowBattery { id, pct, runtime_secs } => AlertView::LowBattery {
                id: id@,
                pct: *pct,
                runtime_secs: *runtime_secs,
            },
        }
    }
}

/// What the detector remembers of one UPS between polls.
#[derive(Debug, Clone, Copy, PartialEq, Eq, Structural)]
pub struct Prev {
    /// The power state seen on the last poll, if any.
    pub status: Option<PowerState>,
    /// Whether the low-battery alert has fired for the current crossing.
    pub low_alerted: bool,
}

/// The memory of a UPS that has not been seen yet.
pub open spec fn fresh_prev() -> Prev {
    Prev { status: None, low_alerted: false }
}

/// What is remembered of `id` in `m`.
pub open spec fn prev_of(m: Map<Seq<char>, Prev>, id: Seq<char>) -> Prev {
    if m.contains_key(id) {
        m[id]
    } else {
        fresh_prev()
    }
}

/// One observation of a UPS: the alerts it raises, in order, and what is
/// remembered afterwards.
///
/// Online -> OnBattery raises `WentOnBattery`, OnBattery -> Online raises
/// `Recovered`; both re-arm the low-battery alert. While on battery with a
/// known percentage below the threshold, `LowBattery` is raised unless it
/// has already been raised for this crossing; a percentage at or above the
/// threshold re-arms it.
pub open spec fn observe_step(threshold: u8, p: Prev, s: UpsStatusView) -> (Seq<AlertView>, Prev) {
    let (ev1, low1) = match (p.status, s.status) {
        (Some(PowerState::Online), PowerState::OnBattery) => (
            seq![AlertView::WentOnBattery { id: s.id }],
            false,
        ),
        (Some(PowerState::OnBattery), PowerState::Online) => (
            seq![AlertView::Recovered { id: s.id }],
            false,
        ),
        _ => (Seq::<AlertView>::empty(), p.low_alerted),
    };
    let (ev2, low2) = if s.status == PowerState::OnBattery && s.battery_pct.is_some() {
        let pct = s.battery_pct.unwrap();
        let fire = pct < threshold && !low1;
        let low_a = if fire {
            true
        } else {
            low1
        };
        (
            if fire {
                seq![
                    AlertView::LowBattery { id: s.id, pct, runtime_secs: s.runtime_secs },
                ]
            } else {
                Seq::<AlertView>::empty()
            },
            if pct >= threshold {
                false
            } else {
                low_a
            },
        )
    } else {
        (Seq::<AlertView>::empty(), low1)
    };
    (ev1 + ev2, Prev { status: Some(s.status), low_alerted: low2 })
}

/// Tracks per-UPS state across polls so alerts fire once per transition,
/// not every poll.
pub struct TransitionDetector {
    threshold_pct: u8,
    prev: StringHashMap<Prev>,
}

/// The mathematical content of a `TransitionDetector`.
pub struct DetectorView {
    pub threshold_pct: u8,
    pub prev: Map<Seq<char>, Prev>,
}

impl View for TransitionDetector {
    type V = DetectorView;

    closed spec fn view(&self) -> DetectorView {
        DetectorView { threshold_pct: self.threshold_pct, prev: self.prev@ }
    }
}

impl TransitionDetector {
    /// A detector with the given low-battery threshold that has seen
    /// nothing yet.
    pub fn new(threshold_pct: u8) -> (r: Self)
        ensures
            r@.threshold_pct == threshold_pct,
            r@.prev == Map::<Seq<char>, Prev>::empty(),
    {
        TransitionDetector { threshold_pct, prev: StringHashMap::new() }
    }

    /// Feed the latest snapshot for one UPS; get back any alerts to fire.
    pub fn observe(&mut self, s: &UpsStatus) -> (r: Vec<AlertEvent>)
        ensures
            r@.map_values(|e: AlertEvent| e@) == observe_step(
                old(self)@.threshold_pct,
                prev_of(old(self)@.prev, s.id@),
                s@,
            ).0,
            final(self)@.threshold_pct == old(self)@.threshold_pct,
            final(self)@.prev == old(self)@.prev.insert(
                s.id@,
                observe_step(old(self)@.threshold_pct, prev_of(old(self)@.prev, s.id@), s@).1,
            ),
    {
        let entry: Prev = match self.prev.get(s.id.as_str()) {
            Some(p) => *p,
            None => Prev { status: None, low_alerted: false },
        };
        let ghost step = observe_step(self.threshold_pct, entry, s@);
        let mut out: Vec<AlertEvent> = Vec::new();
        let mut low = entry.low_alerted;
        match (entry.status, s.status) {
            (Some(PowerState::Online), PowerState::OnBattery) => {
                out.push(AlertEvent::WentOnBattery { id: s.id.clone() });
                low = false;
            },
            (Some(PowerState::OnBattery), PowerState::Online) => {
                out.push(AlertEvent::Recovered { id: s.id.clone() });
                low = false;
            },
            _ => {},
        }
        let ghost first = out@.map_values(|e: AlertEvent| e@);
        if s.status == PowerState::OnBattery {
            if let Some(p) = s.battery_pct {
                if p < self.threshold_pct && !low {
                    out.push(
                        AlertEvent::LowBattery {
                            id: s.id.clone(),
                            pct: p,
                            runtime_secs: s.runtime_secs,
                        },
                    );
                    low = true;
                }
                if p >= self.threshold_pct {
                    low = false;
                }
            }
        }
        proof {
            assert(out@.map_values(|e: AlertEvent| e@) =~= step.0);
        }
        self.prev.insert(s.id.clone(), Prev { status: Some(s.status), low_alerted: low });
        out
    }
}

/// An unchanged snapshot raises no alert on its next poll: whatever was
/// remembered before, observing the same reading twice in a row makes the
/// second observation silent.
pub proof fn lemma_repeat_observation_is_silent(threshold: u8, p: Prev, s: UpsStatusView)
    ensures
        observe_step(threshold, observe_step(threshold, p, s).1, s).0 == Seq::<AlertView>::empty(),
{
    let p1 = observe_step(threshold, p, s).1;
    assert(observe_step(threshold, p1, s).0 =~= Seq::<AlertView>::empty());
}

/// An `Unknown` reading never raises an alert.
pub proof fn lemma_unknown_is_silent(threshold: u8, p: Prev, s: UpsStatusView)
    requires
        s.status == PowerState::Unknown,
    ensures
        observe_step(threshold, p, s).0 == Seq::<AlertView>::empty(),
{
    assert(observe_step(threshold, p, s).0 =~= Seq::<AlertView>::empty());
}

/// Once a UPS on battery has been seen below the threshold, further readings
/// on battery below the threshold raise nothing: the critical alert fires
/// once per crossing, not every poll.
pub proof fn lemma_low_battery_fires_once(
    threshold: u8,
    p: Prev,
    s1: UpsStatusView,
    s2: UpsStatusView,
)
    requires
        s1.status == PowerState::OnBattery,
        s2.status == PowerState::OnBattery,
        s1.battery_pct matches Some(a) && a < threshold,
        s2.battery_pct matches Some(b) && b < threshold,
    ensures
        observe_step(threshold, observe_step(threshold, p, s1).1, s2).0 == Seq::<AlertView>::empty(),
{
    let p1 = observe_step(threshold, p, s1).1;
    assert(p1.low_alerted);
    assert(observe_step(threshold, p1, s2).0 =~= Seq::<AlertView>::empty());
}

/// The low-battery alert re-arms when the battery climbs back to the
/// threshold while on battery: the next reading on battery below the
/// threshold raises `LowBattery` again.
pub proof fn lemma_low_battery_rearms_above_threshold(
    threshold: u8,
    p: Prev,
    s1: UpsStatusView,
    s2: UpsStatusView,
)
    requires
        s1.status == PowerState::OnBattery,
        s1.battery_pct matches Some(a) && a >= threshold,
        s2.status == PowerState::OnBattery,
        s2.battery_pct matches Some(b) && b < threshold,
    ensures
        observe_step(threshold, observe_step(threshold, p, s1).1, s2).0 == seq![
            AlertView::LowBattery {
                id: s2.id,
                pct: s2.battery_pct.unwrap(),
                runtime_secs: s2.runtime_secs,
            },
        ],
{
    let p1 = observe_step(threshold, p, s1).1;
    assert(!p1.low_alerted);
    assert(observe_step(threshold, p1, s2).0 =~= seq![
        AlertView::LowBattery {
            id: s2.id,
            pct: s2.battery_pct.unwrap(),
            runtime_secs: s2.runtime_secs,
        },
    ]);
}

/// A recovery re-arms the low-battery alert for the next outage: after
/// OnBattery -> Online, an outage that starts below the threshold raises
/// both `WentOnBattery` and `LowBattery`.
pub proof fn lemma_recovery_rearms_low_battery(
    threshold: u8,
    p: Prev,
    s1: UpsStatusView,
    s2: UpsStatusView,
)
    requires
        p.status == Some(PowerState::OnBattery),
        s1.status == PowerState::Online,
        s2.status == PowerState::OnBattery,
        s2.battery_pct matches Some(b) && b < threshold,
    ensures
        observe_step(threshold, p, s1).0 == seq![AlertView::Recovered { id: s1.id }],
        observe_step(threshold, observe_step(threshold, p, s1).1, s2).0 == seq![
            AlertView::WentOnBattery { id: s2.id },
            AlertView::LowBattery {
                id: s2.id,
                pct: s2.battery_pct.unwrap(),
                runtime_secs: s2.runtime_secs,
            },
        ],
{
    let p1 = observe_step(threshold, p, s1).1;
    assert(observe_step(threshold, p, s1).0 =~= seq![AlertView::Recovered { id: s1.id }]);
    assert(observe_step(threshold, p1, s2).0 =~= seq![
        AlertView::WentOnBattery { id: s2.id },
        AlertView::LowBattery {
            id: s2.id,
            pct: s2.battery_pct.unwrap(),
            runtime_secs: s2.runtime_secs,
        },
    ]);
}

/// The Tier-1 alert fires exactly on an Online -> OnBattery transition.
pub proof fn lemma_went_on_battery_iff_transition(threshold: u8, p: Prev, s: UpsStatusView)
    ensures
        (observe_step(threshold, p, s).0.len() > 0 && observe_step(threshold, p, s).0[0]
            == AlertView::WentOnBattery { id: s.id }) <==> (p.status == Some(PowerState::Online)
            && s.status == PowerState::OnBattery),
{
}

/// What a detector made by `TransitionDetector::new(t)` remembers after
/// observing the readings `hs` in turn (each `observe` call inserts the
/// memory of the UPS it was given).
pub open spec fn detector_after(t: u8, hs: Seq<UpsStatusView>) -> Map<Seq<char>, Prev>
    decreases hs.len(),
{
    if hs.len() == 0 {
        Map::empty()
    } else {
        let m = detector_after(t, hs.drop_last());
        let h = hs.last();
        m.insert(h.id, observe_step(t, prev_of(m, h.id), h).1)
    }
}

/// The alerts raised by the `k`-th observation of `hs`.
pub open spec fn events_at(t: u8, hs: Seq<UpsStatusView>, k: int) -> Seq<AlertView> {
    observe_step(t, prev_of(detector_after(t, hs.take(k)), hs[k].id), hs[k]).0
}

/// Whether `evs` holds a `LowBattery` alert.
pub open spec fn has_low(evs: Seq<AlertView>) -> bool {
    exists|i: int| 0 <= i < evs.len() && #[trigger] evs[i] is LowBattery
}

/// Whether `evs` holds a `WentOnBattery` or `Recovered` alert.
pub open spec fn has_transition(evs: Seq<AlertView>) -> bool {
    exists|i: int|
        0 <= i < evs.len() && (#[trigger] evs[i] is WentOnBattery || evs[i] is Recovered)
}

/// Whether the `k`-th observation of `hs` re-arms the low-battery alert of
/// its UPS: it raised a power transition, or it reads on battery at or
/// above the threshold.
pub open spec fn rearms_at(t: u8, hs: Seq<UpsStatusView>, k: int) -> bool {
    has_transition(events_at(t, hs, k)) || (hs[k].status == PowerState::OnBattery
        && hs[k].battery_pct is Some && hs[k].battery_pct.unwrap() >= t)
}

/// Whether a `LowBattery` alert was raised for `id` in `hs` and none of its
/// later observations re-armed it.
pub open spec fn low_alerted_since_rearm(t: u8, hs: Seq<UpsStatusView>, id: Seq<char>) -> bool {
    exists|j: int|
        0 <= j < hs.len() && hs[j].id == id && #[trigger] has_low(events_at(t, hs, j)) && forall|
            k: int,
        |
            j < k < hs.len() && hs[k].id == id ==> !#[trigger] rearms_at(t, hs, k)
}

proof fn lemma_observe_step_facts(t: u8, p: Prev, s: UpsStatusView)
    ensures
        ({
            let (evs, np) = observe_step(t, p, s);
            let trans = (p.status == Some(PowerState::Online) && s.status == PowerState::OnBattery)
                || (p.status == Some(PowerState::OnBattery) && s.status == PowerState::Online);
            let fires = s.status == PowerState::OnBattery && s.battery_pct is Some
                && s.battery_pct.unwrap() < t && (trans || !p.low_alerted);
            &&& has_transition(evs) == trans
            &&& has_low(evs) == fires
            &&& fires ==> evs.last() == AlertView::LowBattery {
                id: s.id,
                pct: s.battery_pct.unwrap(),
                runtime_secs: s.runtime_secs,
            }
            &&& np.low_alerted == (fires || (p.low_alerted && !(trans || (s.status
                == PowerState::OnBattery && s.battery_pct is Some && s.battery_pct.unwrap() >= t))))
        }),
{
    let (evs, np) = observe_step(t, p, s);
    let trans = (p.status == Some(PowerState::Online) && s.status == PowerState::OnBattery) || (
    p.status == Some(PowerState::OnBattery) && s.status == PowerState::Online);
    let fires = s.status == PowerState::OnBattery && s.battery_pct is Some && s.battery_pct.unwrap()
        < t && (trans || !p.low_alerted);
    if trans {
        assert(evs[0] is WentOnBattery || evs[0] is Recovered);
    } else {
        assert forall|i: int| 0 <= i < evs.len() implies !(#[trigger] evs[i] is WentOnBattery
            || evs[i] is Recovered) by {
            assert(evs[i] is LowBattery);
        }
    }
    if fires {
        assert(evs.last() is LowBattery);
    } else {
        assert forall|i: int| 0 <= i < evs.len() implies !(#[trigger] evs[i] is LowBattery) by {
            assert(!(evs[i] is LowBattery));
        }
    }
}

proof fn lemma_events_prefix(t: u8, hs: Seq<UpsStatusView>, h: UpsStatusView, k: int)
    requires
        0 <= k < hs.len(),
    ensures
        events_at(t, hs.push(h), k) == events_at(t, hs, k),
        rearms_at(t, hs.push(h), k) == rearms_at(t, hs, k),
{
    assert(hs.push(h).take(k) =~= hs.take(k));
    assert(hs.push(h)[k] == hs[k]);
}

/// What the detector remembers of a UPS's low-battery alert is exactly
/// whether one was raised for it and not re-armed since.
proof fn lemma_detector_memory(t: u8, hs: Seq<UpsStatusView>, id: Seq<char>)
    ensures
        prev_of(detector_after(t, hs), id).low_alerted == low_alerted_since_rearm(t, hs, id),
    decreases hs.len(),
{
    if hs.len() > 0 {
        let pre = hs.drop_last();
        let h = hs.last();
        let n = pre.len() as int;
        assert(pre.push(h) =~= hs);
        lemma_detector_memory(t, pre, id);
        assert forall|k: int| 0 <= k < n implies events_at(t, hs, k) == events_at(t, pre, k)
            && #[trigger] rearms_at(t, hs, k) == rearms_at(t, pre, k) by {
            lemma_events_prefix(t, pre, h, k);
        }
        assert(hs.take(n) =~= pre);
        assert(hs[n] == h);
        let m = detector_after(t, pre);
        let p = prev_of(m, h.id);
        lemma_observe_step_facts(t, p, h);
        assert(events_at(t, hs, n) == observe_step(t, p, h).0);
        if id != h.id {
            assert(prev_of(detector_after(t, hs), id) == prev_of(m, id));
            if low_alerted_since_rearm(t, hs, id) {
                let j = choose|j: int|
                    0 <= j < hs.len() && hs[j].id == id && #[trigger] has_low(events_at(t, hs, j))
                        && forall|k: int|
                        j < k < hs.len() && hs[k].id == id ==> !#[trigger] rearms_at(t, hs, k);
                assert(j < n);
                assert(pre[j] == hs[j]);
                assert forall|k: int| j < k < pre.len() && pre[k].id == id implies !#[trigger] rearms_at(
                    t,
                    pre,
                    k,
                ) by {
                    assert(pre[k] == hs[k]);
                    lemma_events_prefix(t, pre, h, k);
                }
                lemma_events_prefix(t, pre, h, j);
                assert(has_low(events_at(t, pre, j)));
            }
            if low_alerted_since_rearm(t, pre, id) {
                let j = choose|j: int|
                    0 <= j < pre.len() && pre[j].id == id && #[trigger] has_low(events_at(t, pre, j))
                        && forall|k: int|
                        j < k < pre.len() && pre[k].id == id ==> !#[trigger] rearms_at(t, pre, k);
                assert(hs[j] == pre[j]);
                assert forall|k: int| j < k < hs.len() && hs[k].id == id implies !#[trigger] rearms_at(
                    t,
                    hs,
                    k,
                ) by {
                    if k < n {
                        assert(pre[k] == hs[k]);
                        lemma_events_prefix(t, pre, h, k);
                    lemma_events_prefix(t, pre, h, k);
                    }
                }
                lemma_events_prefix(t, pre, h, j);
                assert(has_low(events_at(t, hs, j)));
            }
        } else {
            let evs = events_at(t, hs, n);
            let rearm_n = rearms_at(t, hs, n);
            assert(prev_of(detector_after(t, hs), id) == observe_step(t, p, h).1);
            // low now == fired at n, or low before and not re-armed at n
            if low_alerted_since_rearm(t, hs, id) {
                let j = choose|j: int|
                    0 <= j < hs.len() && hs[j].id == id && #[trigger] has_low(events_at(t, hs, j))
                        && forall|k: int|
                        j < k < hs.len() && hs[k].id == id ==> !#[trigger] rearms_at(t, hs, k);
                if j < n {
                    assert(!rearms_at(t, hs, n));
                    assert(pre[j] == hs[j]);
                    assert forall|k: int|
                        j < k < pre.len() && pre[k].id == id implies !#[trigger] rearms_at(t, pre, k) by {
                        assert(pre[k] == hs[k]);
                        lemma_events_prefix(t, pre, h, k);
                    lemma_events_prefix(t, pre, h, k);
                    }
                    lemma_events_prefix(t, pre, h, j);
                assert(has_low(events_at(t, pre, j)));
                    assert(low_alerted_since_rearm(t, pre, id));
                }
            }
            if has_low(evs) {
                assert(low_alerted_since_rearm(t, hs, id)) by {
                    assert(hs[n].id == id);
                    assert(has_low(events_at(t, hs, n)));
                }
            } else if low_alerted_since_rearm(t, pre, id) && !rearm_n {
                let j = choose|j: int|
                    0 <= j < pre.len() && pre[j].id == id && #[trigger] has_low(events_at(t, pre, j))
                        && forall|k: int|
                        j < k < pre.len() && pre[k].id == id ==> !#[trigger] rearms_at(t, pre, k);
                assert(hs[j] == pre[j]);
                assert forall|k: int| j < k < hs.len() && hs[k].id == id implies !#[trigger] rearms_at(
                    t,
                    hs,
                    k,
                ) by {
                    if k < n {
                        assert(pre[k] == hs[k]);
                        lemma_events_prefix(t, pre, h, k);
                    lemma_events_prefix(t, pre, h, k);
                    }
                }
                lemma_events_prefix(t, pre, h, j);
                assert(has_low(events_at(t, hs, j)));
            }
        }
    }
}

/// The low-battery rule over a whole history: after a detector made by
/// `new(t)` has observed `hs`, observing `s` raises `LowBattery` exactly
/// when `s` is on battery with a known charge below `t` and either this
/// observation raises a power transition or no `LowBattery` was raised for
/// this UPS since its last re-arm (a transition, or a reading on battery at
/// or above `t`). The alert is then the last one raised, carrying the
/// reading's charge and runtime.
pub proof fn lemma_low_battery_rule(t: u8, hs: Seq<UpsStatusView>, s: UpsStatusView)
    ensures
        ({
            let evs = observe_step(t, prev_of(detector_after(t, hs), s.id), s).0;
            &&& has_low(evs) <==> (s.status == PowerState::OnBattery && s.battery_pct is Some
                && s.battery_pct.unwrap() < t && (has_transition(evs)
                || !low_alerted_since_rearm(t, hs, s.id)))
            &&& has_low(evs) ==> evs.last() == AlertView::LowBattery {
                id: s.id,
                pct: s.battery_pct.unwrap(),
                runtime_secs: s.runtime_secs,
            }
        }),
{
    lemma_detector_memory(t, hs, s.id);
    lemma_observe_step_facts(t, prev_of(detector_after(t, hs), s.id), s);
}

/// A new detector remembers nothing, as after no readings; each `observe`
/// call extends the history by its reading.
pub proof fn lemma_detector_history(t: u8, hs: Seq<UpsStatusView>, s: UpsStatusView)
    ensures
        detector_after(t, Seq::empty()) == Map::<Seq<char>, Prev>::empty(),
        detector_after(t, hs.push(s)) == detector_after(t, hs).insert(
            s.id,
            observe_step(t, prev_of(detector_after(t, hs), s.id), s).1,
        ),
{
    assert(hs.push(s).drop_last() =~= hs);
}

/// The power state of the latest reading of `id` in `hs`, if any.
pub open spec fn last_status(hs: Seq<UpsStatusView>, id: Seq<char>) -> Option<PowerState>
    decreases hs.len(),
{
    if hs.len() == 0 {
        None
    } else if hs.last().id == id {
        Some(hs.last().status)
    } else {
        last_status(hs.drop_last(), id)
    }
}

/// The UPS an alert is about.
pub open spec fn alert_id(a: AlertView) -> Seq<char> {
    match a {
        AlertView::WentOnBattery { id } => id,
        AlertView::Recovered { id } => id,
        AlertView::LowBattery { id, .. } => id,
    }
}

/// The detector remembers, of each UPS, the power state of its latest
/// reading, and a reading of one UPS leaves what it remembers of every
/// other UPS unchanged.
pub proof fn lemma_detector_remembers_last_status(
    t: u8,
    hs: Seq<UpsStatusView>,
    x: UpsStatusView,
    id: Seq<char>,
)
    ensures
        prev_of(detector_after(t, hs), id).status == last_status(hs, id),
        x.id != id ==> prev_of(detector_after(t, hs.push(x)), id) == prev_of(
            detector_after(t, hs),
            id,
        ),
    decreases hs.len(),
{
    assert(hs.push(x).drop_last() =~= hs);
    if hs.len() > 0 {
        lemma_detector_remembers_last_status(t, hs.drop_last(), hs.last(), id);
    }
}

/// The power-transition rule over a whole history: after a detector made
/// by `new(t)` has observed `hs`, observing `s` raises `WentOnBattery`
/// exactly when the latest earlier reading of that UPS was Online and `s`
/// is on battery, and `Recovered` exactly when that reading was on battery
/// and `s` is Online; such an alert comes first. Every alert raised names
/// the UPS of `s`, and at most two are raised.
pub proof fn lemma_transition_rule(t: u8, hs: Seq<UpsStatusView>, s: UpsStatusView)
    ensures
        ({
            let evs = observe_step(t, prev_of(detector_after(t, hs), s.id), s).0;
            let prev = last_status(hs, s.id);
            &&& (exists|i: int| 0 <= i < evs.len() && evs[i] == AlertView::WentOnBattery { id: s.id })
                <==> (prev == Some(PowerState::Online) && s.status == PowerState::OnBattery)
            &&& (exists|i: int| 0 <= i < evs.len() && evs[i] == AlertView::Recovered { id: s.id })
                <==> (prev == Some(PowerState::OnBattery) && s.status == PowerState::Online)
            &&& (prev == Some(PowerState::Online) && s.status == PowerState::OnBattery) ==> evs[0]
                == AlertView::WentOnBattery { id: s.id }
            &&& (prev == Some(PowerState::OnBattery) && s.status == PowerState::Online) ==> evs[0]
                == AlertView::Recovered { id: s.id }
            &&& forall|i: int| 0 <= i < evs.len() ==> alert_id(#[trigger] evs[i]) == s.id
            &&& evs.len() <= 2
        }),
{
    lemma_detector_remembers_last_status(t, hs, s, s.id);
    let p = prev_of(detector_after(t, hs), s.id);
    let evs = observe_step(t, p, s).0;
    let went = p.status == Some(PowerState::Online) && s.status == PowerState::OnBattery;
    let rec = p.status == Some(PowerState::OnBattery) && s.status == PowerState::Online;
    if went {
        assert(evs[0] == AlertView::WentOnBattery { id: s.id });
    }
    if rec {
        assert(evs[0] == AlertView::Recovered { id: s.id });
    }
    assert forall|i: int| 0 <= i < evs.len() implies !(evs[i] == AlertView::WentOnBattery { id: s.id })
        || went by {
        if !went {
            assert(!(evs[i] is WentOnBattery));
        }
    }
    assert forall|i: int| 0 <= i < evs.len() implies !(evs[i] == AlertView::Recovered { id: s.id })
        || rec by {
        if !rec {
            assert(!(evs[i] is Recovered));
        }
    }
}

} // verus!
