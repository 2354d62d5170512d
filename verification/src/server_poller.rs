//! Decisions of the server's pollers: the registry of running pollers (so a
//! poller can be stopped, e.g. on rename) and the "simulate on battery"
//! override. The polling threads themselves are run by the caller.

use vstd::prelude::*;
use crate::server_state::StatusTable;
use crate::status::{PowerState, UpsStatus, UpsStatusView, now_millis};

verus! {

/// Stop flags of the running pollers, keyed by UPS id. The flag type is the
/// caller's (a shared atomic boolean). The flags are kept in a vector with
/// distinct ids rather than in vstd's `StringHashMap`, whose `remove` does
/// not hand the removed value back (stopping a poller must return its
/// flag), or `HashMapWithView`, whose constructor needs a key model that
/// vstd does not give for `String`.
pub struct PollerHandles<F> {
    entries: Vec<(String, F)>,
}

impl<F> PollerHandles<F> {
    /// No id occurs twice.
    pub closed spec fn wf(&self) -> bool {
        forall|i: int, j: int|
            0 <= i < self.entries@.len() && 0 <= j < self.entries@.len() && i != j
                ==> self.entries@[i].0@ != self.entries@[j].0@
    }

    /// Whether a poller for `id` is registered.
    pub closed spec fn has(&self, id: Seq<char>) -> bool {
        exists|k: int| 0 <= k < self.entries@.len() && #[trigger] self.entries@[k].0@ == id
    }

    /// The stop flag registered for `id` (meaningful when `has(id)`).
    pub closed spec fn flag(&self, id: Seq<char>) -> F {
        self.entries@[choose|k: int|
            0 <= k < self.entries@.len() && #[trigger] self.entries@[k].0@ == id].1
    }

    proof fn lemma_flag_at(&self, k: int)
        requires
            self.wf(),
            0 <= k < self.entries@.len(),
        ensures
            self.has(self.entries@[k].0@),
            self.flag(self.entries@[k].0@) == self.entries@[k].1,
    {
        let id = self.entries@[k].0@;
        assert(self.entries@[k].0@ == id);
        let j = choose|j: int| 0 <= j < self.entries@.len() && #[trigger] self.entries@[j].0@ == id;
        assert(j == k);
    }

    /// Position of `id`, if registered.
    fn find(&self, id: &str) -> (r: Option<usize>)
        ensures
            match r {
                Some(k) => k < self.entries@.len() && self.entries@[k as int].0@ == id@,
                None => !self.has(id@),
            },
    {
        let target = String::from_str(id);
        let mut k: usize = 0;
        while k < self.entries.len()
            invariant
                k <= self.entries@.len(),
                target@ == id@,
                forall|j: int| 0 <= j < k ==> (#[trigger] self.entries@[j]).0@ != id@,
            decreases self.entries@.len() - k,
        {
            if self.entries[k].0 == target {
                return Some(k);
            }
            k = k + 1;
        }
        None
    }
}

/// An empty registry.
pub fn new_handles<F>() -> (r: PollerHandles<F>)
    ensures
        r.wf(),
        forall|id: Seq<char>| !r.has(id),
{
    PollerHandles { entries: Vec::new() }
}

/// Register `flag` as the stop flag of the poller for `id`, replacing any
/// flag registered for it before.
pub fn register<F>(handles: &mut PollerHandles<F>, id: &str, flag: F)
    requires
        old(handles).wf(),
    ensures
        final(handles).wf(),
        final(handles).has(id@),
        final(handles).flag(id@) == flag,
        forall|other: Seq<char>|
            other != id@ ==> (final(handles).has(other) == old(handles).has(other) && (old(
                handles,
            ).has(other) ==> final(handles).flag(other) == old(handles).flag(other))),
{
    let ghost old_entries = handles.entries@;
    match handles.find(id) {
        Some(k) => {
            handles.entries.set(k, (String::from_str(id), flag));
            proof {
                handles.lemma_flag_at(k as int);
                assert forall|other: Seq<char>| other != id@ implies (handles.has(other)
                    == old(handles).has(other) && (old(handles).has(other) ==> handles.flag(other)
                    == old(handles).flag(other))) by {
                    if old(handles).has(other) {
                        let j = choose|j: int|
                            0 <= j < old_entries.len() && #[trigger] old_entries[j].0@ == other;
                        old(handles).lemma_flag_at(j);
                        handles.lemma_flag_at(j);
                    }
                    if handles.has(other) {
                        let j = choose|j: int|
                            0 <= j < handles.entries@.len() && #[trigger] handles.entries@[j].0@
                                == other;
                        assert(old_entries[j].0@ == other);
                    }
                }
            }
        },
        None => {
            handles.entries.push((String::from_str(id), flag));
            proof {
                let n = old_entries.len() as int;
                handles.lemma_flag_at(n);
                assert forall|other: Seq<char>| other != id@ implies (handles.has(other)
                    == old(handles).has(other) && (old(handles).has(other) ==> handles.flag(other)
                    == old(handles).flag(other))) by {
                    if old(handles).has(other) {
                        let j = choose|j: int|
                            0 <= j < old_entries.len() && #[trigger] old_entries[j].0@ == other;
                        old(handles).lemma_flag_at(j);
                        handles.lemma_flag_at(j);
                    }
                    if handles.has(other) {
                        let j = choose|j: int|
                            0 <= j < handles.entries@.len() && #[trigger] handles.entries@[j].0@
                                == other;
                        assert(old_entries[j].0@ == other);
                    }
                }
            }
        },
    }
}

/// Signal a running poller to stop: remove its registration and hand back
/// its stop flag, which the caller sets. `None` when no poller is
/// registered for `id`.
pub fn stop_poller<F>(handles: &mut PollerHandles<F>, id: &str) -> (r: Option<F>)
    requires
        old(handles).wf(),
    ensures
        final(handles).wf(),
        !final(handles).has(id@),
        r == (if old(handles).has(id@) {
            Some(old(handles).flag(id@))
        } else {
            None::<F>
        }),
        forall|other: Seq<char>|
            other != id@ ==> (final(handles).has(other) == old(handles).has(other) && (old(
                handles,
            ).has(other) ==> final(handles).flag(other) == old(handles).flag(other))),
{
    let ghost old_entries = handles.entries@;
    match handles.find(id) {
        Some(k) => {
            proof {
                handles.lemma_flag_at(k as int);
            }
            let (_, flag) = handles.entries.remove(k);
            proof {
                let e = handles.entries@;
                assert forall|j: int| 0 <= j < e.len() implies (#[trigger] e[j]).0@ != id@ by {
                    if j < k {
                        assert(e[j] == old_entries[j]);
                    } else {
                        assert(e[j] == old_entries[j + 1]);
                    }
                }
                assert forall|other: Seq<char>| other != id@ implies (handles.has(other)
                    == old(handles).has(other) && (old(handles).has(other) ==> handles.flag(other)
                    == old(handles).flag(other))) by {
                    if old(handles).has(other) {
                        let j = choose|j: int|
                            0 <= j < old_entries.len() && #[trigger] old_entries[j].0@ == other;
                        old(handles).lemma_flag_at(j);
                        let j2 = if j < k {
                            j
                        } else {
                            j - 1
                        };
                        assert(e[j2] == old_entries[j]);
                        handles.lemma_flag_at(j2);
                    }
                    if handles.has(other) {
                        let j = choose|j: int| 0 <= j < e.len() && #[trigger] e[j].0@ == other;
                        if j < k {
                            assert(e[j] == old_entries[j]);
                        } else {
                            assert(e[j] == old_entries[j + 1]);
                        }
                    }
                }
            }
            Some(flag)
        },
        None => None,
    }
}

/// The reading that the "simulate on battery" override produces: the UPS
/// reports on battery, and the battery and runtime drain from the values
/// stored last (1% and 60 s per poll, never below 5% and 300 s, starting
/// from 100% and 1800 s).
pub open spec fn simulated(prev: Option<UpsStatusView>, s: UpsStatusView, now: i64) -> UpsStatusView {
    let pp: Option<u8> = match prev {
        Some(p) => p.battery_pct,
        None => None,
    };
    let pr: Option<u32> = match prev {
        Some(p) => p.runtime_secs,
        None => None,
    };
    let pct: u8 = if pp is Some && pp.unwrap() > 5 {
        (pp.unwrap() - 1) as u8
    } else {
        100
    };
    let runtime: u32 = if pr is Some && pr.unwrap() > 300 {
        (pr.unwrap() - 60) as u32
    } else {
        1800
    };
    UpsStatusView {
        status: PowerState::OnBattery,
        battery_pct: Some(if pct > 5 {
            pct
        } else {
            5
        }),
        runtime_secs: Some(if runtime > 300 {
            runtime
        } else {
            300
        }),
        last_updated: now,
        ..s
    }
}

/// Every simulated reading is on battery with at least 5% and 300 s left,
/// and from one simulated reading to the next the gauge falls by one point
/// and the runtime by 60 s (down to those floors).
pub proof fn lemma_simulation_drains(prev: Option<UpsStatusView>, s: UpsStatusView, now: i64)
    ensures
        simulated(prev, s, now).status == PowerState::OnBattery,
        simulated(prev, s, now).battery_pct.unwrap() >= 5,
        simulated(prev, s, now).runtime_secs.unwrap() >= 300,
        simulated(prev, s, now).id == s.id,
        ({
            let b = prev.unwrap().battery_pct.unwrap();
            prev is Some && prev.unwrap().battery_pct is Some && b > 5 ==> simulated(
                prev,
                s,
                now,
            ).battery_pct == Some((b - 1) as u8)
        }),
        ({
            let r = prev.unwrap().runtime_secs.unwrap();
            prev is Some && prev.unwrap().runtime_secs is Some && r > 300 ==> simulated(
                prev,
                s,
                now,
            ).runtime_secs == Some(
                if r - 60 > 300 {
                    (r - 60) as u32
                } else {
                    300u32
                },
            )
        }),
{
}

/// Apply the global "simulate on battery" override to a fresh reading,
/// stamping simulated readings with `now`. Without the override the
/// reading is returned unchanged.
pub fn apply_simulation_at(state: &StatusTable, simulate: bool, s: UpsStatus, now: i64) -> (r:
    UpsStatus)
    ensures
        r@ == (if simulate {
            simulated(
                if state@.contains_key(s.id@) {
                    Some(state@[s.id@])
                } else {
                    None
                },
                s@,
                now,
            )
        } else {
            s@
        }),
{
    if !simulate {
        return s;
    }
    let (prev_pct, prev_runtime) = match state.get(s.id.as_str()) {
        Some(p) => (p.battery_pct, p.runtime_secs),
        None => (None, None),
    };
    let pct: u8 = match prev_pct {
        Some(p) => if p > 5 {
            p - 1
        } else {
            100
        },
        None => 100,
    };
    let runtime: u32 = match prev_runtime {
        Some(r) => if r > 300 {
            r - 60
        } else {
            1800
        },
        None => 1800,
    };
    let mut s = s;
    s.status = PowerState::OnBattery;
    s.battery_pct = Some(if pct > 5 {
        pct
    } else {
        5
    });
    s.runtime_secs = Some(if runtime > 300 {
        runtime
    } else {
        300
    });
    s.last_updated = now;
    s
}

/// Apply the global "simulate on battery" override to a fresh reading,
/// stamping simulated readings with the current time.
pub fn apply_simulation(state: &StatusTable, simulate: bool, s: UpsStatus) -> (r: UpsStatus)
    ensures
        r@ == (if simulate {
            simulated(
                if state@.contains_key(s.id@) {
                    Some(state@[s.id@])
                } else {
                    None
                },
                s@,
                r.last_updated,
            )
        } else {
            s@
        }),
{
    if simulate {
        apply_simulation_at(state, true, s, now_millis())
    } else {
        s
    }
}

} // verus!
