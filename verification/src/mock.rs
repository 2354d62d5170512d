//! Mock UPS source for end-to-end testing without hardware.
//!
//! A unit marked failing goes on battery immediately, then its battery
//! drains 1-3% per tick (faster than reality) so clients' low-battery
//! thresholds are crossed within a minute or two; a healthy unit trickles
//! back up towards full. The load wanders a little so the display changes.

use vstd::prelude::*;
use vstd::hash_set::StringHashSet;
use rand::Rng;
use crate::status::{PowerState, UpsStatus, UpsStatusView, now_millis};
use crate::text::{chars_of, string_from_chars, trim, trim_str};

verus! {

/// A uniformly random integer in `lo..=hi` from the thread-local generator
/// (`rand::thread_rng().gen_range(lo..=hi)`, which panics on an empty
/// range). Only the bounds are stated; the value is random. The generator
/// also panics if the operating system's entropy source cannot be read when
/// it is first seeded, which depends on the machine, not on the arguments.
#[verifier::external_body]
fn random_in(lo: i64, hi: i64) -> (r: i64)
    requires
        lo <= hi,
    ensures
        lo <= r <= hi,
{
    rand::thread_rng().gen_range(lo..=hi)
}

/// One simulated UPS.
pub struct MockUps {
    pub id: String,
    on_battery: bool,
    battery_pct: u8,
    runtime_secs: u32,
    load_pct: u8,
}

/// The mathematical content of a `MockUps`.
pub struct MockView {
    pub id: Seq<char>,
    pub on_battery: bool,
    pub battery_pct: u8,
    pub runtime_secs: u32,
    pub load_pct: u8,
}

impl View for MockUps {
    type V = MockView;

    closed spec fn view(&self) -> MockView {
        MockView {
            id: self.id@,
            on_battery: self.on_battery,
            battery_pct: self.battery_pct,
            runtime_secs: self.runtime_secs,
            load_pct: self.load_pct,
        }
    }
}

/// `a - b`, or 0 when `b > a`.
pub open spec fn sat_sub(a: int, b: int) -> int {
    if a >= b {
        a - b
    } else {
        0
    }
}

/// `x` clamped to `lo..=hi`.
pub open spec fn clamp(x: int, lo: int, hi: int) -> int {
    if x < lo {
        lo
    } else if x > hi {
        hi
    } else {
        x
    }
}

/// One simulation step with battery drain `drain` and load change `wander`:
/// on battery the charge drops by `drain` and the runtime by 120 s (neither
/// below 0); on mains the charge rises by 1 up to 100. The load moves by
/// `wander`, kept within 5..=90.
pub open spec fn tick_state(m: MockView, drain: int, wander: int) -> MockView {
    MockView {
        battery_pct: if m.on_battery {
            sat_sub(m.battery_pct as int, drain) as u8
        } else if m.battery_pct < 100 {
            (m.battery_pct + 1) as u8
        } else {
            m.battery_pct
        },
        runtime_secs: if m.on_battery {
            sat_sub(m.runtime_secs as int, 120) as u32
        } else {
            m.runtime_secs
        },
        load_pct: clamp(m.load_pct + wander, 5, 90) as u8,
        ..m
    }
}

/// The state after running the steps `(drain, wander)` one after another.
pub open spec fn run_ticks(m: MockView, steps: Seq<(int, int)>) -> MockView
    decreases steps.len(),
{
    if steps.len() == 0 {
        m
    } else {
        let prev = run_ticks(m, steps.drop_last());
        tick_state(prev, steps.last().0, steps.last().1)
    }
}

/// A failing unit stays on battery and loses between 1% and 3% of charge
/// per tick until empty, so after `n` ticks it is at most at `100 - n`%
/// when it started full: any threshold below 100% is crossed within
/// `100 - threshold` ticks. A unit on mains never loses charge. The load
/// always stays within 5..=90.
pub proof fn lemma_mock_ticks(m: MockView, steps: Seq<(int, int)>)
    requires
        forall|k: int| 0 <= k < steps.len() ==> 1 <= (#[trigger] steps[k]).0 <= 3,
    ensures
        run_ticks(m, steps).on_battery == m.on_battery,
        run_ticks(m, steps).id == m.id,
        m.on_battery ==> run_ticks(m, steps).battery_pct <= sat_sub(m.battery_pct as int, steps.len() as int),
        m.on_battery ==> run_ticks(m, steps).battery_pct >= sat_sub(m.battery_pct as int, 3 * steps.len() as int),
        !m.on_battery ==> run_ticks(m, steps).battery_pct >= m.battery_pct,
        steps.len() > 0 ==> 5 <= run_ticks(m, steps).load_pct <= 90,
        m.battery_pct <= 100 ==> run_ticks(m, steps).battery_pct <= 100,
    decreases steps.len(),
{
    if steps.len() > 0 {
        let pre = steps.drop_last();
        assert forall|k: int| 0 <= k < pre.len() implies 1 <= (#[trigger] pre[k]).0 <= 3 by {
            assert(pre[k] == steps[k]);
        }
        lemma_mock_ticks(m, pre);
        assert(1 <= steps[steps.len() - 1].0 <= 3);
    }
}

/// What one tick reports, from a unit at `b`% charge and `r` s runtime
/// (as every unit made by `new` and ticked is, at most 100%): a failing
/// unit reports on battery, 1-3 points lower (not below 0) and 120 s less
/// runtime (not below 0); a healthy one reports online, one point higher up
/// to 100, with its runtime unchanged. The next tick starts from the
/// reported values.
pub proof fn lemma_mock_tick_status(m: MockView, drain: int, wander: int, now: i64)
    requires
        1 <= drain <= 3,
        -2 <= wander <= 2,
        m.battery_pct <= 100,
    ensures
        ({
            let n = tick_state(m, drain, wander);
            let s = mock_status(n, now);
            &&& s.id == m.id
            &&& n.id == m.id
            &&& n.on_battery == m.on_battery
            &&& n.battery_pct <= 100
            &&& s.battery_pct == Some(n.battery_pct)
            &&& s.runtime_secs == Some(n.runtime_secs)
            &&& m.on_battery ==> {
                &&& s.status == PowerState::OnBattery
                &&& sat_sub(m.battery_pct as int, 3) <= n.battery_pct <= sat_sub(m.battery_pct as int, 1)
                &&& n.runtime_secs == sat_sub(m.runtime_secs as int, 120)
            }
            &&& !m.on_battery ==> {
                &&& s.status == PowerState::Online
                &&& n.battery_pct == (if m.battery_pct + 1 < 100 { m.battery_pct + 1 } else { 100 })
                &&& n.runtime_secs == m.runtime_secs
            }
        }),
{
}

/// The snapshot a mock unit reports.
pub open spec fn mock_status(m: MockView, now: i64) -> UpsStatusView {
    UpsStatusView {
        id: m.id,
        status: if m.on_battery {
            PowerState::OnBattery
        } else {
            PowerState::Online
        },
        battery_pct: Some(m.battery_pct),
        runtime_secs: Some(m.runtime_secs),
        load_pct: Some(m.load_pct),
        last_updated: now,
    }
}

impl MockUps {
    /// A unit at full charge, 3600 s runtime and 35% load; a failing unit
    /// starts on battery.
    pub fn new(id: &str, failing: bool) -> (r: Self)
        ensures
            r@ == (MockView {
                id: id@,
                on_battery: failing,
                battery_pct: 100,
                runtime_secs: 3600,
                load_pct: 35,
            }),
    {
        MockUps {
            id: String::from_str(id),
            on_battery: failing,
            battery_pct: 100,
            runtime_secs: 3600,
            load_pct: 35,
        }
    }

    /// Advance the simulation one step with the given drain and load change
    /// and return the snapshot, stamped `now`.
    pub fn tick_with(&mut self, drain: u8, wander: i16, now: i64) -> (r: UpsStatus)
        requires
            1 <= drain <= 3,
            -2 <= wander <= 2,
        ensures
            final(self)@ == tick_state(old(self)@, drain as int, wander as int),
            r@ == mock_status(final(self)@, now),
    {
        if self.on_battery {
            self.battery_pct = self.battery_pct.saturating_sub(drain);
            self.runtime_secs = self.runtime_secs.saturating_sub(120);
        } else {
            if self.battery_pct < 100 {
                self.battery_pct = self.battery_pct + 1;
            }
        }
        let load: i16 = self.load_pct as i16 + wander;
        self.load_pct = if load < 5 {
            5
        } else if load > 90 {
            90
        } else {
            load as u8
        };
        UpsStatus {
            id: self.id.clone(),
            status: if self.on_battery {
                PowerState::OnBattery
            } else {
                PowerState::Online
            },
            battery_pct: Some(self.battery_pct),
            runtime_secs: Some(self.runtime_secs),
            load_pct: Some(self.load_pct),
            last_updated: now,
        }
    }

    /// Advance the simulation one tick (drain 1-3%, load change -2..=2, both
    /// random) and return the current snapshot, stamped with the current
    /// time.
    pub fn tick(&mut self) -> (r: UpsStatus)
        ensures
            exists|drain: int, wander: int|
                1 <= drain <= 3 && -2 <= wander <= 2 && final(self)@ == #[trigger] tick_state(
                    old(self)@,
                    drain,
                    wander,
                ),
            r@ == mock_status(final(self)@, r.last_updated),
    {
        let drain = random_in(1, 3) as u8;
        let wander = random_in(-2, 2) as i16;
        let r = self.tick_with(drain, wander, now_millis());
        assert(final(self)@ == tick_state(old(self)@, drain as int, wander as int));
        r
    }
}

/// One mock unit per id, failing exactly when its id is in `failing`.
pub fn build_mock_units(ids: &Vec<String>, failing: &StringHashSet) -> (r: Vec<MockUps>)
    ensures
        r@.len() == ids@.len(),
        forall|k: int|
            0 <= k < ids@.len() ==> (#[trigger] r@[k])@ == (MockView {
                id: ids@[k]@,
                on_battery: failing@.contains(ids@[k]@),
                battery_pct: 100,
                runtime_secs: 3600,
                load_pct: 35,
            }),
{
    let mut out: Vec<MockUps> = Vec::new();
    let mut k: usize = 0;
    while k < ids.len()
        invariant
            k <= ids@.len(),
            out@.len() == k,
            forall|j: int|
                0 <= j < k ==> (#[trigger] out@[j])@ == (MockView {
                    id: ids@[j]@,
                    on_battery: failing@.contains(ids@[j]@),
                    battery_pct: 100,
                    runtime_secs: 3600,
                    load_pct: 35,
                }),
        decreases ids@.len() - k,
    {
        let id = ids[k].as_str();
        let unit = MockUps::new(id, failing.contains(id));
        out.push(unit);
        k = k + 1;
    }
    out
}

/// The pieces of `s` between commas, in order, as `str::split(',')` yields
/// them (empty pieces included; an empty `s` is one empty piece).
pub open spec fn comma_pieces(s: Seq<char>) -> Seq<Seq<char>>
    decreases s.len(),
{
    if s.len() == 0 {
        seq![Seq::empty()]
    } else {
        let p = comma_pieces(s.drop_last());
        if s.last() == ',' {
            p.push(Seq::empty())
        } else {
            p.update(p.len() - 1, p.last().push(s.last()))
        }
    }
}

/// The ids named in a comma-separated list, each without surrounding
/// whitespace.
pub open spec fn id_list(s: Seq<char>) -> Set<Seq<char>> {
    Set::new(
        |x: Seq<char>|
            exists|i: int| 0 <= i < comma_pieces(s).len() && x == trim(#[trigger] comma_pieces(s)[i]),
    )
}

fn trimmed(cs: &Vec<char>) -> (r: String)
    ensures
        r@ == trim(cs@),
{
    let s = string_from_chars(cs, 0, cs.len());
    assert(cs@.subrange(0, cs@.len() as int) =~= cs@);
    trim_str(s.as_str())
}

/// The set of ids in a comma-separated list such as `rack1-a, rack2`.
fn parse_id_list(s: &str) -> (r: StringHashSet)
    ensures
        r@ == id_list(s@),
{
    let cs = chars_of(s);
    let mut set = StringHashSet::new();
    let mut cur: Vec<char> = Vec::new();
    let ghost mut done: Seq<Seq<char>> = Seq::empty();
    let mut k: usize = 0;
    assert(cs@.take(0) =~= Seq::<char>::empty());
    assert(comma_pieces(cs@.take(0)) =~= done.push(cur@));
    while k < cs.len()
        invariant
            k <= cs@.len(),
            cs@ == s@,
            comma_pieces(cs@.take(k as int)) == done.push(cur@),
            forall|x: Seq<char>|
                set@.contains(x) <==> exists|i: int|
                    0 <= i < done.len() && x == trim(#[trigger] done[i]),
        decreases cs@.len() - k,
    {
        let c = cs[k];
        proof {
            assert(cs@.take(k + 1).drop_last() =~= cs@.take(k as int));
            assert(cs@.take(k + 1).last() == c);
        }
        if c == ',' {
            let t = trimmed(&cur);
            let ghost old_set = set@;
            let ghost old_done = done;
            set.insert(t);
            proof {
                done = done.push(cur@);
                assert forall|x: Seq<char>| set@.contains(x) <==> exists|i: int|
                    0 <= i < done.len() && x == trim(#[trigger] done[i]) by {
                    if x == trim(cur@) {
                        assert(done[old_done.len() as int] == cur@);
                    }
                    if exists|i: int| 0 <= i < done.len() && x == trim(#[trigger] done[i]) {
                        let i = choose|i: int| 0 <= i < done.len() && x == trim(#[trigger] done[i]);
                        if i < old_done.len() {
                            assert(old_done[i] == done[i]);
                        }
                    }
                    if old_set.contains(x) {
                        let i = choose|i: int| 0 <= i < old_done.len() && x == trim(#[trigger] old_done[i]);
                        assert(done[i] == old_done[i]);
                    }
                }
            }
            cur = Vec::new();
            proof {
                assert(comma_pieces(cs@.take(k + 1)) =~= done.push(cur@));
            }
        } else {
            cur.push(c);
            proof {
                assert(comma_pieces(cs@.take(k + 1)) =~= done.push(cur@));
            }
        }
        k = k + 1;
    }
    assert(cs@.take(cs@.len() as int) =~= cs@);
    let t = trimmed(&cur);
    let ghost old_set = set@;
    set.insert(t);
    proof {
        let ps = comma_pieces(s@);
        assert(ps == done.push(cur@));
        assert forall|x: Seq<char>| set@.contains(x) <==> id_list(s@).contains(x) by {
            if x == trim(cur@) {
                assert(ps[done.len() as int] == cur@);
            }
            if id_list(s@).contains(x) {
                let i = choose|i: int| 0 <= i < ps.len() && x == trim(#[trigger] ps[i]);
                if i < done.len() {
                    assert(done[i] == ps[i]);
                }
            }
            if old_set.contains(x) {
                let i = choose|i: int| 0 <= i < done.len() && x == trim(#[trigger] done[i]);
                assert(ps[i] == done[i]);
            }
        }
        assert(set@ =~= id_list(s@));
    }
    set
}

/// The units to force on battery in mock mode: the ids listed in the
/// argument of the server's `--mock-fail` option, none without it.
pub fn mock_fail_ids(arg: Option<&str>) -> (r: StringHashSet)
    ensures
        r@ == match arg {
            Some(s) => id_list(s@),
            None => Set::empty(),
        },
{
    match arg {
        Some(s) => parse_id_list(s),
        None => StringHashSet::new(),
    }
}

} // verus!
