//! Decisions of the client's polling loop: when the server counts as
//! unreachable, when that and its recovery are announced, and which poller
//! is current. The loop itself (HTTP, sleeping, toasts) is run by the caller.

use vstd::prelude::*;
use crate::client_config::Config;

verus! {

/// Counts consecutive failed polls.
#[derive(Debug, Clone, Copy, PartialEq, Eq, Structural)]
pub struct PollTracker {
    /// Consecutive failed polls (saturating).
    pub missed: u32,
    /// Whether the server has been announced as unreachable.
    pub was_unreachable: bool,
    /// Consecutive failed polls before the server is considered unreachable.
    pub unreachable_after: u32,
}

/// What the loop must do after one poll.
#[derive(Debug, Clone, Copy, PartialEq, Eq, Structural)]
pub struct PollOutcome {
    /// Announce that the server is reachable again.
    pub server_recovered: bool,
    /// Mark the server unreachable and announce it.
    pub server_unreachable: bool,
}

/// One poll: a success clears the failure count (announcing recovery if the
/// server had been announced unreachable); a failure adds one. Reaching the
/// failure limit while not yet announced marks the server unreachable.
pub open spec fn poll_step(t: PollTracker, ok: bool) -> (PollTracker, PollOutcome) {
    let recovered = ok && t.was_unreachable;
    let missed: u32 = if ok {
        0
    } else if t.missed == u32::MAX {
        u32::MAX
    } else {
        (t.missed + 1) as u32
    };
    let was = if ok {
        false
    } else {
        t.was_unreachable
    };
    let unreachable = missed >= t.unreachable_after && !was;
    (
        PollTracker {
            missed,
            was_unreachable: was || unreachable,
            unreachable_after: t.unreachable_after,
        },
        PollOutcome { server_recovered: recovered, server_unreachable: unreachable },
    )
}

impl PollTracker {
    /// A tracker that has seen no poll yet.
    pub fn new(unreachable_after: u32) -> (r: Self)
        ensures
            r == (PollTracker { missed: 0, was_unreachable: false, unreachable_after }),
    {
        PollTracker { missed: 0, was_unreachable: false, unreachable_after }
    }

    /// Record the result of one poll and say what to announce.
    pub fn record(&mut self, ok: bool) -> (r: PollOutcome)
        ensures
            (*final(self), r) == poll_step(*old(self), ok),
    {
        let mut recovered = false;
        if ok {
            if self.was_unreachable {
                recovered = true;
            }
            self.missed = 0;
            self.was_unreachable = false;
        } else {
            self.missed = self.missed.saturating_add(1);
        }
        let mut unreachable = false;
        if self.missed >= self.unreachable_after && !self.was_unreachable {
            self.was_unreachable = true;
            unreachable = true;
        }
        PollOutcome { server_recovered: recovered, server_unreachable: unreachable }
    }
}

/// The tracker after `n` consecutive failed polls.
pub open spec fn after_failures(t: PollTracker, n: nat) -> PollTracker
    decreases n,
{
    if n == 0 {
        t
    } else {
        poll_step(after_failures(t, (n - 1) as nat), false).0
    }
}

/// From a reachable state with no missed polls, the server is announced
/// unreachable on exactly the `unreachable_after`-th consecutive failed poll
/// (for a limit of at least one), and on no other.
pub proof fn lemma_unreachable_exactly_at_limit(t: PollTracker, n: nat)
    requires
        t.missed == 0,
        !t.was_unreachable,
        t.unreachable_after >= 1,
        1 <= n <= u32::MAX,
    ensures
        poll_step(after_failures(t, (n - 1) as nat), false).1.server_unreachable <==> n
            == t.unreachable_after,
        after_failures(t, n).missed == n,
        after_failures(t, n).unreachable_after == t.unreachable_after,
        after_failures(t, n).was_unreachable <==> n >= t.unreachable_after,
    decreases n,
{
    let prev = after_failures(t, (n - 1) as nat);
    assert(after_failures(t, n) == poll_step(prev, false).0);
    if n > 1 {
        lemma_unreachable_exactly_at_limit(t, (n - 1) as nat);
    } else {
        assert(prev == t);
    }
}

/// Once the server has been announced unreachable, further failed polls
/// announce nothing: the unreachable alert fires once per outage.
pub proof fn lemma_unreachable_announced_once(t: PollTracker)
    requires
        t.was_unreachable,
    ensures
        !poll_step(t, false).1.server_unreachable,
        !poll_step(t, false).1.server_recovered,
        poll_step(t, false).0.was_unreachable,
{
}

/// A successful poll announces recovery exactly when the server had been
/// announced unreachable, and (for a limit of at least one) leaves it
/// reachable with no missed polls.
pub proof fn lemma_success_recovers(t: PollTracker)
    requires
        t.unreachable_after >= 1,
    ensures
        poll_step(t, true).1.server_recovered == t.was_unreachable,
        !poll_step(t, true).1.server_unreachable,
        poll_step(t, true).0.missed == 0,
        !poll_step(t, true).0.was_unreachable,
{
}

/// The tracker after the polls `oks` (true for a success), in turn.
pub open spec fn tracker_after(t: PollTracker, oks: Seq<bool>) -> PollTracker
    decreases oks.len(),
{
    if oks.len() == 0 {
        t
    } else {
        poll_step(tracker_after(t, oks.drop_last()), oks.last()).0
    }
}

/// How many polls at the end of `oks` failed in a row.
pub open spec fn failure_run(oks: Seq<bool>) -> nat
    decreases oks.len(),
{
    if oks.len() == 0 || oks.last() {
        0
    } else {
        failure_run(oks.drop_last()) + 1
    }
}

proof fn lemma_tracker_after(n: u32, oks: Seq<bool>)
    requires
        n >= 1,
    ensures
        ({
            let tr = tracker_after(PollTracker { missed: 0, was_unreachable: false, unreachable_after: n }, oks);
            &&& tr.unreachable_after == n
            &&& tr.missed == (if failure_run(oks) < u32::MAX { failure_run(oks) } else { u32::MAX as nat })
            &&& tr.was_unreachable == (failure_run(oks) >= n)
        }),
    decreases oks.len(),
{
    if oks.len() > 0 {
        lemma_tracker_after(n, oks.drop_last());
    }
}

/// The poll loop's announcements over a whole run, for a limit of at least
/// one: from a new tracker, after the polls `oks` the next poll announces
/// "unreachable" exactly when it fails and makes `unreachable_after`
/// failures in a row (so once per outage), and announces "recovered"
/// exactly when it succeeds after an outage that was announced.
pub proof fn lemma_poll_announcements(n: u32, oks: Seq<bool>, ok: bool)
    requires
        n >= 1,
    ensures
        ({
            let tr = tracker_after(PollTracker { missed: 0, was_unreachable: false, unreachable_after: n }, oks);
            let o = poll_step(tr, ok).1;
            &&& o.server_unreachable <==> !ok && failure_run(oks) + 1 == n
            &&& o.server_recovered <==> ok && failure_run(oks) >= n
        }),
{
    lemma_tracker_after(n, oks);
}

/// Owns the stop flag of the currently running poller (if any) so that it
/// can be replaced when the server settings change. The flag type is the
/// caller's (a shared atomic boolean).
pub struct PollerControl<F> {
    stop: Option<F>,
}

impl<F> PollerControl<F> {
    /// The stop flag of the running poller, if any.
    pub closed spec fn current(&self) -> Option<F> {
        self.stop
    }

    /// No poller running.
    pub fn new() -> (r: Self)
        ensures
            r.current() is None,
    {
        PollerControl { stop: None }
    }

    /// Forget the running poller and hand back its stop flag, which the
    /// caller sets.
    pub fn stop_current(&mut self) -> (r: Option<F>)
        ensures
            r == old(self).current(),
            final(self).current() is None,
    {
        self.stop.take()
    }

    /// Restart polling with the configuration `cfg`: the running poller, if
    /// any, is stopped (its flag is handed back for the caller to set), and
    /// a new one, stopped by `flag`, is started only when `cfg` names a
    /// server. The second result says whether to start it.
    pub fn restart(&mut self, cfg: &Config, flag: F) -> (r: (Option<F>, bool))
        ensures
            r.0 == old(self).current(),
            r.1 == cfg.server_configured(),
            final(self).current() == (if cfg.server_configured() {
                Some(flag)
            } else {
                None
            }),
    {
        let old_flag = self.stop.take();
        if cfg.has_server() {
            self.stop = Some(flag);
            (old_flag, true)
        } else {
            (old_flag, false)
        }
    }
}

} // verus!
