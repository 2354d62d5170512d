//! The server's cached UPS state: one entry per UPS id, updated by the
//! pollers and read by the API and the status window. Locking is done by
//! the caller.

use vstd::prelude::*;
use vstd::hash_map::StringHashMap;
use crate::server_config::UpsEntry;
use crate::status::{PowerState, UpsStatus, UpsStatusView, now_millis, unknown_status};
use crate::text::{lemma_seq_lt_irreflexive, lemma_seq_lt_total, lemma_seq_lt_transitive, seq_lt, str_less};

verus! {

/// The latest status of every UPS, keyed by id. Ids are also kept in sorted
/// order so that snapshots come out sorted.
pub struct StatusTable {
    ids: Vec<String>,
    map: StringHashMap<UpsStatus>,
}

impl View for StatusTable {
    type V = Map<Seq<char>, UpsStatusView>;

    closed spec fn view(&self) -> Map<Seq<char>, UpsStatusView> {
        Map::new(|id: Seq<char>| self.map@.contains_key(id), |id: Seq<char>| self.map@[id]@)
    }
}

impl StatusTable {
    /// The sorted id list and the map describe the same ids, and every
    /// entry is stored under its own id.
    pub closed spec fn wf(&self) -> bool {
        &&& forall|i: int, j: int|
            0 <= i < j < self.ids@.len() ==> seq_lt(self.ids@[i]@, self.ids@[j]@)
        &&& forall|k: int| 0 <= k < self.ids@.len() ==> self.map@.contains_key(#[trigger] self.ids@[k]@)
        &&& forall|id: Seq<char>|
            self.map@.contains_key(id) ==> exists|k: int|
                0 <= k < self.ids@.len() && #[trigger] self.ids@[k]@ == id
        &&& forall|id: Seq<char>| self.map@.contains_key(id) ==> (#[trigger] self.map@[id])@.id == id
    }

    /// An empty table.
    pub fn new() -> (r: Self)
        ensures
            r.wf(),
            r@ == Map::<Seq<char>, UpsStatusView>::empty(),
    {
        let r = StatusTable { ids: Vec::new(), map: StringHashMap::new() };
        assert(r@ =~= Map::<Seq<char>, UpsStatusView>::empty());
        r
    }

    /// Every stored entry is stored under its own id.
    pub proof fn lemma_entries_keyed_by_id(&self, id: Seq<char>)
        requires
            self.wf(),
            self@.contains_key(id),
        ensures
            self@[id].id == id,
    {
    }

    /// The latest status of `id`, if any.
    pub fn get(&self, id: &str) -> (r: Option<&UpsStatus>)
        ensures
            match r {
                Some(s) => self@.contains_key(id@) && s@ == self@[id@],
                None => !self@.contains_key(id@),
            },
    {
        self.map.get(id)
    }

    /// Drop the entry for `id`, if there is one.
    pub fn remove(&mut self, id: &str)
        requires
            old(self).wf(),
        ensures
            final(self).wf(),
            final(self)@ == old(self)@.remove(id@),
    {
        let n = self.ids.len();
        let target = String::from_str(id);
        let mut k: usize = 0;
        while k < n && self.ids[k] != target
            invariant
                k <= n == self.ids@.len(),
                target@ == id@,
                self.ids@ == old(self).ids@,
                self.map@ == old(self).map@,
                forall|j: int| 0 <= j < k ==> (#[trigger] self.ids@[j])@ != id@,
            decreases n - k,
        {
            k = k + 1;
        }
        if k < n {
            let ghost old_ids = self.ids@;
            let ghost old_map = self.map@;
            assert(old_ids[k as int]@ == id@);
            self.ids.remove(k);
            self.map.remove(id);
            proof {
                let new_ids = self.ids@;
                assert forall|i: int, j: int|
                    0 <= i < j < new_ids.len() implies seq_lt(new_ids[i]@, new_ids[j]@) by {
                    if i < k && j >= k {
                        assert(new_ids[j] == old_ids[j + 1]);
                        assert(new_ids[i] == old_ids[i]);
                    } else if i >= k {
                        assert(new_ids[j] == old_ids[j + 1]);
                        assert(new_ids[i] == old_ids[i + 1]);
                    } else {
                        assert(new_ids[j] == old_ids[j]);
                        assert(new_ids[i] == old_ids[i]);
                    }
                }
                assert forall|j: int| 0 <= j < new_ids.len() implies self.map@.contains_key(
                    #[trigger] new_ids[j]@,
                ) by {
                    let oj = if j < k {
                        j
                    } else {
                        j + 1
                    };
                    assert(new_ids[j] == old_ids[oj]);
                    assert(old_map.contains_key(old_ids[oj]@));
                    if oj < k {
                        assert(seq_lt(old_ids[oj]@, old_ids[k as int]@));
                        lemma_seq_lt_irreflexive(old_ids[oj]@);
                    } else {
                        assert(seq_lt(old_ids[k as int]@, old_ids[oj]@));
                        lemma_seq_lt_irreflexive(old_ids[oj]@);
                    }
                }
                assert forall|key: Seq<char>| self.map@.contains_key(key) implies exists|j: int|
                    0 <= j < new_ids.len() && #[trigger] new_ids[j]@ == key by {
                    let j = choose|j: int| 0 <= j < old_ids.len() && #[trigger] old_ids[j]@ == key;
                    if j < k {
                        assert(new_ids[j] == old_ids[j]);
                    } else {
                        assert(j != k);
                        assert(new_ids[j - 1] == old_ids[j]);
                    }
                }
                assert(self@ =~= old(self)@.remove(id@));
            }
        } else {
            proof {
                if self.map@.contains_key(id@) {
                    let j = choose|j: int| 0 <= j < self.ids@.len() && #[trigger] self.ids@[j]@ == id@;
                }
                assert(self@ =~= old(self)@.remove(id@));
            }
        }
    }

    /// Insert or replace the entry for `status.id`.
    pub fn insert(&mut self, status: UpsStatus)
        requires
            old(self).wf(),
        ensures
            final(self).wf(),
            final(self)@ == old(self)@.insert(status.id@, status@),
    {
        let ghost id = status.id@;
        let ghost mut pos: int = 0;
        if self.map.contains_key(status.id.as_str()) {
            proof {
                pos = choose|k: int| 0 <= k < self.ids@.len() && #[trigger] self.ids@[k]@ == id;
            }
        } else {
            let n = self.ids.len();
            let mut p: usize = 0;
            let mut go = true;
            while go && p < n
                invariant
                    p <= n == self.ids@.len(),
                    self.ids@ == old(self).ids@,
                    id == status.id@,
                    forall|k: int| 0 <= k < p ==> seq_lt(#[trigger] self.ids@[k]@, id),
                    !go ==> p < n && !seq_lt(self.ids@[p as int]@, id),
                decreases n - p, (if go { 1int } else { 0int }),
            {
                let a = self.ids[p].as_str();
                let b = status.id.as_str();
                assert(a@ == self.ids@[p as int]@);
                assert(b@ == id);
                if str_less(a, b) {
                    p = p + 1;
                } else {
                    go = false;
                }
            }
            let ghost old_ids = self.ids@;
            proof {
                if p < n {
                    assert(old_ids[p as int]@ != id);
                    lemma_seq_lt_total(old_ids[p as int]@, id);
                    assert forall|k: int| p <= k < n implies seq_lt(id, #[trigger] old_ids[k]@) by {
                        if k > p {
                            lemma_seq_lt_transitive(id, old_ids[p as int]@, old_ids[k]@);
                        }
                    }
                }
            }
            self.ids.insert(p, status.id.clone());
            proof {
                pos = p as int;
                let new_ids = self.ids@;
                assert forall|i: int, j: int|
                    0 <= i < j < new_ids.len() implies seq_lt(new_ids[i]@, new_ids[j]@) by {
                    if j < p {
                    } else if i < p && j == p {
                    } else if i < p {
                        assert(new_ids[j] == old_ids[j - 1]);
                    } else if i == p {
                        assert(new_ids[j] == old_ids[j - 1]);
                    } else {
                        assert(new_ids[j] == old_ids[j - 1]);
                        assert(new_ids[i] == old_ids[i - 1]);
                    }
                }
            }
        }
        let ghost ids_now = self.ids@;
        let ghost old_map = self.map@;
        self.map.insert(status.id.clone(), status);
        proof {
            assert(0 <= pos < ids_now.len() && ids_now[pos]@ == id);
            assert forall|k: int| 0 <= k < self.ids@.len() implies self.map@.contains_key(
                #[trigger] self.ids@[k]@,
            ) by {
                if self.ids@[k]@ != id {
                    if !old(self).map@.contains_key(id) {
                        if k < pos {
                            assert(self.ids@[k] == old(self).ids@[k]);
                        } else {
                            assert(self.ids@[k] == old(self).ids@[k - 1]);
                        }
                    }
                }
            }
            assert forall|id2: Seq<char>| self.map@.contains_key(id2) implies exists|k: int|
                0 <= k < self.ids@.len() && #[trigger] self.ids@[k]@ == id2 by {
                if id2 != id {
                    assert(old(self).map@.contains_key(id2));
                    let k = choose|k: int|
                        0 <= k < old(self).ids@.len() && #[trigger] old(self).ids@[k]@ == id2;
                    if old(self).map@.contains_key(id) {
                        assert(self.ids@[k]@ == id2);
                    } else {
                        let p = pos;
                        if k < p {
                            assert(self.ids@[k]@ == id2);
                        } else {
                            assert(self.ids@[k + 1]@ == id2);
                        }
                    }
                } else {
                    assert(self.ids@[pos]@ == id2);
                }
            }
            assert(self@ =~= old(self)@.insert(status.id@, status@));
        }
    }
}

/// Build the initial state: every configured UPS starts as `Unknown` until
/// its polling task reports in for the first time.
pub fn new_shared_state(ups: &Vec<UpsEntry>) -> (r: StatusTable)
    ensures
        r.wf(),
        forall|id: Seq<char>|
            r@.contains_key(id) <==> exists|k: int| 0 <= k < ups@.len() && #[trigger] ups@[k].id@ == id,
        forall|id: Seq<char>|
            #![trigger r@[id]]
            r@.contains_key(id) ==> {
                &&& r@[id].id == id
                &&& r@[id].status == PowerState::Unknown
                &&& r@[id].battery_pct is None
                &&& r@[id].runtime_secs is None
                &&& r@[id].load_pct is None
            },
{
    let mut t = StatusTable::new();
    let mut k: usize = 0;
    while k < ups.len()
        invariant
            k <= ups@.len(),
            t.wf(),
            forall|id: Seq<char>|
                t@.contains_key(id) <==> exists|j: int| 0 <= j < k && #[trigger] ups@[j].id@ == id,
            forall|id: Seq<char>|
                #![trigger t@[id]]
                t@.contains_key(id) ==> {
                    &&& t@[id].id == id
                    &&& t@[id].status == PowerState::Unknown
                    &&& t@[id].battery_pct is None
                    &&& t@[id].runtime_secs is None
                    &&& t@[id].load_pct is None
                },
        decreases ups@.len() - k,
    {
        let s = UpsStatus::unknown(ups[k].id.as_str());
        let ghost old_t = t@;
        t.insert(s);
        proof {
            assert forall|id: Seq<char>|
                (exists|j: int| 0 <= j < k + 1 && #[trigger] ups@[j].id@ == id) implies t@.contains_key(id) by {
                let j = choose|j: int| 0 <= j < k + 1 && #[trigger] ups@[j].id@ == id;
                if j < k {
                    assert(old_t.contains_key(id));
                }
            }
        }
        k = k + 1;
    }
    t
}

/// Insert/update the status for one UPS.
pub fn update(state: &mut StatusTable, status: UpsStatus)
    requires
        old(state).wf(),
    ensures
        final(state).wf(),
        final(state)@ == old(state)@.insert(status.id@, status@),
{
    state.insert(status);
}

/// Drop the entry of a UPS that is no longer configured.
pub fn remove(state: &mut StatusTable, id: &str)
    requires
        old(state).wf(),
    ensures
        final(state).wf(),
        final(state)@ == old(state)@.remove(id@),
{
    state.remove(id);
}

/// Give a UPS that is configured while running an `Unknown` entry stamped
/// `now`, unless it already has one.
pub fn ensure_entry_at(state: &mut StatusTable, id: &str, now: i64)
    requires
        old(state).wf(),
    ensures
        final(state).wf(),
        final(state)@ == (if old(state)@.contains_key(id@) {
            old(state)@
        } else {
            old(state)@.insert(id@, unknown_status(id@, now))
        }),
{
    if state.get(id).is_none() {
        state.insert(UpsStatus::unknown_at(id, now));
    } else {
        assert(state@ =~= old(state)@);
    }
}

/// Give a UPS that is configured while running an `Unknown` entry stamped
/// with the current time, unless it already has one.
pub fn ensure_entry(state: &mut StatusTable, id: &str)
    requires
        old(state).wf(),
    ensures
        final(state).wf(),
        old(state)@.contains_key(id@) ==> final(state)@ == old(state)@,
        !old(state)@.contains_key(id@) ==> exists|now: i64|
            final(state)@ == old(state)@.insert(id@, #[trigger] unknown_status(id@, now)),
{
    ensure_entry_at(state, id, now_millis());
}

/// Move the entry of `old_id` to `new_id`, relabelled with the new id; a
/// table without an entry for `old_id` is left as it is.
pub fn rename(state: &mut StatusTable, old_id: &str, new_id: &str)
    requires
        old(state).wf(),
    ensures
        final(state).wf(),
        final(state)@ == (if old(state)@.contains_key(old_id@) {
            old(state)@.remove(old_id@).insert(
                new_id@,
                UpsStatusView { id: new_id@, ..old(state)@[old_id@] },
            )
        } else {
            old(state)@
        }),
{
    let moved = match state.get(old_id) {
        Some(s) => Some(
            UpsStatus {
                id: String::from_str(new_id),
                status: s.status,
                battery_pct: s.battery_pct,
                runtime_secs: s.runtime_secs,
                load_pct: s.load_pct,
                last_updated: s.last_updated,
            },
        ),
        None => None,
    };
    match moved {
        Some(s) => {
            state.remove(old_id);
            state.insert(s);
        },
        None => {},
    }
}

/// A snapshot of all current statuses, sorted by id.
pub fn snapshot(state: &StatusTable) -> (r: Vec<UpsStatus>)
    requires
        state.wf(),
    ensures
        is_sorted_snapshot(state@, r@.map_values(|s: UpsStatus| s@)),
{
    let mut out: Vec<UpsStatus> = Vec::new();
    let n = state.ids.len();
    let mut k: usize = 0;
    while k < n
        invariant
            k <= n == state.ids@.len(),
            state.wf(),
            out@.len() == k,
            forall|j: int| 0 <= j < k ==> (#[trigger] out@[j])@ == state.map@[state.ids@[j]@]@,
        decreases n - k,
    {
        let id = &state.ids[k];
        assert(state.map@.contains_key(state.ids@[k as int]@));
        match state.map.get(id.as_str()) {
            Some(s) => {
                out.push(s.clone());
            },
            None => {},
        }
        k = k + 1;
    }
    proof {
        assert forall|k: int| 0 <= k < out@.len() implies #[trigger] out@[k].id@ == state.ids@[k]@ by {
            assert(state.map@.contains_key(state.ids@[k]@));
        }
        assert forall|i: int, j: int| 0 <= i < j < out@.len() implies seq_lt(
            out@[i].id@,
            out@[j].id@,
        ) by {
            assert(out@[i].id@ == state.ids@[i]@);
            assert(out@[j].id@ == state.ids@[j]@);
        }
        assert forall|id: Seq<char>| state@.contains_key(id) implies exists|k: int|
            0 <= k < out@.len() && #[trigger] out@[k].id@ == id by {
            let k = choose|k: int| 0 <= k < state.ids@.len() && #[trigger] state.ids@[k]@ == id;
            assert(out@[k].id@ == id);
        }
        let views = out@.map_values(|s: UpsStatus| s@);
        assert forall|id: Seq<char>| state@.contains_key(id) implies exists|k: int|
            0 <= k < views.len() && #[trigger] views[k].id == id by {
            let k = choose|k: int| 0 <= k < out@.len() && #[trigger] out@[k].id@ == id;
            assert(views[k].id == id);
        }
    }
    out
}

/// `r` lists the entries of `m`, one per id, sorted by id.
pub open spec fn is_sorted_snapshot(m: Map<Seq<char>, UpsStatusView>, r: Seq<UpsStatusView>) -> bool {
    &&& forall|i: int, j: int| 0 <= i < j < r.len() ==> seq_lt(r[i].id, r[j].id)
    &&& forall|k: int| 0 <= k < r.len() ==> m.contains_key(#[trigger] r[k].id) && m[r[k].id] == r[k]
    &&& forall|id: Seq<char>| m.contains_key(id) ==> exists|k: int| 0 <= k < r.len() && #[trigger] r[k].id == id
}

/// What a snapshot taken after `update(s)` gives back: `s` itself, as the
/// only entry for its id, and for every other UPS the entry it had before.
pub proof fn lemma_snapshot_after_update(
    before: Map<Seq<char>, UpsStatusView>,
    s: UpsStatusView,
    r: Seq<UpsStatusView>,
)
    requires
        is_sorted_snapshot(before.insert(s.id, s), r),
    ensures
        exists|k: int| 0 <= k < r.len() && r[k] == s,
        forall|k: int| 0 <= k < r.len() && #[trigger] r[k].id == s.id ==> r[k] == s,
        forall|id: Seq<char>|
            id != s.id && before.contains_key(id) ==> exists|k: int|
                0 <= k < r.len() && #[trigger] r[k] == before[id],
        forall|i: int, j: int| 0 <= i < r.len() && 0 <= j < r.len() && r[i].id == r[j].id ==> i == j,
{
    let after = before.insert(s.id, s);
    assert(after.contains_key(s.id));
    let k0 = choose|k: int| 0 <= k < r.len() && #[trigger] r[k].id == s.id;
    assert(r[k0] == s);
    assert forall|id: Seq<char>|
        id != s.id && before.contains_key(id) implies exists|k: int|
            0 <= k < r.len() && #[trigger] r[k] == before[id] by {
        assert(after.contains_key(id));
        let k = choose|k: int| 0 <= k < r.len() && #[trigger] r[k].id == id;
        assert(r[k] == after[id]);
    }
    assert forall|i: int, j: int|
        0 <= i < r.len() && 0 <= j < r.len() && r[i].id == r[j].id implies i == j by {
        if i < j {
            lemma_seq_lt_irreflexive(r[i].id);
        } else if j < i {
            lemma_seq_lt_irreflexive(r[j].id);
        }
    }
}

} // verus!
