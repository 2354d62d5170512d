//! Decisions behind the server window's UPS management: the id suggested
//! for a newly found unit, validation of new and renamed ids, and the
//! matching edits of the configured unit list. The window itself is drawn
//! by the caller.

use vstd::prelude::*;
use crate::hid::{DiscoveredUps, DiscoveredUpsView};
use crate::server_config::UpsEntry;
use crate::text::{
    alphanumeric, chars_of, is_alphanumeric, lowercase_of, push_char, push_str, to_lowercase, trim,
    trim_str,
};

verus! {

/// `s` with every character that is not alphanumeric replaced by `-`.
pub open spec fn dash_non_alnum(s: Seq<char>) -> Seq<char> {
    Seq::new(s.len(), |i: int| if alphanumeric(s[i]) { s[i] } else { '-' })
}

/// The last (up to) four characters of `s`, in order.
pub open spec fn last_four(s: Seq<char>) -> Seq<char> {
    if s.len() < 4 {
        s
    } else {
        s.subrange(s.len() - 4, s.len() as int)
    }
}

/// The id suggested for a freshly discovered UPS: its product name,
/// trimmed and lowercased, with non-alphanumeric characters turned into
/// `-`; without a product name, `ups-` and a short form of the serial: its
/// last four characters.
pub open spec fn suggested_id(d: DiscoveredUpsView) -> Seq<char> {
    if trim(d.product).len() > 0 {
        dash_non_alnum(lowercase_of(trim(d.product)))
    } else {
        "ups-"@ + last_four(d.serial)
    }
}

/// `s` with every character that is not alphanumeric replaced by `-`.
pub fn dash_non_alphanumeric(s: &str) -> (r: String)
    ensures
        r@ == dash_non_alnum(s@),
{
    let cs = chars_of(s);
    let mut out = String::new();
    let mut k: usize = 0;
    while k < cs.len()
        invariant
            k <= cs@.len(),
            cs@ == s@,
            out@ == dash_non_alnum(cs@).take(k as int),
        decreases cs@.len() - k,
    {
        let c = cs[k];
        if is_alphanumeric(c) {
            push_char(&mut out, c);
        } else {
            push_char(&mut out, '-');
        }
        assert(out@ =~= dash_non_alnum(cs@).take(k + 1));
        k = k + 1;
    }
    assert(dash_non_alnum(cs@).take(cs@.len() as int) =~= dash_non_alnum(cs@));
    out
}

/// Suggest a default id for a freshly discovered UPS from its product name
/// (or fall back to a short form of the serial).
pub fn suggest_id(d: &DiscoveredUps) -> (r: String)
    ensures
        r@ == suggested_id(d@),
{
    let product = trim_str(d.product.as_str());
    if product.as_str().is_empty() == false {
        let lower = to_lowercase(product.as_str());
        dash_non_alphanumeric(lower.as_str())
    } else {
        let cs = chars_of(d.serial.as_str());
        let n = cs.len();
        let take: usize = if n < 4 {
            n
        } else {
            4
        };
        let mut out = String::from_str("ups-");
        let mut k: usize = 0;
        while k < take
            invariant
                k <= take <= n == cs@.len(),
                take == (if n < 4 {
                    n
                } else {
                    4
                }),
                cs@ == d.serial@,
                out@ == "ups-"@ + last_four(cs@).take(k as int),
                last_four(cs@).len() == take,
            decreases take - k,
        {
            assert(last_four(cs@)[k as int] == cs@[n - take + k]);
            push_char(&mut out, cs[n - take + k]);
            assert(out@ =~= "ups-"@ + last_four(cs@).take(k + 1));
            k = k + 1;
        }
        assert(last_four(cs@).take(take as int) =~= last_four(cs@));
        out
    }
}

/// The message shown when an id is empty.
pub open spec fn empty_id_message() -> Seq<char> {
    "Id cannot be empty."@
}

/// The message shown when an id is already taken.
pub open spec fn id_in_use_message(id: Seq<char>) -> Seq<char> {
    "Id \""@ + id + "\" is already in use."@
}

/// Whether some entry of `ids` is `id`.
pub open spec fn id_taken(ids: Seq<String>, id: Seq<char>) -> bool {
    exists|k: int| 0 <= k < ids.len() && #[trigger] ids[k]@ == id
}

fn contains_string(ids: &Vec<String>, id: &String) -> (r: bool)
    ensures
        r == id_taken(ids@, id@),
{
    let mut k: usize = 0;
    while k < ids.len()
        invariant
            k <= ids@.len(),
            forall|j: int| 0 <= j < k ==> (#[trigger] ids@[j])@ != id@,
        decreases ids@.len() - k,
    {
        if ids[k] == *id {
            assert(ids@[k as int]@ == id@);
            return true;
        }
        k = k + 1;
    }
    false
}

/// The id is the text entered, trimmed; it must be non-empty and not yet
/// in use. On refusal, the message to show.
pub fn validate_new_id(existing: &Vec<String>, entered: &str) -> (r: Result<String, String>)
    ensures
        match r {
            Ok(id) => id@ == trim(entered@) && trim(entered@).len() > 0 && !id_taken(
                existing@,
                trim(entered@),
            ),
            Err(msg) => if trim(entered@).len() == 0 {
                msg@ == empty_id_message()
            } else {
                id_taken(existing@, trim(entered@)) && msg@ == id_in_use_message(trim(entered@))
            },
        },
{
    let id = trim_str(entered);
    if id.as_str().is_empty() {
        return Err(String::from_str("Id cannot be empty."));
    }
    if contains_string(existing, &id) {
        let mut msg = String::from_str("Id \"");
        push_str(&mut msg, id.as_str());
        push_str(&mut msg, "\" is already in use.");
        return Err(msg);
    }
    Ok(id)
}

/// What a rename request comes to.
#[derive(Debug)]
pub enum RenameDecision {
    /// Refused; the message to show.
    Rejected(String),
    /// The new id equals the old one: nothing to do.
    Unchanged,
    /// Rename to this id.
    Renamed(String),
}

/// The mathematical content of a `RenameDecision`.
pub enum RenameView {
    Rejected(Seq<char>),
    Unchanged,
    Renamed(Seq<char>),
}

impl View for RenameDecision {
    type V = RenameView;

    open spec fn view(&self) -> RenameView {
        match self {
            RenameDecision::Rejected(m) => RenameView::Rejected(m@),
            RenameDecision::Unchanged => RenameView::Unchanged,
            RenameDecision::Renamed(n) => RenameView::Renamed(n@),
        }
    }
}

/// The outcome of renaming `old_id` to the entered text: trimmed, it must
/// be non-empty; the same id changes nothing; otherwise it must not be in
/// use.
pub open spec fn rename_outcome(existing: Seq<String>, old_id: Seq<char>, entered: Seq<char>) -> RenameView {
    let id = trim(entered);
    if id.len() == 0 {
        RenameView::Rejected(empty_id_message())
    } else if id == old_id {
        RenameView::Unchanged
    } else if id_taken(existing, id) {
        RenameView::Rejected(id_in_use_message(id))
    } else {
        RenameView::Renamed(id)
    }
}

/// Decide a rename of `old_id` to the entered text: trimmed, it must be
/// non-empty; the same id changes nothing; otherwise it must not be in use.
pub fn rename_decision(existing: &Vec<String>, old_id: &str, entered: &str) -> (r: RenameDecision)
    ensures
        r@ == rename_outcome(existing@, old_id@, entered@),
{
    let new_id = trim_str(entered);
    if new_id.as_str().is_empty() {
        return RenameDecision::Rejected(String::from_str("Id cannot be empty."));
    }
    let old = String::from_str(old_id);
    if new_id == old {
        return RenameDecision::Unchanged;
    }
    if contains_string(existing, &new_id) {
        let mut msg = String::from_str("Id \"");
        push_str(&mut msg, new_id.as_str());
        push_str(&mut msg, "\" is already in use.");
        return RenameDecision::Rejected(msg);
    }
    RenameDecision::Renamed(new_id)
}

/// The configured ids, in order.
pub fn existing_ids(ups: &Vec<UpsEntry>) -> (r: Vec<String>)
    ensures
        r@.len() == ups@.len(),
        forall|k: int| 0 <= k < ups@.len() ==> (#[trigger] r@[k])@ == ups@[k].id@,
{
    let mut out: Vec<String> = Vec::new();
    let mut k: usize = 0;
    while k < ups.len()
        invariant
            k <= ups@.len(),
            out@.len() == k,
            forall|j: int| 0 <= j < k ==> (#[trigger] out@[j])@ == ups@[j].id@,
        decreases ups@.len() - k,
    {
        out.push(ups[k].id.clone());
        k = k + 1;
    }
    out
}

/// The configured serials, in order.
pub fn existing_serials(ups: &Vec<UpsEntry>) -> (r: Vec<String>)
    ensures
        r@.len() == ups@.len(),
        forall|k: int| 0 <= k < ups@.len() ==> (#[trigger] r@[k])@ == ups@[k].serial@,
{
    let mut out: Vec<String> = Vec::new();
    let mut k: usize = 0;
    while k < ups.len()
        invariant
            k <= ups@.len(),
            out@.len() == k,
            forall|j: int| 0 <= j < k ==> (#[trigger] out@[j])@ == ups@[j].serial@,
        decreases ups@.len() - k,
    {
        out.push(ups[k].serial.clone());
        k = k + 1;
    }
    out
}

/// Give every entry with id `old_id` the id `new_id`; returns the serial of
/// the last such entry (empty when there is none).
pub fn rename_entry(ups: &mut Vec<UpsEntry>, old_id: &str, new_id: &str) -> (serial: String)
    ensures
        final(ups)@.len() == old(ups)@.len(),
        forall|k: int|
            0 <= k < old(ups)@.len() ==> {
                &&& (#[trigger] final(ups)@[k]).serial@ == old(ups)@[k].serial@
                &&& final(ups)@[k].id@ == (if old(ups)@[k].id@ == old_id@ {
                    new_id@
                } else {
                    old(ups)@[k].id@
                })
            },
        (exists|k: int| 0 <= k < old(ups)@.len() && #[trigger] old(ups)@[k].id@ == old_id@) ==> (exists|
            k: int,
        |
            0 <= k < old(ups)@.len() && #[trigger] old(ups)@[k].id@ == old_id@ && serial@ == old(
                ups,
            )@[k].serial@ && forall|j: int|
                k < j < old(ups)@.len() ==> (#[trigger] old(ups)@[j]).id@ != old_id@),
        (forall|k: int| 0 <= k < old(ups)@.len() ==> (#[trigger] old(ups)@[k]).id@ != old_id@)
            ==> serial@.len() == 0,
        final(ups)@.map_values(|e: UpsEntry| e@) == renamed(
            old(ups)@.map_values(|e: UpsEntry| e@),
            old_id@,
            new_id@,
        ),
{
    let old_s = String::from_str(old_id);
    let mut serial = String::new();
    let ghost mut last: int = -1;
    let mut k: usize = 0;
    while k < ups.len()
        invariant
            k <= ups@.len() == old(ups)@.len(),
            old_s@ == old_id@,
            -1 <= last < k,
            last == -1 ==> serial@.len() == 0 && forall|j: int|
                0 <= j < k ==> (#[trigger] old(ups)@[j]).id@ != old_id@,
            last >= 0 ==> old(ups)@[last].id@ == old_id@ && serial@ == old(ups)@[last].serial@
                && forall|j: int| last < j < k ==> (#[trigger] old(ups)@[j]).id@ != old_id@,
            forall|j: int|
                k <= j < ups@.len() ==> (#[trigger] ups@[j]).id@ == old(ups)@[j].id@
                    && ups@[j].serial@ == old(ups)@[j].serial@,
            forall|j: int|
                0 <= j < k ==> {
                    &&& (#[trigger] ups@[j]).serial@ == old(ups)@[j].serial@
                    &&& ups@[j].id@ == (if old(ups)@[j].id@ == old_id@ {
                        new_id@
                    } else {
                        old(ups)@[j].id@
                    })
                },
        decreases ups@.len() - k,
    {
        if ups[k].id == old_s {
            let entry = UpsEntry { id: String::from_str(new_id), serial: ups[k].serial.clone() };
            serial = ups[k].serial.clone();
            ups.set(k, entry);
            proof {
                last = k as int;
            }
        }
        k = k + 1;
    }
    assert(ups@.map_values(|e: UpsEntry| e@) =~= renamed(
        old(ups)@.map_values(|e: UpsEntry| e@),
        old_id@,
        new_id@,
    ));
    serial
}

/// `s` without the entries whose id is `id`, in order.
pub open spec fn without_id(s: Seq<(Seq<char>, Seq<char>)>, id: Seq<char>) -> Seq<(Seq<char>, Seq<char>)>
    decreases s.len(),
{
    if s.len() == 0 {
        Seq::empty()
    } else if s.last().0 == id {
        without_id(s.drop_last(), id)
    } else {
        without_id(s.drop_last(), id).push(s.last())
    }
}

/// Drop every entry with id `id`, keeping the others in order.
pub fn remove_entries(ups: &mut Vec<UpsEntry>, id: &str)
    ensures
        final(ups)@.map_values(|e: UpsEntry| e@) == without_id(
            old(ups)@.map_values(|e: UpsEntry| e@),
            id@,
        ),
{
    let ghost views = ups@.map_values(|e: UpsEntry| e@);
    let target = String::from_str(id);
    let mut kept: Vec<UpsEntry> = Vec::new();
    let mut k: usize = 0;
    while k < ups.len()
        invariant
            k <= ups@.len(),
            ups@ == old(ups)@,
            views == old(ups)@.map_values(|e: UpsEntry| e@),
            target@ == id@,
            kept@.map_values(|e: UpsEntry| e@) == without_id(views.take(k as int), id@),
        decreases ups@.len() - k,
    {
        proof {
            assert(views.take(k + 1).drop_last() =~= views.take(k as int));
        }
        if ups[k].id != target {
            let e = ups[k].clone();
            let ghost before = kept@;
            kept.push(e);
            assert(kept@.map_values(|e: UpsEntry| e@) =~= before.map_values(|e: UpsEntry| e@).push(
                views[k as int],
            ));
        }
        k = k + 1;
    }
    assert(views.take(ups@.len() as int) =~= views);
    *ups = kept;
}

/// The discovered units whose serial is not among `serials`, in order.
pub open spec fn not_configured(ds: Seq<DiscoveredUpsView>, serials: Seq<String>) -> Seq<
    DiscoveredUpsView,
>
    decreases ds.len(),
{
    if ds.len() == 0 {
        Seq::empty()
    } else if id_taken(serials, ds.last().serial) {
        not_configured(ds.drop_last(), serials)
    } else {
        not_configured(ds.drop_last(), serials).push(ds.last())
    }
}

/// The discovered units whose serial is not configured yet, in order.
pub fn unconfigured(discovered: &Vec<DiscoveredUps>, configured_serials: &Vec<String>) -> (r: Vec<
    DiscoveredUps,
>)
    ensures
        r@.map_values(|d: DiscoveredUps| d@) == not_configured(
            discovered@.map_values(|d: DiscoveredUps| d@),
            configured_serials@,
        ),
{
    let ghost views = discovered@.map_values(|d: DiscoveredUps| d@);
    let mut out: Vec<DiscoveredUps> = Vec::new();
    let mut k: usize = 0;
    while k < discovered.len()
        invariant
            k <= discovered@.len(),
            views == discovered@.map_values(|d: DiscoveredUps| d@),
            out@.map_values(|d: DiscoveredUps| d@) == not_configured(
                views.take(k as int),
                configured_serials@,
            ),
        decreases discovered@.len() - k,
    {
        proof {
            assert(views.take(k + 1).drop_last() =~= views.take(k as int));
        }
        if !contains_string(configured_serials, &discovered[k].serial) {
            let d = discovered[k].clone();
            let ghost before = out@;
            out.push(d);
            assert(out@.map_values(|d: DiscoveredUps| d@) =~= before.map_values(
                |d: DiscoveredUps| d@,
            ).push(views[k as int]));
        }
        k = k + 1;
    }
    assert(views.take(discovered@.len() as int) =~= views);
    out
}

/// No two entries share an id.
pub open spec fn ids_unique(ups: Seq<(Seq<char>, Seq<char>)>) -> bool {
    forall|i: int, j: int| 0 <= i < j < ups.len() ==> ups[i].0 != ups[j].0
}

/// The entries with id `old_id` renamed to `new_id`, as `rename_entry`
/// leaves them.
pub open spec fn renamed(ups: Seq<(Seq<char>, Seq<char>)>, old_id: Seq<char>, new_id: Seq<char>) -> Seq<
    (Seq<char>, Seq<char>),
> {
    ups.map_values(
        |e: (Seq<char>, Seq<char>)|
            (
                if e.0 == old_id {
                    new_id
                } else {
                    e.0
                },
                e.1,
            ),
    )
}

/// `ids` lists the ids of `ups`, in order (what `existing_ids` returns).
pub open spec fn ids_of(ids: Seq<String>, ups: Seq<(Seq<char>, Seq<char>)>) -> bool {
    ids.len() == ups.len() && forall|k: int| 0 <= k < ups.len() ==> (#[trigger] ids[k])@ == ups[k].0
}

/// Adding a unit under an id that `validate_new_id` accepted keeps the
/// configured ids unique.
pub proof fn lemma_add_keeps_ids_unique(
    ups: Seq<(Seq<char>, Seq<char>)>,
    existing: Seq<String>,
    entered: Seq<char>,
    serial: Seq<char>,
)
    requires
        ids_unique(ups),
        ids_of(existing, ups),
        trim(entered).len() > 0,
        !id_taken(existing, trim(entered)),
    ensures
        ids_unique(ups.push((trim(entered), serial))),
{
    let n = ups.push((trim(entered), serial));
    assert forall|i: int, j: int| 0 <= i < j < n.len() implies n[i].0 != n[j].0 by {
        if j == ups.len() {
            assert(existing[i]@ == ups[i].0);
        }
    }
}

/// A rename that `rename_decision` allows keeps the configured ids unique.
pub proof fn lemma_rename_keeps_ids_unique(
    ups: Seq<(Seq<char>, Seq<char>)>,
    existing: Seq<String>,
    old_id: Seq<char>,
    entered: Seq<char>,
)
    requires
        ids_unique(ups),
        ids_of(existing, ups),
        rename_outcome(existing, old_id, entered) == RenameView::Renamed(trim(entered)),
    ensures
        ids_unique(renamed(ups, old_id, trim(entered))),
{
    let n = trim(entered);
    let r = renamed(ups, old_id, n);
    assert forall|i: int, j: int| 0 <= i < j < r.len() implies r[i].0 != r[j].0 by {
        assert(existing[i]@ == ups[i].0);
        assert(existing[j]@ == ups[j].0);
    }
}

proof fn lemma_without_id_from(s: Seq<(Seq<char>, Seq<char>)>, id: Seq<char>)
    ensures
        forall|k: int|
            0 <= k < without_id(s, id).len() ==> s.contains(#[trigger] without_id(s, id)[k]),
        forall|k: int| 0 <= k < without_id(s, id).len() ==> (#[trigger] without_id(s, id)[k]).0 != id,
    decreases s.len(),
{
    if s.len() > 0 {
        let pre = s.drop_last();
        lemma_without_id_from(pre, id);
        let w = without_id(pre, id);
        assert forall|k: int| 0 <= k < w.len() implies s.contains(#[trigger] w[k]) by {
            let j = choose|j: int| 0 <= j < pre.len() && pre[j] == w[k];
            assert(s[j] == pre[j]);
        }
        assert(s[s.len() - 1] == s.last());
    }
}

/// Removing the entries of an id keeps the configured ids unique, and no
/// entry with that id is left.
pub proof fn lemma_remove_keeps_ids_unique(ups: Seq<(Seq<char>, Seq<char>)>, id: Seq<char>)
    requires
        ids_unique(ups),
    ensures
        ids_unique(without_id(ups, id)),
        forall|k: int| 0 <= k < without_id(ups, id).len() ==> (#[trigger] without_id(ups, id)[k]).0 != id,
    decreases ups.len(),
{
    lemma_without_id_from(ups, id);
    if ups.len() > 0 {
        let pre = ups.drop_last();
        assert(ids_unique(pre)) by {
            assert forall|i: int, j: int| 0 <= i < j < pre.len() implies pre[i].0 != pre[j].0 by {
                assert(pre[i] == ups[i] && pre[j] == ups[j]);
            }
        }
        lemma_remove_keeps_ids_unique(pre, id);
        lemma_without_id_from(pre, id);
        let w = without_id(pre, id);
        let last = ups.last();
        if last.0 != id {
            assert forall|k: int| 0 <= k < w.len() implies (#[trigger] w[k]).0 != last.0 by {
                let j = choose|j: int| 0 <= j < pre.len() && pre[j] == w[k];
                assert(ups[j] == pre[j]);
                assert(ups[ups.len() - 1] == last);
            }
            let r = w.push(last);
            assert forall|i: int, j: int| 0 <= i < j < r.len() implies r[i].0 != r[j].0 by {
                if j == w.len() {
                    assert(r[i] == w[i]);
                }
            }
        }
    }
}

} // verus!
