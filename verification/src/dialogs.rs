//! The server window's "Add UPS" and "Rename" dialogs: what they hold and
//! how scanning, editing and committing change them. Scanning USB, saving
//! the config and restarting pollers are done by the caller, which reports
//! the outcome back.

use vstd::prelude::*;
use vstd::hash_map::StringHashMap;
use crate::admin::{
    rename_decision, rename_outcome, suggest_id, suggested_id, unconfigured, not_configured,
    validate_new_id, RenameDecision, RenameView, empty_id_message, id_in_use_message, id_taken,
};
use crate::hid::{DiscoveredUps, DiscoveredUpsView};
use crate::server_config::UpsEntry;
use crate::server_poller::{register, PollerHandles};
use crate::server_state::{ensure_entry_at, StatusTable};
use crate::status::unknown_status;
use crate::admin::existing_ids;
use crate::text::{push_str, trim};

verus! {

/// The message shown when saving the config failed.
pub open spec fn save_failed_message(e: Seq<char>) -> Seq<char> {
    "Failed to save config: "@ + e
}

/// The message shown when scanning USB failed.
pub open spec fn scan_failed_message(e: Seq<char>) -> Seq<char> {
    "HID scan failed: "@ + e
}

fn message(prefix: &str, e: &str) -> (r: String)
    ensures
        r@ == prefix@ + e@,
{
    let mut m = String::from_str(prefix);
    push_str(&mut m, e);
    m
}

/// The id text boxes after a scan found `ds`: a unit without a box gets
/// one holding its suggested id; existing boxes keep what was typed.
pub open spec fn with_suggestions(m: Map<Seq<char>, Seq<char>>, ds: Seq<DiscoveredUpsView>) -> Map<
    Seq<char>,
    Seq<char>,
>
    decreases ds.len(),
{
    if ds.len() == 0 {
        m
    } else {
        let prev = with_suggestions(m, ds.drop_last());
        let d = ds.last();
        if prev.contains_key(d.serial) {
            prev
        } else {
            prev.insert(d.serial, suggested_id(d))
        }
    }
}

/// `ds` without the units whose serial is `serial`, in order.
pub open spec fn without_serial(ds: Seq<DiscoveredUpsView>, serial: Seq<char>) -> Seq<
    DiscoveredUpsView,
>
    decreases ds.len(),
{
    if ds.len() == 0 {
        Seq::empty()
    } else if ds.last().serial == serial {
        without_serial(ds.drop_last(), serial)
    } else {
        without_serial(ds.drop_last(), serial).push(ds.last())
    }
}

/// The "Add UPS" dialog.
pub struct AddDialog {
    pub open: bool,
    /// Whether a scan has completed since the dialog was opened.
    pub scanned: bool,
    /// The units found by the last scan that are not configured yet.
    pub discovered: Vec<DiscoveredUps>,
    /// The id typed for each unit, keyed by serial.
    pub id_buffers: StringHashMap<String>,
    /// The message shown at the top of the dialog, if any.
    pub error: Option<String>,
}

impl AddDialog {
    /// The units listed, as views.
    pub open spec fn units(&self) -> Seq<DiscoveredUpsView> {
        self.discovered@.map_values(|d: DiscoveredUps| d@)
    }

    /// The id text boxes, keyed by serial.
    pub open spec fn buffers(&self) -> Map<Seq<char>, Seq<char>> {
        self.id_buffers@.map_values(|v: String| v@)
    }

    /// The dialog before it is first opened.
    pub fn new() -> (r: Self)
        ensures
            !r.open,
            !r.scanned,
            r.units().len() == 0,
            r.buffers() == Map::<Seq<char>, Seq<char>>::empty(),
            r.error is None,
    {
        let r = AddDialog {
            open: false,
            scanned: false,
            discovered: Vec::new(),
            id_buffers: StringHashMap::new(),
            error: None,
        };
        assert(r.buffers() =~= Map::<Seq<char>, Seq<char>>::empty());
        r
    }

    /// "Add UPS" pressed: the dialog opens with no scan results and no
    /// message; typed ids are kept.
    pub fn open_dialog(&mut self)
        ensures
            final(self).open,
            !final(self).scanned,
            final(self).units().len() == 0,
            final(self).buffers() == old(self).buffers(),
            final(self).error is None,
    {
        self.open = true;
        self.scanned = false;
        self.discovered = Vec::new();
        self.error = None;
    }

    /// A scan finished: with the units found, list those whose serial is
    /// not configured and give each a text box holding its suggested id
    /// unless it has one; on failure, list nothing and show why.
    pub fn scan_finished(&mut self, found: Result<Vec<DiscoveredUps>, String>, configured_serials: &Vec<String>)
        ensures
            final(self).scanned,
            final(self).open == old(self).open,
            match found {
                Ok(ds) => {
                    &&& final(self).error is None
                    &&& final(self).units() == not_configured(
                        ds@.map_values(|d: DiscoveredUps| d@),
                        configured_serials@,
                    )
                    &&& final(self).buffers() == with_suggestions(old(self).buffers(), final(self).units())
                },
                Err(e) => {
                    &&& final(self).error matches Some(m) && m@ == scan_failed_message(e@)
                    &&& final(self).units().len() == 0
                    &&& final(self).buffers() == old(self).buffers()
                },
            },
    {
        self.scanned = true;
        match found {
            Ok(ds) => {
                self.error = None;
                let fresh = unconfigured(&ds, configured_serials);
                let ghost views = fresh@.map_values(|d: DiscoveredUps| d@);
                let ghost start = self.buffers();
                let mut k: usize = 0;
                assert(views.take(0) =~= Seq::<DiscoveredUpsView>::empty());
                while k < fresh.len()
                    invariant
                        k <= fresh@.len(),
                        views == fresh@.map_values(|d: DiscoveredUps| d@),
                        self.buffers() == with_suggestions(start, views.take(k as int)),
                        self.scanned,
                        self.open == old(self).open,
                        self.error is None,
                        start == old(self).buffers(),
                    decreases fresh@.len() - k,
                {
                    proof {
                        assert(views.take(k + 1).drop_last() =~= views.take(k as int));
                        assert(views.take(k + 1).last() == fresh@[k as int]@);
                    }
                    let d = &fresh[k];
                    if !self.id_buffers.contains_key(d.serial.as_str()) {
                        let ghost before = self.id_buffers@;
                        let suggestion = suggest_id(d);
                        self.id_buffers.insert(d.serial.clone(), suggestion);
                        assert(self.buffers() =~= before.map_values(|v: String| v@).insert(
                            d.serial@,
                            suggested_id(d@),
                        ));
                    }
                    k = k + 1;
                }
                assert(views.take(fresh@.len() as int) =~= views);
                self.discovered = fresh;
            },
            Err(e) => {
                self.error = Some(message("HID scan failed: ", e.as_str()));
                self.discovered = Vec::new();
            },
        }
    }

    /// The text in the id box of `d`, created with its suggested id when
    /// it has none yet.
    pub fn id_text(&mut self, d: &DiscoveredUps) -> (r: String)
        ensures
            old(self).buffers().contains_key(d.serial@) ==> r@ == old(self).buffers()[d.serial@]
                && final(self).buffers() == old(self).buffers(),
            !old(self).buffers().contains_key(d.serial@) ==> r@ == suggested_id(d@)
                && final(self).buffers() == old(self).buffers().insert(d.serial@, suggested_id(d@)),
            final(self).open == old(self).open,
            final(self).scanned == old(self).scanned,
            final(self).units() == old(self).units(),
            final(self).error == old(self).error,
    {
        match self.id_buffers.get(d.serial.as_str()) {
            Some(t) => {
                assert(self.id_buffers@.contains_key(d.serial@));
                t.clone()
            },
            None => {
                let ghost before = self.id_buffers@;
                let suggestion = suggest_id(d);
                let text = suggestion.clone();
                self.id_buffers.insert(d.serial.clone(), suggestion);
                assert(self.buffers() =~= before.map_values(|v: String| v@).insert(
                    d.serial@,
                    suggested_id(d@),
                ));
                text
            },
        }
    }

    /// The user typed `text` into the id box of the unit `serial`.
    pub fn edit_id(&mut self, serial: &str, text: &str)
        ensures
            final(self).buffers() == old(self).buffers().insert(serial@, text@),
            final(self).open == old(self).open,
            final(self).scanned == old(self).scanned,
            final(self).units() == old(self).units(),
            final(self).error == old(self).error,
    {
        let ghost before = self.id_buffers@;
        self.id_buffers.insert(String::from_str(serial), String::from_str(text));
        assert(self.buffers() =~= before.map_values(|v: String| v@).insert(serial@, text@));
    }

    /// "Add" pressed for the unit `serial` with the id text `entered`: the
    /// entry to add to the config when the id is accepted; otherwise the
    /// dialog shows why not.
    pub fn commit_add(&mut self, existing_ids: &Vec<String>, serial: &str, entered: &str) -> (r: Option<
        UpsEntry,
    >)
        ensures
            match r {
                Some(e) => {
                    &&& trim(entered@).len() > 0
                    &&& !id_taken(existing_ids@, trim(entered@))
                    &&& e@ == (trim(entered@), serial@)
                    &&& final(self).error == old(self).error
                },
                None => final(self).error matches Some(m) && if trim(entered@).len() == 0 {
                    m@ == empty_id_message()
                } else {
                    id_taken(existing_ids@, trim(entered@)) && m@ == id_in_use_message(
                        trim(entered@),
                    )
                },
            },
            final(self).open == old(self).open,
            final(self).scanned == old(self).scanned,
            final(self).units() == old(self).units(),
            final(self).buffers() == old(self).buffers(),
    {
        match validate_new_id(existing_ids, entered) {
            Ok(id) => Some(UpsEntry { id, serial: String::from_str(serial) }),
            Err(msg) => {
                self.error = Some(msg);
                None
            },
        }
    }

    /// "Add" pressed for the unit `serial` with the id text `entered`: when
    /// the id is accepted, the entry is appended to the configured units
    /// and the result says to save them; otherwise the units are left as
    /// they were and the dialog shows why.
    pub fn commit_add_to(&mut self, ups: &mut Vec<UpsEntry>, serial: &str, entered: &str) -> (r: bool)
        ensures
            r == (trim(entered@).len() > 0 && !ids_taken_in(old(ups)@, trim(entered@))),
            r ==> final(ups)@.map_values(|e: UpsEntry| e@) == old(ups)@.map_values(
                |e: UpsEntry| e@,
            ).push((trim(entered@), serial@)),
            r ==> final(self).error == old(self).error,
            !r ==> final(ups)@ == old(ups)@ && (final(self).error matches Some(m) && if trim(
                entered@,
            ).len() == 0 {
                m@ == empty_id_message()
            } else {
                m@ == id_in_use_message(trim(entered@))
            }),
            final(self).open == old(self).open,
            final(self).scanned == old(self).scanned,
            final(self).units() == old(self).units(),
            final(self).buffers() == old(self).buffers(),
    {
        let ids = existing_ids(ups);
        proof {
            assert(id_taken(ids@, trim(entered@)) == ids_taken_in(ups@, trim(entered@))) by {
                if id_taken(ids@, trim(entered@)) {
                    let k = choose|k: int| 0 <= k < ids@.len() && #[trigger] ids@[k]@ == trim(entered@);
                    assert(ups@[k].id@ == trim(entered@));
                }
                if ids_taken_in(ups@, trim(entered@)) {
                    let k = choose|k: int| 0 <= k < ups@.len() && #[trigger] ups@[k].id@ == trim(entered@);
                    assert(ids@[k]@ == trim(entered@));
                }
            }
        }
        match self.commit_add(&ids, serial, entered) {
            Some(entry) => {
                let ghost before = ups@;
                ups.push(entry);
                assert(ups@.map_values(|e: UpsEntry| e@) =~= before.map_values(|e: UpsEntry| e@).push(
                    (trim(entered@), serial@),
                ));
                true
            },
            None => false,
        }
    }

    /// The unit `serial` was added and the config saved: it leaves the
    /// list, with its id box, and the message is cleared.
    pub fn added(&mut self, serial: &str)
        ensures
            final(self).units() == without_serial(old(self).units(), serial@),
            final(self).buffers() == old(self).buffers().remove(serial@),
            final(self).error is None,
            final(self).open == old(self).open,
            final(self).scanned == old(self).scanned,
    {
        let ghost views = self.units();
        let target = String::from_str(serial);
        let mut kept: Vec<DiscoveredUps> = Vec::new();
        let mut k: usize = 0;
        assert(views.take(0) =~= Seq::<DiscoveredUpsView>::empty());
        while k < self.discovered.len()
            invariant
                k <= self.discovered@.len(),
                views == self.discovered@.map_values(|d: DiscoveredUps| d@),
                target@ == serial@,
                kept@.map_values(|d: DiscoveredUps| d@) == without_serial(views.take(k as int), serial@),
            decreases self.discovered@.len() - k,
        {
            proof {
                assert(views.take(k + 1).drop_last() =~= views.take(k as int));
            }
            if self.discovered[k].serial != target {
                let d = self.discovered[k].clone();
                let ghost before = kept@;
                kept.push(d);
                assert(kept@.map_values(|d: DiscoveredUps| d@) =~= before.map_values(
                    |d: DiscoveredUps| d@,
                ).push(views[k as int]));
            }
            k = k + 1;
        }
        assert(views.take(self.discovered@.len() as int) =~= views);
        self.discovered = kept;
        let ghost before = self.id_buffers@;
        self.id_buffers.remove(serial);
        assert(self.buffers() =~= before.map_values(|v: String| v@).remove(serial@));
        self.error = None;
    }

    /// Saving the config failed: the dialog shows why.
    pub fn save_failed(&mut self, e: &str)
        ensures
            final(self).error matches Some(m) && m@ == save_failed_message(e@),
            final(self).open == old(self).open,
            final(self).scanned == old(self).scanned,
            final(self).units() == old(self).units(),
            final(self).buffers() == old(self).buffers(),
    {
        self.error = Some(message("Failed to save config: ", e));
    }
}

/// Whether some configured unit has the id `id`.
pub open spec fn ids_taken_in(ups: Seq<UpsEntry>, id: Seq<char>) -> bool {
    exists|k: int| 0 <= k < ups.len() && #[trigger] ups[k].id@ == id
}

/// A unit was added to the configuration and the configuration saved:
/// the status table gets an `Unknown` entry for it stamped `now` (unless it
/// has one), its poller's stop flag is registered under its id, and the
/// dialog drops the unit, its id box and its message.
pub fn unit_added_at<F>(
    table: &mut StatusTable,
    handles: &mut PollerHandles<F>,
    dialog: &mut AddDialog,
    entry: &UpsEntry,
    flag: F,
    now: i64,
)
    requires
        old(table).wf(),
        old(handles).wf(),
    ensures
        final(table).wf(),
        final(table)@ == (if old(table)@.contains_key(entry.id@) {
            old(table)@
        } else {
            old(table)@.insert(entry.id@, unknown_status(entry.id@, now))
        }),
        final(handles).wf(),
        final(handles).has(entry.id@),
        final(handles).flag(entry.id@) == flag,
        forall|other: Seq<char>|
            other != entry.id@ ==> (final(handles).has(other) == old(handles).has(other) && (old(
                handles,
            ).has(other) ==> final(handles).flag(other) == old(handles).flag(other))),
        final(dialog).units() == without_serial(old(dialog).units(), entry.serial@),
        final(dialog).buffers() == old(dialog).buffers().remove(entry.serial@),
        final(dialog).error is None,
        final(dialog).open == old(dialog).open,
        final(dialog).scanned == old(dialog).scanned,
{
    ensure_entry_at(table, entry.id.as_str(), now);
    register(handles, entry.id.as_str(), flag);
    dialog.added(entry.serial.as_str());
}

/// The "Rename" dialog of one UPS.
pub struct RenameDialog {
    pub old_id: String,
    /// The text being edited.
    pub buffer: String,
    pub error: Option<String>,
}

impl RenameDialog {
    /// The dialog opened on `id`, its text box holding the current id.
    pub fn open(id: &str) -> (r: Self)
        ensures
            r.old_id@ == id@,
            r.buffer@ == id@,
            r.error is None,
    {
        RenameDialog { old_id: String::from_str(id), buffer: String::from_str(id), error: None }
    }

    /// "Save" pressed: the decision on the text typed; a refusal is shown
    /// in the dialog.
    pub fn commit(&mut self, existing_ids: &Vec<String>) -> (r: RenameDecision)
        ensures
            r@ == rename_outcome(existing_ids@, old(self).old_id@, old(self).buffer@),
            final(self).old_id@ == old(self).old_id@,
            final(self).buffer@ == old(self).buffer@,
            match r@ {
                RenameView::Rejected(m) => final(self).error matches Some(e) && e@ == m,
                _ => final(self).error == old(self).error,
            },
    {
        let r = rename_decision(existing_ids, self.old_id.as_str(), self.buffer.as_str());
        match &r {
            RenameDecision::Rejected(m) => {
                self.error = Some(m.clone());
            },
            _ => {},
        }
        r
    }

    /// Saving the config failed: the dialog shows why.
    pub fn save_failed(&mut self, e: &str)
        ensures
            final(self).error matches Some(m) && m@ == save_failed_message(e@),
            final(self).old_id@ == old(self).old_id@,
            final(self).buffer@ == old(self).buffer@,
    {
        self.error = Some(message("Failed to save config: ", e));
    }
}

} // verus!
