//! The store: projects, activity types and time entries, held in memory
//! with the same shape and rules a relational file store enforces —
//! surrogate ids, unique names, referential integrity, hard deletes blocked
//! while dependents exist — and read back in the orders the views expect.

use vstd::prelude::*;
use vstd::string::*;
use crate::chars::{lemma_lex_le_antisym, lemma_lex_le_total, lemma_lex_le_trans, lex_le, str_eq, str_le};
use crate::date::{date_le, date_le_exec, Date};
use crate::records::{
    ActivitySummary, ActivitySummaryV, ActivityType, ActivityTypeV, DatabaseError, DbResult,
    Project, ProjectV, TimeEntry, TimeEntryV,
};

verus! {

broadcast use vstd::seq_lib::group_to_multiset_ensures;

// ---------------------------------------------------------------------------
// Spec helpers over row sequences
// ---------------------------------------------------------------------------

pub open spec fn has_project(s: Seq<ProjectV>, id: int) -> bool {
    exists|i: int| 0 <= i < s.len() && #[trigger] s[i].id == id
}

pub open spec fn project_name_taken(s: Seq<ProjectV>, name: Seq<char>) -> bool {
    exists|i: int| 0 <= i < s.len() && #[trigger] s[i].name == name
}

pub open spec fn has_activity(s: Seq<ActivityTypeV>, id: int) -> bool {
    exists|i: int| 0 <= i < s.len() && #[trigger] s[i].id == id
}

pub open spec fn activity_name_taken(s: Seq<ActivityTypeV>, project_id: int, name: Seq<char>) -> bool {
    exists|i: int|
        0 <= i < s.len() && #[trigger] s[i].project_id == project_id && s[i].name == name
}

/// Some other project (a different id) already carries this name.
pub open spec fn other_project_named(s: Seq<ProjectV>, id: int, name: Seq<char>) -> bool {
    exists|i: int| 0 <= i < s.len() && (#[trigger] s[i]).id != id && s[i].name == name
}

/// Some other activity under the same project carries this name.
pub open spec fn other_activity_named(
    s: Seq<ActivityTypeV>,
    id: int,
    project_id: int,
    name: Seq<char>,
) -> bool {
    exists|i: int|
        0 <= i < s.len() && (#[trigger] s[i]).id != id && s[i].project_id == project_id
            && s[i].name == name
}

pub open spec fn project_has_activities(s: Seq<ActivityTypeV>, project_id: int) -> bool {
    exists|i: int| 0 <= i < s.len() && #[trigger] s[i].project_id == project_id
}

pub open spec fn activity_has_entries(s: Seq<TimeEntryV>, activity_type_id: int) -> bool {
    exists|i: int| 0 <= i < s.len() && #[trigger] s[i].activity_type_id == activity_type_id
}

pub open spec fn has_entry(s: Seq<TimeEntryV>, id: int) -> bool {
    exists|i: int| 0 <= i < s.len() && #[trigger] s[i].id == id
}

/// Sum of the minute fields of a row sequence.
pub open spec fn sum_minutes(s: Seq<TimeEntryV>) -> int
    decreases s.len(),
{
    if s.len() == 0 {
        0
    } else {
        sum_minutes(s.drop_last()) + s.last().minutes
    }
}

/// The rows dated `d`, in store order.
pub open spec fn entries_on(s: Seq<TimeEntryV>, d: Date) -> Seq<TimeEntryV>
    decreases s.len(),
{
    if s.len() == 0 {
        Seq::empty()
    } else {
        let rest = entries_on(s.drop_last(), d);
        if s.last().date == d {
            rest.push(s.last())
        } else {
            rest
        }
    }
}

/// The rows dated `d` that belong to one activity type, in store order.
pub open spec fn entries_of(s: Seq<TimeEntryV>, d: Date, activity_type_id: int) -> Seq<TimeEntryV>
    decreases s.len(),
{
    if s.len() == 0 {
        Seq::empty()
    } else {
        let rest = entries_of(s.drop_last(), d, activity_type_id);
        if s.last().date == d && s.last().activity_type_id == activity_type_id {
            rest.push(s.last())
        } else {
            rest
        }
    }
}

/// The rows dated within `lo..=hi`, in store order.
pub open spec fn entries_in_range(s: Seq<TimeEntryV>, lo: Date, hi: Date) -> Seq<TimeEntryV>
    decreases s.len(),
{
    if s.len() == 0 {
        Seq::empty()
    } else {
        let rest = entries_in_range(s.drop_last(), lo, hi);
        if date_le(lo, s.last().date) && date_le(s.last().date, hi) {
            rest.push(s.last())
        } else {
            rest
        }
    }
}

/// The projects kept by a read: all of them, or only the active ones.
pub open spec fn filter_projects(s: Seq<ProjectV>, only_active: bool) -> Seq<ProjectV>
    decreases s.len(),
{
    if s.len() == 0 {
        Seq::empty()
    } else {
        let rest = filter_projects(s.drop_last(), only_active);
        if !only_active || s.last().is_active {
            rest.push(s.last())
        } else {
            rest
        }
    }
}

/// The activity types kept by a read: optionally restricted to one
/// project, optionally to the active ones.
pub open spec fn filter_activities(
    s: Seq<ActivityTypeV>,
    project_id: Option<int>,
    only_active: bool,
) -> Seq<ActivityTypeV>
    decreases s.len(),
{
    if s.len() == 0 {
        Seq::empty()
    } else {
        let rest = filter_activities(s.drop_last(), project_id, only_active);
        if (match project_id {
            Some(pid) => s.last().project_id == pid,
            None => true,
        }) && (!only_active || s.last().is_active) {
            rest.push(s.last())
        } else {
            rest
        }
    }
}

pub proof fn lemma_sum_nonneg(s: Seq<TimeEntryV>)
    requires
        forall|i: int| 0 <= i < s.len() ==> (#[trigger] s[i]).minutes >= 0,
    ensures
        sum_minutes(s) >= 0,
    decreases s.len(),
{
    if s.len() > 0 {
        lemma_sum_nonneg(s.drop_last());
    }
}

pub proof fn lemma_sum_prefix_le(s: Seq<TimeEntryV>, k: int)
    requires
        forall|i: int| 0 <= i < s.len() ==> (#[trigger] s[i]).minutes >= 0,
        0 <= k <= s.len(),
    ensures
        sum_minutes(s.subrange(0, k)) <= sum_minutes(s),
    decreases s.len() - k,
{
    if k == s.len() {
        assert(s.subrange(0, k) =~= s);
    } else {
        assert(s.subrange(0, k + 1).drop_last() =~= s.subrange(0, k));
        lemma_sum_prefix_le(s, k + 1);
    }
}

pub proof fn lemma_sum_remove(s: Seq<TimeEntryV>, i: int)
    requires
        0 <= i < s.len(),
    ensures
        sum_minutes(s.remove(i)) == sum_minutes(s) - s[i].minutes,
    decreases s.len(),
{
    if i == s.len() - 1 {
        assert(s.remove(i) =~= s.drop_last());
    } else {
        assert(s.remove(i).drop_last() =~= s.drop_last().remove(i));
        assert(s.remove(i).last() == s.last());
        lemma_sum_remove(s.drop_last(), i);
    }
}

pub proof fn lemma_sum_update(s: Seq<TimeEntryV>, i: int, e: TimeEntryV)
    requires
        0 <= i < s.len(),
    ensures
        sum_minutes(s.update(i, e)) == sum_minutes(s) - s[i].minutes + e.minutes,
    decreases s.len(),
{
    if i == s.len() - 1 {
        assert(s.update(i, e).drop_last() =~= s.drop_last());
        assert(s.update(i, e).last() == e);
    } else {
        assert(s.update(i, e).drop_last() =~= s.drop_last().update(i, e));
        assert(s.update(i, e).last() == s.last());
        lemma_sum_update(s.drop_last(), i, e);
    }
}

/// The per-date selection keeps the total between zero and the whole sum.
pub proof fn lemma_sum_entries_on_bounds(s: Seq<TimeEntryV>, d: Date)
    requires
        forall|i: int| 0 <= i < s.len() ==> (#[trigger] s[i]).minutes >= 0,
    ensures
        0 <= sum_minutes(entries_on(s, d)) <= sum_minutes(s),
    decreases s.len(),
{
    if s.len() == 0 {
    } else {
        lemma_sum_entries_on_bounds(s.drop_last(), d);
        if s.last().date == d {
            assert(entries_on(s, d).drop_last() =~= entries_on(s.drop_last(), d));
            assert(entries_on(s, d).last() == s.last());
        }
    }
}

/// A store without projects holds no activity types either: every
/// activity type's foreign key resolves.
pub proof fn lemma_no_projects_no_activities(db: Database)
    requires
        db.wf(),
        db.projects().len() == 0,
    ensures
        db.activities().len() == 0,
{
    if db.activities().len() > 0 {
        assert(has_project(db.projects(), db.activities()[0].project_id));
        let k = choose|k: int|
            0 <= k < db.projects().len() && #[trigger] db.projects()[k].id == db.activities()[
                0
            ].project_id;
    }
}

/// With the active-only switch off, the project read keeps every row.
pub proof fn lemma_filter_projects_identity(s: Seq<ProjectV>)
    ensures
        filter_projects(s, false) == s,
    decreases s.len(),
{
    if s.len() == 0 {
        assert(filter_projects(s, false) =~= s);
    } else {
        lemma_filter_projects_identity(s.drop_last());
        assert(filter_projects(s, false) =~= s);
    }
}

/// With no project filter and the active-only switch off, the activity
/// read keeps every row.
pub proof fn lemma_filter_activities_identity(s: Seq<ActivityTypeV>)
    ensures
        filter_activities(s, None, false) == s,
    decreases s.len(),
{
    if s.len() == 0 {
        assert(filter_activities(s, None, false) =~= s);
    } else {
        lemma_filter_activities_identity(s.drop_last());
        assert(filter_activities(s, None, false) =~= s);
    }
}

pub open spec fn projects_sorted(s: Seq<ProjectV>) -> bool {
    forall|k: int, l: int|
        #![trigger s[k], s[l]]
        0 <= k < l < s.len() ==> lex_le(s[k].name, s[l].name)
}

pub open spec fn activities_sorted(s: Seq<ActivityTypeV>) -> bool {
    forall|k: int, l: int|
        #![trigger s[k], s[l]]
        0 <= k < l < s.len() ==> lex_le(s[k].name, s[l].name)
}

/// Chronological order with the entry id as the tie-breaker.
pub open spec fn entry_le(a: TimeEntryV, b: TimeEntryV) -> bool {
    if a.date == b.date {
        a.id <= b.id
    } else {
        date_le(a.date, b.date)
    }
}

pub open spec fn entries_date_sorted(s: Seq<TimeEntryV>) -> bool {
    forall|k: int, l: int| #![trigger s[k], s[l]] 0 <= k < l < s.len() ==> entry_le(s[k], s[l])
}

/// The rows of one activity type, in order, whatever their date.
pub open spec fn entries_with_activity(s: Seq<TimeEntryV>, activity_type_id: int) -> Seq<
    TimeEntryV,
>
    decreases s.len(),
{
    if s.len() == 0 {
        Seq::empty()
    } else {
        let rest = entries_with_activity(s.drop_last(), activity_type_id);
        if s.last().activity_type_id == activity_type_id {
            rest.push(s.last())
        } else {
            rest
        }
    }
}

/// What the per-date selection holds: rows of the given date, drawn from
/// the source, with non-negative minutes where the source has them.
pub proof fn lemma_entries_on_props(s: Seq<TimeEntryV>, d: Date)
    ensures
        forall|i: int|
            0 <= i < entries_on(s, d).len() ==> (#[trigger] entries_on(s, d)[i]).date == d
                && s.contains(entries_on(s, d)[i]),
    decreases s.len(),
{
    if s.len() > 0 {
        lemma_entries_on_props(s.drop_last(), d);
        let eo = entries_on(s, d);
        assert forall|i: int| 0 <= i < eo.len() implies (#[trigger] eo[i]).date == d && s.contains(
            eo[i],
        ) by {
            let prev = entries_on(s.drop_last(), d);
            if i < prev.len() {
                assert(eo[i] == prev[i]);
                assert(s.drop_last().contains(prev[i]));
                let m = choose|m: int| 0 <= m < s.drop_last().len() && s.drop_last()[m] == prev[i];
                assert(s[m] == prev[i]);
            } else {
                assert(s.last().date == d && eo[i] == s.last());
                assert(s[s.len() - 1] == s.last());
            }
        }
    }
}

/// Every row of the given date is in the per-date selection.
pub proof fn lemma_entries_on_complete(s: Seq<TimeEntryV>, d: Date, i: int)
    requires
        0 <= i < s.len(),
        s[i].date == d,
    ensures
        entries_on(s, d).contains(s[i]),
    decreases s.len(),
{
    if i == s.len() - 1 {
        let eo = entries_on(s, d);
        assert(eo.last() == s[i]);
        assert(eo[eo.len() - 1] == s[i]);
    } else {
        lemma_entries_on_complete(s.drop_last(), d, i);
        let prev = entries_on(s.drop_last(), d);
        let m = choose|m: int| 0 <= m < prev.len() && prev[m] == s[i];
        if s.last().date == d {
            assert(entries_on(s, d)[m] == prev[m]);
        } else {
            assert(entries_on(s, d) == prev);
        }
    }
}

/// What the per-activity selection holds, and its total's bounds when the
/// source minutes are non-negative.
pub proof fn lemma_entries_with_activity_props(s: Seq<TimeEntryV>, aid: int)
    ensures
        forall|i: int|
            0 <= i < entries_with_activity(s, aid).len() ==> (#[trigger] entries_with_activity(
                s,
                aid,
            )[i]).activity_type_id == aid && s.contains(entries_with_activity(s, aid)[i]),
        (forall|i: int| 0 <= i < s.len() ==> (#[trigger] s[i]).minutes >= 0) ==> 0 <= sum_minutes(
            entries_with_activity(s, aid),
        ) <= sum_minutes(s),
    decreases s.len(),
{
    if s.len() > 0 {
        lemma_entries_with_activity_props(s.drop_last(), aid);
        let ew = entries_with_activity(s, aid);
        let prev = entries_with_activity(s.drop_last(), aid);
        assert forall|i: int| 0 <= i < ew.len() implies (#[trigger] ew[i]).activity_type_id == aid
            && s.contains(ew[i]) by {
            if i < prev.len() {
                assert(ew[i] == prev[i]);
                assert(s.drop_last().contains(prev[i]));
                let m = choose|m: int| 0 <= m < s.drop_last().len() && s.drop_last()[m] == prev[i];
                assert(s[m] == prev[i]);
            } else {
                assert(s.last().activity_type_id == aid && ew[i] == s.last());
                assert(s[s.len() - 1] == s.last());
            }
        }
        if forall|i: int| 0 <= i < s.len() ==> (#[trigger] s[i]).minutes >= 0 {
            assert(forall|i: int|
                0 <= i < s.drop_last().len() ==> (#[trigger] s.drop_last()[i]).minutes >= 0);
            if s.last().activity_type_id == aid {
                assert(ew.drop_last() =~= prev);
                assert(ew.last() == s.last());
            }
            assert(s[s.len() - 1] == s.last());
        }
    }
}

/// Selecting one activity's rows out of one day's rows is the same as
/// selecting by date and activity at once.
pub proof fn lemma_entries_of_split(s: Seq<TimeEntryV>, d: Date, aid: int)
    ensures
        entries_with_activity(entries_on(s, d), aid) == entries_of(s, d, aid),
    decreases s.len(),
{
    if s.len() > 0 {
        lemma_entries_of_split(s.drop_last(), d, aid);
        if s.last().date == d {
            let prev = entries_on(s.drop_last(), d);
            assert(entries_on(s, d) == prev.push(s.last()));
            assert(prev.push(s.last()).drop_last() =~= prev);
        }
    }
}

/// The per-date selection of an ascending-id sequence is ascending too.
pub proof fn lemma_entries_on_id_sorted(s: Seq<TimeEntryV>, d: Date)
    requires
        forall|i: int, j: int| #![trigger s[i], s[j]] 0 <= i < j < s.len() ==> s[i].id < s[j].id,
    ensures
        forall|k: int, l: int|
            #![trigger entries_on(s, d)[k], entries_on(s, d)[l]]
            0 <= k < l < entries_on(s, d).len() ==> entries_on(s, d)[k].id < entries_on(
                s,
                d,
            )[l].id,
    decreases s.len(),
{
    if s.len() > 0 {
        let t = s.drop_last();
        assert(forall|i: int, j: int|
            #![trigger t[i], t[j]]
            0 <= i < j < t.len() ==> t[i].id < t[j].id) by {
            assert(forall|i: int| 0 <= i < t.len() ==> #[trigger] t[i] == s[i]);
        }
        lemma_entries_on_id_sorted(t, d);
        lemma_entries_on_props(t, d);
        let eo = entries_on(s, d);
        let prev = entries_on(t, d);
        if s.last().date == d {
            assert(eo == prev.push(s.last()));
            assert forall|k: int, l: int|
                #![trigger eo[k], eo[l]]
                0 <= k < l < eo.len() implies eo[k].id < eo[l].id by {
                if l < prev.len() {
                    assert(eo[k] == prev[k] && eo[l] == prev[l]);
                } else {
                    assert(eo[k] == prev[k] && eo[l] == s.last());
                    assert(t.contains(prev[k]));
                    let m = choose|m: int| 0 <= m < t.len() && t[m] == prev[k];
                    assert(s[m] == prev[k]);
                    assert(s[m].id < s[s.len() - 1].id);
                }
            }
        }
    }
}

/// The per-activity selection of an ascending-id sequence is ascending too.
pub proof fn lemma_entries_with_activity_id_sorted(s: Seq<TimeEntryV>, aid: int)
    requires
        forall|i: int, j: int| #![trigger s[i], s[j]] 0 <= i < j < s.len() ==> s[i].id < s[j].id,
    ensures
        forall|k: int, l: int|
            #![trigger entries_with_activity(s, aid)[k], entries_with_activity(s, aid)[l]]
            0 <= k < l < entries_with_activity(s, aid).len() ==> entries_with_activity(
                s,
                aid,
            )[k].id < entries_with_activity(s, aid)[l].id,
    decreases s.len(),
{
    if s.len() > 0 {
        let t = s.drop_last();
        assert(forall|i: int, j: int|
            #![trigger t[i], t[j]]
            0 <= i < j < t.len() ==> t[i].id < t[j].id) by {
            assert(forall|i: int| 0 <= i < t.len() ==> #[trigger] t[i] == s[i]);
        }
        lemma_entries_with_activity_id_sorted(t, aid);
        lemma_entries_with_activity_props(t, aid);
        let ew = entries_with_activity(s, aid);
        let prev = entries_with_activity(t, aid);
        if s.last().activity_type_id == aid {
            assert(ew == prev.push(s.last()));
            assert forall|k: int, l: int|
                #![trigger ew[k], ew[l]]
                0 <= k < l < ew.len() implies ew[k].id < ew[l].id by {
                if l < prev.len() {
                    assert(ew[k] == prev[k] && ew[l] == prev[l]);
                } else {
                    assert(ew[k] == prev[k] && ew[l] == s.last());
                    assert(t.contains(prev[k]));
                    let m = choose|m: int| 0 <= m < t.len() && t[m] == prev[k];
                    assert(s[m] == prev[k]);
                    assert(s[m].id < s[s.len() - 1].id);
                }
            }
        }
    }
}

/// Summary order: project name first, then activity name.
pub open spec fn summary_le(a: ActivitySummaryV, b: ActivitySummaryV) -> bool {
    if a.project_name == b.project_name {
        lex_le(a.activity_name, b.activity_name)
    } else {
        lex_le(a.project_name, b.project_name) && a.project_name != b.project_name
    }
}

pub open spec fn summaries_sorted(s: Seq<ActivitySummaryV>) -> bool {
    forall|k: int, l: int| #![trigger s[k], s[l]] 0 <= k < l < s.len() ==> summary_le(s[k], s[l])
}

// ---------------------------------------------------------------------------
// The store
// ---------------------------------------------------------------------------

/// The store.  Rows live in insertion order (so entry ids increase along
/// the entry sequence); reads hand out sorted copies.
pub struct Database {
    project_rows: Vec<Project>,
    activity_rows: Vec<ActivityType>,
    entry_rows: Vec<TimeEntry>,
    next_project_id: i64,
    next_activity_id: i64,
    next_entry_id: i64,
}

impl Database {
    /// The projects the store holds, in insertion order.
    pub closed spec fn projects(self) -> Seq<ProjectV> {
        self.project_rows@.map_values(|p: Project| p@)
    }

    /// The activity types the store holds, in insertion order.
    pub closed spec fn activities(self) -> Seq<ActivityTypeV> {
        self.activity_rows@.map_values(|a: ActivityType| a@)
    }

    /// The time entries the store holds, in insertion order, which is
    /// ascending id order.
    pub closed spec fn entries(self) -> Seq<TimeEntryV> {
        self.entry_rows@.map_values(|e: TimeEntry| e@)
    }

    /// The three id counters (projects, activity types, time entries):
    /// each is the id the next successful create hands out.
    pub closed spec fn id_counters(self) -> (int, int, int) {
        (self.next_project_id as int, self.next_activity_id as int, self.next_entry_id as int)
    }

    pub open spec fn project_ids_exhausted(self) -> bool {
        self.id_counters().0 == i64::MAX
    }

    pub open spec fn activity_ids_exhausted(self) -> bool {
        self.id_counters().1 == i64::MAX
    }

    pub open spec fn entry_ids_exhausted(self) -> bool {
        self.id_counters().2 == i64::MAX
    }

    /// The store's invariant: distinct positive ids below the id counters,
    /// unique project names, activity names unique per project, every
    /// foreign key resolving, entry ids ascending, valid dates,
    /// non-negative durations, and a representable grand total.
    pub closed spec fn wf(self) -> bool {
        let ps = self.projects();
        let acts = self.activities();
        let es = self.entries();
        &&& forall|i: int, j: int|
            #![trigger ps[i], ps[j]]
            0 <= i < j < ps.len() ==> ps[i].id != ps[j].id && ps[i].name != ps[j].name
        &&& forall|i: int|
            0 <= i < ps.len() ==> 1 <= #[trigger] ps[i].id < self.next_project_id
        &&& forall|i: int, j: int|
            #![trigger acts[i], acts[j]]
            0 <= i < j < acts.len() ==> acts[i].id != acts[j].id && !(acts[i].project_id
                == acts[j].project_id && acts[i].name == acts[j].name)
        &&& forall|i: int|
            0 <= i < acts.len() ==> 1 <= #[trigger] acts[i].id < self.next_activity_id
        &&& forall|i: int| 0 <= i < acts.len() ==> has_project(ps, #[trigger] acts[i].project_id)
        &&& forall|i: int, j: int|
            #![trigger es[i], es[j]]
            0 <= i < j < es.len() ==> es[i].id < es[j].id
        &&& forall|i: int| 0 <= i < es.len() ==> 1 <= #[trigger] es[i].id < self.next_entry_id
        &&& forall|i: int|
            0 <= i < es.len() ==> has_activity(acts, #[trigger] es[i].activity_type_id)
        &&& forall|i: int| 0 <= i < es.len() ==> #[trigger] es[i].minutes >= 0
        &&& forall|i: int| 0 <= i < es.len() ==> (#[trigger] es[i].date).is_valid()
        &&& sum_minutes(es) <= 0x7FFF_FFFF
        &&& 1 <= self.next_project_id <= i64::MAX
        &&& 1 <= self.next_activity_id <= i64::MAX
        &&& 1 <= self.next_entry_id <= i64::MAX
    }

    /// Opens a fresh, empty in-memory store.
    pub fn new_in_memory() -> (r: DbResult<Database>)
        ensures
            r is Ok,
            r->Ok_0.wf(),
            r->Ok_0.projects() =~= Seq::<ProjectV>::empty(),
            r->Ok_0.activities() =~= Seq::<ActivityTypeV>::empty(),
            r->Ok_0.entries() =~= Seq::<TimeEntryV>::empty(),
            r->Ok_0.id_counters() == (1int, 1int, 1int),
    {
        let db = Database {
            project_rows: Vec::new(),
            activity_rows: Vec::new(),
            entry_rows: Vec::new(),
            next_project_id: 1,
            next_activity_id: 1,
            next_entry_id: 1,
        };
        Ok(db)
    }
}

// ---------------------------------------------------------------------------
// Projects
// ---------------------------------------------------------------------------

/// True when some row carries this project name.
fn project_name_exists(rows: &Vec<Project>, name: &str) -> (r: bool)
    ensures
        r == project_name_taken(rows@.map_values(|p: Project| p@), name@),
{
    let ghost ps = rows@.map_values(|p: Project| p@);
    let mut i: usize = 0;
    while i < rows.len()
        invariant
            i <= rows.len(),
            ps == rows@.map_values(|p: Project| p@),
            forall|k: int| 0 <= k < i ==> (#[trigger] ps[k]).name != name@,
        decreases rows.len() - i,
    {
        if str_eq(rows[i].name.as_str(), name) {
            proof {
                assert(ps[i as int].name == name@);
            }
            return true;
        }
        i = i + 1;
    }
    false
}

/// First row index holding this project id, if any.
fn find_project_index(rows: &Vec<Project>, id: i64) -> (r: Option<usize>)
    ensures
        r is Some ==> r->0 < rows@.len() && rows@.map_values(|p: Project| p@)[r->0 as int].id
            == id as int,
        r is None ==> !has_project(rows@.map_values(|p: Project| p@), id as int),
{
    let ghost ps = rows@.map_values(|p: Project| p@);
    let mut i: usize = 0;
    while i < rows.len()
        invariant
            i <= rows.len(),
            ps == rows@.map_values(|p: Project| p@),
            forall|k: int| 0 <= k < i ==> (#[trigger] ps[k]).id != id as int,
        decreases rows.len() - i,
    {
        if rows[i].id == id {
            return Some(i);
        }
        i = i + 1;
    }
    None
}

/// Inserts a project into a name-sorted vector, keeping it sorted.
fn insert_project_sorted(out: &mut Vec<Project>, p: Project)
    requires
        projects_sorted(old(out)@.map_values(|x: Project| x@)),
    ensures
        projects_sorted(final(out)@.map_values(|x: Project| x@)),
        final(out)@.map_values(|x: Project| x@).to_multiset() == old(out)@.map_values(
            |x: Project| x@,
        ).to_multiset().insert(p@),
    decreases old(out)@.len(),
{
    let ghost s = out@.map_values(|x: Project| x@);
    let mut idx: usize = 0;
    while idx < out.len() && str_le(out[idx].name.as_str(), p.name.as_str())
        invariant
            idx <= out@.len(),
            s == out@.map_values(|x: Project| x@),
            forall|k: int| 0 <= k < idx ==> lex_le((#[trigger] s[k]).name, p@.name),
        decreases out@.len() - idx,
    {
        idx = idx + 1;
    }
    proof {
        if (idx as int) < s.len() {
            lemma_lex_le_total(s[idx as int].name, p@.name);
        }
    }
    out.insert(idx, p);
    proof {
        let t = out@.map_values(|x: Project| x@);
        assert(t =~= s.insert(idx as int, p@));
        assert forall|k: int, l: int|
            #![trigger t[k], t[l]]
            0 <= k < l < t.len() implies lex_le(t[k].name, t[l].name) by {
            if l < idx {
                assert(t[k] == s[k] && t[l] == s[l]);
            } else if k < idx && l == idx {
                assert(t[k] == s[k] && t[l] == p@);
            } else if k < idx && l > idx {
                assert(t[k] == s[k] && t[l] == s[l - 1]);
            } else if k == idx {
                assert(t[k] == p@ && t[l] == s[l - 1]);
                assert(lex_le(p@.name, s[idx as int].name));
                if l - 1 > idx {
                    lemma_lex_le_trans(p@.name, s[idx as int].name, s[l - 1].name);
                }
            } else {
                assert(t[k] == s[k - 1] && t[l] == s[l - 1]);
            }
        }
    }
}

impl Database {
    /// Creates a project with a fresh id; the name must be unused.
    pub fn create_project(&mut self, name: &str, description: &str) -> (r: DbResult<i64>)
        requires
            old(self).wf(),
        ensures
            final(self).wf(),
            r is Err ==> *final(self) == *old(self),
            r is Ok <==> !project_name_taken(old(self).projects(), name@) && !old(
                self,
            ).project_ids_exhausted(),
            r is Err ==> (r->Err_0 == DatabaseError::DuplicateName <==> project_name_taken(
                old(self).projects(),
                name@,
            )),
            r is Err ==> (r->Err_0 == DatabaseError::DuplicateName || r->Err_0
                == DatabaseError::StorageFull),
            r is Ok ==> r->Ok_0 >= 1 && final(self).projects() == old(self).projects().push(
                ProjectV {
                    id: r->Ok_0 as int,
                    name: name@,
                    description: description@,
                    is_active: true,
                },
            ),
            r is Ok ==> !has_project(old(self).projects(), r->Ok_0 as int),
            r is Ok ==> r->Ok_0 as int == old(self).id_counters().0 && final(self).id_counters()
                == (old(self).id_counters().0 + 1, old(self).id_counters().1, old(
                self,
            ).id_counters().2),
            final(self).activities() == old(self).activities(),
            final(self).entries() == old(self).entries(),
    {
        if project_name_exists(&self.project_rows, name) {
            return Err(DatabaseError::DuplicateName);
        }
        if self.next_project_id == i64::MAX {
            return Err(DatabaseError::StorageFull);
        }
        let id = self.next_project_id;
        self.next_project_id = id + 1;
        let row = Project {
            id,
            name: String::from_str(name),
            description: String::from_str(description),
            is_active: true,
        };
        self.project_rows.push(row);
        proof {
            let ps = old(self).projects();
            let pv = ProjectV { id: id as int, name: name@, description: description@, is_active: true };
            let t = self.projects();
            assert(t =~= ps.push(pv));
            assert forall|i: int, j: int|
                #![trigger t[i], t[j]]
                0 <= i < j < t.len() implies t[i].id != t[j].id && t[i].name != t[j].name by {
                if j == t.len() - 1 {
                    assert(t[i] == ps[i]);
                    if ps[i].name == name@ {
                        assert(project_name_taken(ps, name@));
                    }
                } else {
                    assert(t[i] == ps[i] && t[j] == ps[j]);
                }
            }
            assert forall|i: int| 0 <= i < t.len() implies 1 <= (#[trigger] t[i]).id
                < self.next_project_id by {
                if i < t.len() - 1 {
                    assert(t[i] == ps[i]);
                }
            }
            assert forall|i: int| 0 <= i < self.activities().len() implies has_project(
                t,
                (#[trigger] self.activities()[i]).project_id,
            ) by {
                let acts = self.activities();
                assert(acts == old(self).activities());
                assert(has_project(ps, acts[i].project_id));
                let k = choose|k: int| 0 <= k < ps.len() && #[trigger] ps[k].id == acts[
                    i
                ].project_id;
                assert(0 <= k < ps.len());
                assert(t[k] == ps[k]);
            }
            assert(self.activities() == old(self).activities());
            assert(self.entries() == old(self).entries());
            assert(t == self.projects());
            assert(!has_project(ps, id as int)) by {
                if has_project(ps, id as int) {
                    let k = choose|k: int| 0 <= k < ps.len() && #[trigger] ps[k].id == id as int;
                    assert(ps[k].id < id as int);
                }
            }
        }
        Ok(id)
    }

    /// All projects, or only the active ones, sorted by name.
    pub fn get_all_projects(&self, only_active: bool) -> (r: DbResult<Vec<Project>>)
        ensures
            r is Ok,
            projects_sorted(r->Ok_0@.map_values(|x: Project| x@)),
            r->Ok_0@.map_values(|x: Project| x@).to_multiset() == filter_projects(
                self.projects(),
                only_active,
            ).to_multiset(),
    {
        let mut out: Vec<Project> = Vec::new();
        let n = self.project_rows.len();
        let mut i: usize = 0;
        while i < n
            invariant
                i <= n,
                n == self.project_rows@.len(),
                projects_sorted(out@.map_values(|x: Project| x@)),
                out@.map_values(|x: Project| x@).to_multiset() == filter_projects(
                    self.projects().subrange(0, i as int),
                    only_active,
                ).to_multiset(),
            decreases n - i,
        {
            proof {
                assert(self.projects().subrange(0, i + 1).drop_last() =~= self.projects().subrange(
                    0,
                    i as int,
                ));
                assert(self.projects().subrange(0, i + 1).last() == self.projects()[i as int]);
            }
            let row = &self.project_rows[i];
            if !only_active || row.is_active {
                insert_project_sorted(&mut out, row.clone());
            }
            i = i + 1;
        }
        proof {
            assert(self.projects().subrange(0, n as int) =~= self.projects());
        }
        Ok(out)
    }

    /// Renames a project and replaces its description; the new name must
    /// not belong to another project.
    pub fn update_project(&mut self, id: i64, name: &str, description: &str) -> (r: DbResult<()>)
        requires
            old(self).wf(),
        ensures
            final(self).wf(),
            r is Err ==> *final(self) == *old(self),
            final(self).id_counters() == old(self).id_counters(),
            r is Err ==> (r->Err_0 == DatabaseError::ProjectNotFound(id) <==> !has_project(
                old(self).projects(),
                id as int,
            )),
            r is Err ==> (r->Err_0 == DatabaseError::ProjectNotFound(id) || r->Err_0
                == DatabaseError::DuplicateName),
            r is Ok <==> has_project(old(self).projects(), id as int) && !other_project_named(
                old(self).projects(),
                id as int,
                name@,
            ),
            r is Ok ==> exists|i: int|
                {
                    &&& 0 <= i < old(self).projects().len()
                    &&& (#[trigger] old(self).projects()[i]).id == id as int
                    &&& final(self).projects() == old(self).projects().update(
                        i,
                        ProjectV {
                            id: id as int,
                            name: name@,
                            description: description@,
                            is_active: old(self).projects()[i].is_active,
                        },
                    )
                },
            final(self).activities() == old(self).activities(),
            final(self).entries() == old(self).entries(),
    {
        let idx = match find_project_index(&self.project_rows, id) {
            None => {
                return Err(DatabaseError::ProjectNotFound(id));
            },
            Some(i) => i,
        };
        let ghost ps = self.projects();
        let mut conflict = false;
        let mut i: usize = 0;
        while i < self.project_rows.len()
            invariant
                i <= self.project_rows@.len(),
                ps == self.projects(),
                conflict ==> other_project_named(ps, id as int, name@),
                !conflict ==> forall|k: int|
                    0 <= k < i ==> !((#[trigger] ps[k]).id != id as int && ps[k].name == name@),
            decreases self.project_rows@.len() - i,
        {
            if self.project_rows[i].id != id && str_eq(self.project_rows[i].name.as_str(), name) {
                proof {
                    assert((ps[i as int]).id != id as int && ps[i as int].name == name@);
                }
                conflict = true;
            }
            i = i + 1;
        }
        if conflict {
            return Err(DatabaseError::DuplicateName);
        }
        let row = self.project_rows.remove(idx);
        let new_row = Project {
            id: row.id,
            name: String::from_str(name),
            description: String::from_str(description),
            is_active: row.is_active,
        };
        self.project_rows.insert(idx, new_row);
        proof {
            let pv = ProjectV {
                id: id as int,
                name: name@,
                description: description@,
                is_active: ps[idx as int].is_active,
            };
            let t = self.projects();
            assert(t =~= ps.update(idx as int, pv));
            assert forall|i2: int, j2: int|
                #![trigger t[i2], t[j2]]
                0 <= i2 < j2 < t.len() implies t[i2].id != t[j2].id && t[i2].name != t[j2].name by {
                if i2 != idx && j2 != idx {
                    assert(t[i2] == ps[i2] && t[j2] == ps[j2]);
                } else if i2 == idx {
                    assert(t[j2] == ps[j2]);
                    assert(ps[j2].id != id as int);
                } else {
                    assert(t[i2] == ps[i2]);
                    assert(ps[i2].id != id as int);
                }
            }
            assert forall|i2: int| 0 <= i2 < self.activities().len() implies has_project(
                t,
                (#[trigger] self.activities()[i2]).project_id,
            ) by {
                let acts = self.activities();
                assert(acts == old(self).activities());
                assert(has_project(ps, acts[i2].project_id));
                let k = choose|k: int| 0 <= k < ps.len() && #[trigger] ps[k].id == acts[
                    i2
                ].project_id;
                assert(t[k].id == ps[k].id);
            }
            assert(self.activities() == old(self).activities());
            assert(self.entries() == old(self).entries());
            assert(t == self.projects());
        }
        Ok(())
    }

    /// Marks a project inactive (soft delete).
    pub fn deactivate_project(&mut self, id: i64) -> (r: DbResult<()>)
        requires
            old(self).wf(),
        ensures
            final(self).wf(),
            r is Err ==> *final(self) == *old(self),
            final(self).id_counters() == old(self).id_counters(),
            r is Err <==> !has_project(old(self).projects(), id as int),
            r is Err ==> r->Err_0 == DatabaseError::ProjectNotFound(id),
            r is Ok ==> exists|i: int|
                {
                    &&& 0 <= i < old(self).projects().len()
                    &&& (#[trigger] old(self).projects()[i]).id == id as int
                    &&& final(self).projects() == old(self).projects().update(
                        i,
                        ProjectV { is_active: false, ..old(self).projects()[i] },
                    )
                },
            final(self).activities() == old(self).activities(),
            final(self).entries() == old(self).entries(),
    {
        self.set_project_active(id, false)
    }

    /// Marks a project active again.
    pub fn reactivate_project(&mut self, id: i64) -> (r: DbResult<()>)
        requires
            old(self).wf(),
        ensures
            final(self).wf(),
            r is Err ==> *final(self) == *old(self),
            final(self).id_counters() == old(self).id_counters(),
            r is Err <==> !has_project(old(self).projects(), id as int),
            r is Err ==> r->Err_0 == DatabaseError::ProjectNotFound(id),
            r is Ok ==> exists|i: int|
                {
                    &&& 0 <= i < old(self).projects().len()
                    &&& (#[trigger] old(self).projects()[i]).id == id as int
                    &&& final(self).projects() == old(self).projects().update(
                        i,
                        ProjectV { is_active: true, ..old(self).projects()[i] },
                    )
                },
            final(self).activities() == old(self).activities(),
            final(self).entries() == old(self).entries(),
    {
        self.set_project_active(id, true)
    }

    fn set_project_active(&mut self, id: i64, active: bool) -> (r: DbResult<()>)
        requires
            old(self).wf(),
        ensures
            final(self).wf(),
            r is Err ==> *final(self) == *old(self),
            final(self).id_counters() == old(self).id_counters(),
            r is Err <==> !has_project(old(self).projects(), id as int),
            r is Err ==> r->Err_0 == DatabaseError::ProjectNotFound(id),
            r is Ok ==> exists|i: int|
                {
                    &&& 0 <= i < old(self).projects().len()
                    &&& (#[trigger] old(self).projects()[i]).id == id as int
                    &&& final(self).projects() == old(self).projects().update(
                        i,
                        ProjectV { is_active: active, ..old(self).projects()[i] },
                    )
                },
            final(self).activities() == old(self).activities(),
            final(self).entries() == old(self).entries(),
    {
        let idx = match find_project_index(&self.project_rows, id) {
            None => {
                return Err(DatabaseError::ProjectNotFound(id));
            },
            Some(i) => i,
        };
        let ghost ps = self.projects();
        let row = self.project_rows.remove(idx);
        let new_row = Project {
            id: row.id,
            name: row.name,
            description: row.description,
            is_active: active,
        };
        self.project_rows.insert(idx, new_row);
        proof {
            let pv = ProjectV { is_active: active, ..ps[idx as int] };
            let t = self.projects();
            assert(t =~= ps.update(idx as int, pv));
            assert forall|i2: int, j2: int|
                #![trigger t[i2], t[j2]]
                0 <= i2 < j2 < t.len() implies t[i2].id != t[j2].id && t[i2].name != t[j2].name by {
                assert(t[i2].id == ps[i2].id && t[i2].name == ps[i2].name);
                assert(t[j2].id == ps[j2].id && t[j2].name == ps[j2].name);
            }
            assert forall|i2: int| 0 <= i2 < self.activities().len() implies has_project(
                t,
                (#[trigger] self.activities()[i2]).project_id,
            ) by {
                let acts = self.activities();
                assert(acts == old(self).activities());
                assert(has_project(ps, acts[i2].project_id));
                let k = choose|k: int| 0 <= k < ps.len() && #[trigger] ps[k].id == acts[
                    i2
                ].project_id;
                assert(t[k].id == ps[k].id);
            }
            assert(self.activities() == old(self).activities());
            assert(self.entries() == old(self).entries());
            assert(t == self.projects());
        }
        Ok(())
    }

    /// Removes a project for good; refused while it still owns activity
    /// types, whether active or not.
    pub fn delete_project(&mut self, id: i64) -> (r: DbResult<()>)
        requires
            old(self).wf(),
        ensures
            final(self).wf(),
            r is Err ==> *final(self) == *old(self),
            final(self).id_counters() == old(self).id_counters(),
            r is Err ==> (r->Err_0 == DatabaseError::ProjectHasActivities
                <==> project_has_activities(old(self).activities(), id as int)),
            r is Err ==> (r->Err_0 == DatabaseError::ProjectHasActivities || r->Err_0
                == DatabaseError::ProjectNotFound(id)),
            r is Ok <==> !project_has_activities(old(self).activities(), id as int)
                && has_project(old(self).projects(), id as int),
            r is Ok ==> exists|i: int|
                {
                    &&& 0 <= i < old(self).projects().len()
                    &&& (#[trigger] old(self).projects()[i]).id == id as int
                    &&& final(self).projects() == old(self).projects().remove(i)
                },
            final(self).activities() == old(self).activities(),
            final(self).entries() == old(self).entries(),
    {
        let ghost ps = self.projects();
        let ghost acts = self.activities();
        let mut found = false;
        let mut i: usize = 0;
        while i < self.activity_rows.len()
            invariant
                i <= self.activity_rows@.len(),
                acts == self.activities(),
                found ==> project_has_activities(acts, id as int),
                !found ==> forall|k: int|
                    0 <= k < i ==> (#[trigger] acts[k]).project_id != id as int,
            decreases self.activity_rows@.len() - i,
        {
            if self.activity_rows[i].project_id == id {
                proof {
                    assert(acts[i as int].project_id == id as int);
                }
                found = true;
            }
            i = i + 1;
        }
        if found {
            return Err(DatabaseError::ProjectHasActivities);
        }
        let idx = match find_project_index(&self.project_rows, id) {
            None => {
                return Err(DatabaseError::ProjectNotFound(id));
            },
            Some(i2) => i2,
        };
        self.project_rows.remove(idx);
        proof {
            let t = self.projects();
            assert(t =~= ps.remove(idx as int));
            assert forall|i2: int, j2: int|
                #![trigger t[i2], t[j2]]
                0 <= i2 < j2 < t.len() implies t[i2].id != t[j2].id && t[i2].name != t[j2].name by {
                let oi = if i2 < idx {
                    i2
                } else {
                    i2 + 1
                };
                let oj = if j2 < idx {
                    j2
                } else {
                    j2 + 1
                };
                assert(t[i2] == ps[oi] && t[j2] == ps[oj]);
            }
            assert forall|i2: int| 0 <= i2 < self.activities().len() implies has_project(
                t,
                (#[trigger] self.activities()[i2]).project_id,
            ) by {
                assert(self.activities() == acts);
                assert(has_project(ps, acts[i2].project_id));
                let k = choose|k: int| 0 <= k < ps.len() && #[trigger] ps[k].id == acts[
                    i2
                ].project_id;
                assert(ps[k].id != id as int);
                assert(k != idx);
                if k < idx {
                    assert(t[k] == ps[k]);
                } else {
                    assert(t[k - 1] == ps[k]);
                }
            }
            assert(self.activities() == old(self).activities());
            assert(self.entries() == old(self).entries());
            assert(t == self.projects());
        }
        Ok(())
    }

    /// The project with this id.
    pub fn get_project(&self, id: i64) -> (r: DbResult<Project>)
        ensures
            r is Ok <==> has_project(self.projects(), id as int),
            r is Ok ==> self.projects().contains(r->Ok_0@) && r->Ok_0@.id == id as int,
            r is Err ==> r->Err_0 == DatabaseError::ProjectNotFound(id),
    {
        match find_project_index(&self.project_rows, id) {
            Some(i) => {
                let row = self.project_rows[i].clone();
                proof {
                    assert(self.projects()[i as int] == row@);
                }
                Ok(row)
            },
            None => Err(DatabaseError::ProjectNotFound(id)),
        }
    }
}

// ---------------------------------------------------------------------------
// Activity types
// ---------------------------------------------------------------------------

/// First row index holding this activity id, if any.
fn find_activity_index(rows: &Vec<ActivityType>, id: i64) -> (r: Option<usize>)
    ensures
        r is Some ==> r->0 < rows@.len() && rows@.map_values(|a: ActivityType| a@)[
            r->0 as int
        ].id == id as int,
        r is None ==> !has_activity(rows@.map_values(|a: ActivityType| a@), id as int),
{
    let ghost s = rows@.map_values(|a: ActivityType| a@);
    let mut i: usize = 0;
    while i < rows.len()
        invariant
            i <= rows.len(),
            s == rows@.map_values(|a: ActivityType| a@),
            forall|k: int| 0 <= k < i ==> (#[trigger] s[k]).id != id as int,
        decreases rows.len() - i,
    {
        if rows[i].id == id {
            return Some(i);
        }
        i = i + 1;
    }
    None
}

/// Inserts an activity type into a name-sorted vector, keeping it sorted.
fn insert_activity_sorted(out: &mut Vec<ActivityType>, a: ActivityType)
    requires
        activities_sorted(old(out)@.map_values(|x: ActivityType| x@)),
    ensures
        activities_sorted(final(out)@.map_values(|x: ActivityType| x@)),
        final(out)@.map_values(|x: ActivityType| x@).to_multiset() == old(out)@.map_values(
            |x: ActivityType| x@,
        ).to_multiset().insert(a@),
{
    let ghost s = out@.map_values(|x: ActivityType| x@);
    let mut idx: usize = 0;
    while idx < out.len() && str_le(out[idx].name.as_str(), a.name.as_str())
        invariant
            idx <= out@.len(),
            s == out@.map_values(|x: ActivityType| x@),
            forall|k: int| 0 <= k < idx ==> lex_le((#[trigger] s[k]).name, a@.name),
        decreases out@.len() - idx,
    {
        idx = idx + 1;
    }
    proof {
        if (idx as int) < s.len() {
            lemma_lex_le_total(s[idx as int].name, a@.name);
        }
    }
    out.insert(idx, a);
    proof {
        let t = out@.map_values(|x: ActivityType| x@);
        assert(t =~= s.insert(idx as int, a@));
        assert forall|k: int, l: int|
            #![trigger t[k], t[l]]
            0 <= k < l < t.len() implies lex_le(t[k].name, t[l].name) by {
            if l < idx {
                assert(t[k] == s[k] && t[l] == s[l]);
            } else if k < idx && l == idx {
                assert(t[k] == s[k] && t[l] == a@);
            } else if k < idx && l > idx {
                assert(t[k] == s[k] && t[l] == s[l - 1]);
            } else if k == idx {
                assert(t[k] == a@ && t[l] == s[l - 1]);
                assert(lex_le(a@.name, s[idx as int].name));
                if l - 1 > idx {
                    lemma_lex_le_trans(a@.name, s[idx as int].name, s[l - 1].name);
                }
            } else {
                assert(t[k] == s[k - 1] && t[l] == s[l - 1]);
            }
        }
    }
}

impl Database {
    /// Creates an activity type under an existing project; the name must
    /// be unused within that project.
    pub fn create_activity_type(&mut self, project_id: i64, name: &str) -> (r: DbResult<i64>)
        requires
            old(self).wf(),
        ensures
            final(self).wf(),
            r is Err ==> *final(self) == *old(self),
            r is Err ==> (r->Err_0 == DatabaseError::ProjectNotFound(project_id) <==> !has_project(
                old(self).projects(),
                project_id as int,
            )),
            r is Err ==> (r->Err_0 == DatabaseError::DuplicateName <==> has_project(
                old(self).projects(),
                project_id as int,
            ) && activity_name_taken(old(self).activities(), project_id as int, name@)),
            r is Err ==> (r->Err_0 == DatabaseError::ProjectNotFound(project_id) || r->Err_0
                == DatabaseError::DuplicateName || r->Err_0 == DatabaseError::StorageFull),
            r is Ok <==> has_project(old(self).projects(), project_id as int)
                && !activity_name_taken(old(self).activities(), project_id as int, name@) && !old(
                self,
            ).activity_ids_exhausted(),
            r is Ok ==> r->Ok_0 >= 1 && final(self).activities() == old(self).activities().push(
                ActivityTypeV {
                    id: r->Ok_0 as int,
                    project_id: project_id as int,
                    name: name@,
                    is_active: true,
                },
            ),
            r is Ok ==> !has_activity(old(self).activities(), r->Ok_0 as int),
            r is Ok ==> r->Ok_0 as int == old(self).id_counters().1 && final(self).id_counters()
                == (old(self).id_counters().0, old(self).id_counters().1 + 1, old(
                self,
            ).id_counters().2),
            final(self).projects() == old(self).projects(),
            final(self).entries() == old(self).entries(),
    {
        if find_project_index(&self.project_rows, project_id).is_none() {
            return Err(DatabaseError::ProjectNotFound(project_id));
        }
        let ghost acts = self.activities();
        let mut taken = false;
        let mut i: usize = 0;
        while i < self.activity_rows.len()
            invariant
                i <= self.activity_rows@.len(),
                acts == self.activities(),
                taken ==> activity_name_taken(acts, project_id as int, name@),
                !taken ==> forall|k: int|
                    0 <= k < i ==> !((#[trigger] acts[k]).project_id == project_id as int
                        && acts[k].name == name@),
            decreases self.activity_rows@.len() - i,
        {
            if self.activity_rows[i].project_id == project_id && str_eq(
                self.activity_rows[i].name.as_str(),
                name,
            ) {
                proof {
                    assert(acts[i as int].project_id == project_id as int && acts[i as int].name
                        == name@);
                }
                taken = true;
            }
            i = i + 1;
        }
        if taken {
            return Err(DatabaseError::DuplicateName);
        }
        if self.next_activity_id == i64::MAX {
            return Err(DatabaseError::StorageFull);
        }
        let id = self.next_activity_id;
        self.next_activity_id = id + 1;
        let row = ActivityType { id, project_id, name: String::from_str(name), is_active: true };
        self.activity_rows.push(row);
        proof {
            let av = ActivityTypeV {
                id: id as int,
                project_id: project_id as int,
                name: name@,
                is_active: true,
            };
            let t = self.activities();
            assert(t =~= acts.push(av));
            assert forall|i2: int, j2: int|
                #![trigger t[i2], t[j2]]
                0 <= i2 < j2 < t.len() implies t[i2].id != t[j2].id && !(t[i2].project_id
                == t[j2].project_id && t[i2].name == t[j2].name) by {
                if j2 == t.len() - 1 {
                    assert(t[i2] == acts[i2]);
                    if acts[i2].project_id == project_id as int && acts[i2].name == name@ {
                        assert(activity_name_taken(acts, project_id as int, name@));
                    }
                } else {
                    assert(t[i2] == acts[i2] && t[j2] == acts[j2]);
                }
            }
            assert forall|i2: int| 0 <= i2 < t.len() implies 1 <= (#[trigger] t[i2]).id
                < self.next_activity_id by {
                if i2 < t.len() - 1 {
                    assert(t[i2] == acts[i2]);
                }
            }
            assert forall|i2: int| 0 <= i2 < t.len() implies has_project(
                self.projects(),
                (#[trigger] t[i2]).project_id,
            ) by {
                assert(self.projects() == old(self).projects());
                if i2 < t.len() - 1 {
                    assert(t[i2] == acts[i2]);
                    assert(has_project(old(self).projects(), acts[i2].project_id));
                }
            }
            assert forall|i2: int| 0 <= i2 < self.entries().len() implies has_activity(
                t,
                (#[trigger] self.entries()[i2]).activity_type_id,
            ) by {
                let es = self.entries();
                assert(es == old(self).entries());
                assert(has_activity(acts, es[i2].activity_type_id));
                let k = choose|k: int| 0 <= k < acts.len() && #[trigger] acts[k].id == es[
                    i2
                ].activity_type_id;
                assert(t[k] == acts[k]);
            }
            assert(self.projects() == old(self).projects());
            assert(self.entries() == old(self).entries());
            assert(t == self.activities());
            assert(!has_activity(acts, id as int)) by {
                if has_activity(acts, id as int) {
                    let k = choose|k: int| 0 <= k < acts.len() && #[trigger] acts[k].id
                        == id as int;
                    assert(acts[k].id < id as int);
                }
            }
        }
        Ok(id)
    }

    /// The activity types of one project, sorted by name.
    pub fn get_activity_types_for_project(&self, project_id: i64, only_active: bool) -> (r:
        DbResult<Vec<ActivityType>>)
        ensures
            r is Ok,
            activities_sorted(r->Ok_0@.map_values(|x: ActivityType| x@)),
            r->Ok_0@.map_values(|x: ActivityType| x@).to_multiset() == filter_activities(
                self.activities(),
                Some(project_id as int),
                only_active,
            ).to_multiset(),
    {
        self.collect_activities(Some(project_id), only_active)
    }

    /// All activity types, or only the active ones, sorted by name.
    pub fn get_all_activity_types(&self, only_active: bool) -> (r: DbResult<Vec<ActivityType>>)
        ensures
            r is Ok,
            activities_sorted(r->Ok_0@.map_values(|x: ActivityType| x@)),
            r->Ok_0@.map_values(|x: ActivityType| x@).to_multiset() == filter_activities(
                self.activities(),
                None,
                only_active,
            ).to_multiset(),
    {
        self.collect_activities(None, only_active)
    }

    fn collect_activities(&self, project_id: Option<i64>, only_active: bool) -> (r: DbResult<
        Vec<ActivityType>,
    >)
        ensures
            r is Ok,
            activities_sorted(r->Ok_0@.map_values(|x: ActivityType| x@)),
            r->Ok_0@.map_values(|x: ActivityType| x@).to_multiset() == filter_activities(
                self.activities(),
                match project_id {
                    Some(pid) => Some(pid as int),
                    None => None,
                },
                only_active,
            ).to_multiset(),
    {
        let ghost pid_spec: Option<int> = match project_id {
            Some(pid) => Some(pid as int),
            None => None,
        };
        let mut out: Vec<ActivityType> = Vec::new();
        let n = self.activity_rows.len();
        let mut i: usize = 0;
        while i < n
            invariant
                i <= n,
                n == self.activity_rows@.len(),
                pid_spec == (match project_id {
                    Some(pid) => Some(pid as int),
                    None => None,
                }),
                activities_sorted(out@.map_values(|x: ActivityType| x@)),
                out@.map_values(|x: ActivityType| x@).to_multiset() == filter_activities(
                    self.activities().subrange(0, i as int),
                    pid_spec,
                    only_active,
                ).to_multiset(),
            decreases n - i,
        {
            proof {
                assert(self.activities().subrange(0, i + 1).drop_last()
                    =~= self.activities().subrange(0, i as int));
                assert(self.activities().subrange(0, i + 1).last() == self.activities()[i as int]);
            }
            let row = &self.activity_rows[i];
            let keep_project = match project_id {
                Some(pid) => row.project_id == pid,
                None => true,
            };
            if keep_project && (!only_active || row.is_active) {
                insert_activity_sorted(&mut out, row.clone());
            }
            i = i + 1;
        }
        proof {
            assert(self.activities().subrange(0, n as int) =~= self.activities());
        }
        Ok(out)
    }

    /// The activity type with this id.
    pub fn get_activity_type(&self, id: i64) -> (r: DbResult<ActivityType>)
        ensures
            r is Ok <==> has_activity(self.activities(), id as int),
            r is Ok ==> self.activities().contains(r->Ok_0@) && r->Ok_0@.id == id as int,
            r is Err ==> r->Err_0 == DatabaseError::ActivityNotFound(id),
    {
        match find_activity_index(&self.activity_rows, id) {
            Some(i) => {
                let row = self.activity_rows[i].clone();
                proof {
                    assert(self.activities()[i as int] == row@);
                }
                Ok(row)
            },
            None => Err(DatabaseError::ActivityNotFound(id)),
        }
    }

    /// Renames an activity type; the new name must not belong to a sibling
    /// under the same project.
    pub fn update_activity_type(&mut self, id: i64, name: &str) -> (r: DbResult<()>)
        requires
            old(self).wf(),
        ensures
            final(self).wf(),
            r is Err ==> *final(self) == *old(self),
            final(self).id_counters() == old(self).id_counters(),
            r is Err ==> (r->Err_0 == DatabaseError::ActivityNotFound(id) <==> !has_activity(
                old(self).activities(),
                id as int,
            )),
            r is Err ==> (r->Err_0 == DatabaseError::ActivityNotFound(id) || r->Err_0
                == DatabaseError::DuplicateName),
            r is Ok <==> exists|i: int|
                {
                    &&& 0 <= i < old(self).activities().len()
                    &&& (#[trigger] old(self).activities()[i]).id == id as int
                    &&& !other_activity_named(
                        old(self).activities(),
                        id as int,
                        old(self).activities()[i].project_id,
                        name@,
                    )
                },
            r is Ok ==> exists|i: int|
                {
                    &&& 0 <= i < old(self).activities().len()
                    &&& (#[trigger] old(self).activities()[i]).id == id as int
                    &&& final(self).activities() == old(self).activities().update(
                        i,
                        ActivityTypeV { name: name@, ..old(self).activities()[i] },
                    )
                },
            final(self).projects() == old(self).projects(),
            final(self).entries() == old(self).entries(),
    {
        let idx = match find_activity_index(&self.activity_rows, id) {
            None => {
                return Err(DatabaseError::ActivityNotFound(id));
            },
            Some(i) => i,
        };
        let ghost acts = self.activities();
        let pid = self.activity_rows[idx].project_id;
        let mut conflict = false;
        let mut i: usize = 0;
        while i < self.activity_rows.len()
            invariant
                i <= self.activity_rows@.len(),
                acts == self.activities(),
                pid as int == acts[idx as int].project_id,
                idx < acts.len(),
                conflict ==> other_activity_named(acts, id as int, pid as int, name@),
                !conflict ==> forall|k: int|
                    0 <= k < i ==> !((#[trigger] acts[k]).id != id as int && acts[k].project_id
                        == pid as int && acts[k].name == name@),
            decreases self.activity_rows@.len() - i,
        {
            if self.activity_rows[i].id != id && self.activity_rows[i].project_id == pid && str_eq(
                self.activity_rows[i].name.as_str(),
                name,
            ) {
                proof {
                    assert(acts[i as int].id != id as int && acts[i as int].project_id
                        == pid as int && acts[i as int].name == name@);
                }
                conflict = true;
            }
            i = i + 1;
        }
        if conflict {
            return Err(DatabaseError::DuplicateName);
        }
        let row = self.activity_rows.remove(idx);
        let new_row = ActivityType {
            id: row.id,
            project_id: row.project_id,
            name: String::from_str(name),
            is_active: row.is_active,
        };
        self.activity_rows.insert(idx, new_row);
        proof {
            let av = ActivityTypeV { name: name@, ..acts[idx as int] };
            let t = self.activities();
            assert(t =~= acts.update(idx as int, av));
            assert forall|i2: int, j2: int|
                #![trigger t[i2], t[j2]]
                0 <= i2 < j2 < t.len() implies t[i2].id != t[j2].id && !(t[i2].project_id
                == t[j2].project_id && t[i2].name == t[j2].name) by {
                if i2 != idx && j2 != idx {
                    assert(t[i2] == acts[i2] && t[j2] == acts[j2]);
                } else if i2 == idx {
                    assert(t[j2] == acts[j2]);
                    assert(acts[j2].id != id as int);
                } else {
                    assert(t[i2] == acts[i2]);
                    assert(acts[i2].id != id as int);
                }
            }
            assert forall|i2: int| 0 <= i2 < t.len() implies has_project(
                self.projects(),
                (#[trigger] t[i2]).project_id,
            ) by {
                assert(self.projects() == old(self).projects());
                assert(t[i2].project_id == acts[i2].project_id);
                assert(has_project(old(self).projects(), acts[i2].project_id));
            }
            assert forall|i2: int| 0 <= i2 < self.entries().len() implies has_activity(
                t,
                (#[trigger] self.entries()[i2]).activity_type_id,
            ) by {
                let es = self.entries();
                assert(es == old(self).entries());
                assert(has_activity(acts, es[i2].activity_type_id));
                let k = choose|k: int| 0 <= k < acts.len() && #[trigger] acts[k].id == es[
                    i2
                ].activity_type_id;
                assert(t[k].id == acts[k].id);
            }
            assert(self.projects() == old(self).projects());
            assert(self.entries() == old(self).entries());
            assert(t == self.activities());
        }
        Ok(())
    }

    /// Marks an activity type inactive (soft delete).
    pub fn deactivate_activity_type(&mut self, id: i64) -> (r: DbResult<()>)
        requires
            old(self).wf(),
        ensures
            final(self).wf(),
            r is Err ==> *final(self) == *old(self),
            final(self).id_counters() == old(self).id_counters(),
            r is Err <==> !has_activity(old(self).activities(), id as int),
            r is Err ==> r->Err_0 == DatabaseError::ActivityNotFound(id),
            r is Ok ==> exists|i: int|
                {
                    &&& 0 <= i < old(self).activities().len()
                    &&& (#[trigger] old(self).activities()[i]).id == id as int
                    &&& final(self).activities() == old(self).activities().update(
                        i,
                        ActivityTypeV { is_active: false, ..old(self).activities()[i] },
                    )
                },
            final(self).projects() == old(self).projects(),
            final(self).entries() == old(self).entries(),
    {
        self.set_activity_active(id, false)
    }

    /// Marks an activity type active again.
    pub fn reactivate_activity_type(&mut self, id: i64) -> (r: DbResult<()>)
        requires
            old(self).wf(),
        ensures
            final(self).wf(),
            r is Err ==> *final(self) == *old(self),
            final(self).id_counters() == old(self).id_counters(),
            r is Err <==> !has_activity(old(self).activities(), id as int),
            r is Err ==> r->Err_0 == DatabaseError::ActivityNotFound(id),
            r is Ok ==> exists|i: int|
                {
                    &&& 0 <= i < old(self).activities().len()
                    &&& (#[trigger] old(self).activities()[i]).id == id as int
                    &&& final(self).activities() == old(self).activities().update(
                        i,
                        ActivityTypeV { is_active: true, ..old(self).activities()[i] },
                    )
                },
            final(self).projects() == old(self).projects(),
            final(self).entries() == old(self).entries(),
    {
        self.set_activity_active(id, true)
    }

    fn set_activity_active(&mut self, id: i64, active: bool) -> (r: DbResult<()>)
        requires
            old(self).wf(),
        ensures
            final(self).wf(),
            r is Err ==> *final(self) == *old(self),
            final(self).id_counters() == old(self).id_counters(),
            r is Err <==> !has_activity(old(self).activities(), id as int),
            r is Err ==> r->Err_0 == DatabaseError::ActivityNotFound(id),
            r is Ok ==> exists|i: int|
                {
                    &&& 0 <= i < old(self).activities().len()
                    &&& (#[trigger] old(self).activities()[i]).id == id as int
                    &&& final(self).activities() == old(self).activities().update(
                        i,
                        ActivityTypeV { is_active: active, ..old(self).activities()[i] },
                    )
                },
            final(self).projects() == old(self).projects(),
            final(self).entries() == old(self).entries(),
    {
        let idx = match find_activity_index(&self.activity_rows, id) {
            None => {
                return Err(DatabaseError::ActivityNotFound(id));
            },
            Some(i) => i,
        };
        let ghost acts = self.activities();
        let row = self.activity_rows.remove(idx);
        let new_row = ActivityType {
            id: row.id,
            project_id: row.project_id,
            name: row.name,
            is_active: active,
        };
        self.activity_rows.insert(idx, new_row);
        proof {
            let av = ActivityTypeV { is_active: active, ..acts[idx as int] };
            let t = self.activities();
            assert(t =~= acts.update(idx as int, av));
            assert forall|i2: int, j2: int|
                #![trigger t[i2], t[j2]]
                0 <= i2 < j2 < t.len() implies t[i2].id != t[j2].id && !(t[i2].project_id
                == t[j2].project_id && t[i2].name == t[j2].name) by {
                assert(t[i2].id == acts[i2].id && t[i2].name == acts[i2].name && t[i2].project_id
                    == acts[i2].project_id);
                assert(t[j2].id == acts[j2].id && t[j2].name == acts[j2].name && t[j2].project_id
                    == acts[j2].project_id);
            }
            assert forall|i2: int| 0 <= i2 < t.len() implies has_project(
                self.projects(),
                (#[trigger] t[i2]).project_id,
            ) by {
                assert(self.projects() == old(self).projects());
                assert(t[i2].project_id == acts[i2].project_id);
                assert(has_project(old(self).projects(), acts[i2].project_id));
            }
            assert forall|i2: int| 0 <= i2 < self.entries().len() implies has_activity(
                t,
                (#[trigger] self.entries()[i2]).activity_type_id,
            ) by {
                let es = self.entries();
                assert(es == old(self).entries());
                assert(has_activity(acts, es[i2].activity_type_id));
                let k = choose|k: int| 0 <= k < acts.len() && #[trigger] acts[k].id == es[
                    i2
                ].activity_type_id;
                assert(t[k].id == acts[k].id);
            }
            assert(self.projects() == old(self).projects());
            assert(self.entries() == old(self).entries());
            assert(t == self.activities());
        }
        Ok(())
    }

    /// Removes an activity type for good; refused while it still owns time
    /// entries.
    pub fn delete_activity_type(&mut self, id: i64) -> (r: DbResult<()>)
        requires
            old(self).wf(),
        ensures
            final(self).wf(),
            r is Err ==> *final(self) == *old(self),
            final(self).id_counters() == old(self).id_counters(),
            r is Err ==> (r->Err_0 == DatabaseError::ActivityHasEntries <==> activity_has_entries(
                old(self).entries(),
                id as int,
            )),
            r is Err ==> (r->Err_0 == DatabaseError::ActivityHasEntries || r->Err_0
                == DatabaseError::ActivityNotFound(id)),
            r is Ok <==> !activity_has_entries(old(self).entries(), id as int) && has_activity(
                old(self).activities(),
                id as int,
            ),
            r is Ok ==> exists|i: int|
                {
                    &&& 0 <= i < old(self).activities().len()
                    &&& (#[trigger] old(self).activities()[i]).id == id as int
                    &&& final(self).activities() == old(self).activities().remove(i)
                },
            final(self).projects() == old(self).projects(),
            final(self).entries() == old(self).entries(),
    {
        let ghost acts = self.activities();
        let ghost es = self.entries();
        let mut found = false;
        let mut i: usize = 0;
        while i < self.entry_rows.len()
            invariant
                i <= self.entry_rows@.len(),
                es == self.entries(),
                found ==> activity_has_entries(es, id as int),
                !found ==> forall|k: int|
                    0 <= k < i ==> (#[trigger] es[k]).activity_type_id != id as int,
            decreases self.entry_rows@.len() - i,
        {
            if self.entry_rows[i].activity_type_id == id {
                proof {
                    assert(es[i as int].activity_type_id == id as int);
                }
                found = true;
            }
            i = i + 1;
        }
        if found {
            return Err(DatabaseError::ActivityHasEntries);
        }
        let idx = match find_activity_index(&self.activity_rows, id) {
            None => {
                return Err(DatabaseError::ActivityNotFound(id));
            },
            Some(i2) => i2,
        };
        self.activity_rows.remove(idx);
        proof {
            let t = self.activities();
            assert(t =~= acts.remove(idx as int));
            assert forall|i2: int, j2: int|
                #![trigger t[i2], t[j2]]
                0 <= i2 < j2 < t.len() implies t[i2].id != t[j2].id && !(t[i2].project_id
                == t[j2].project_id && t[i2].name == t[j2].name) by {
                let oi = if i2 < idx {
                    i2
                } else {
                    i2 + 1
                };
                let oj = if j2 < idx {
                    j2
                } else {
                    j2 + 1
                };
                assert(t[i2] == acts[oi] && t[j2] == acts[oj]);
            }
            assert forall|i2: int| 0 <= i2 < t.len() implies has_project(
                self.projects(),
                (#[trigger] t[i2]).project_id,
            ) by {
                assert(self.projects() == old(self).projects());
                let oi = if i2 < idx {
                    i2
                } else {
                    i2 + 1
                };
                assert(t[i2] == acts[oi]);
                assert(has_project(old(self).projects(), acts[oi].project_id));
            }
            assert forall|i2: int| 0 <= i2 < self.entries().len() implies has_activity(
                t,
                (#[trigger] self.entries()[i2]).activity_type_id,
            ) by {
                assert(self.entries() == es);
                assert(has_activity(acts, es[i2].activity_type_id));
                let k = choose|k: int| 0 <= k < acts.len() && #[trigger] acts[k].id == es[
                    i2
                ].activity_type_id;
                assert(acts[k].id != id as int);
                assert(acts[idx as int].id == id as int);
                assert(k != idx);
                if k < idx {
                    assert(t[k] == acts[k]);
                } else {
                    assert(t[k - 1] == acts[k]);
                }
            }
            assert(self.projects() == old(self).projects());
            assert(self.entries() == old(self).entries());
            assert(t == self.activities());
        }
        Ok(())
    }
}

// ---------------------------------------------------------------------------
// Time entries
// ---------------------------------------------------------------------------

/// First row index holding this entry id, if any.
fn find_entry_index(rows: &Vec<TimeEntry>, id: i64) -> (r: Option<usize>)
    ensures
        r is Some ==> r->0 < rows@.len() && rows@.map_values(|e: TimeEntry| e@)[r->0 as int].id
            == id as int,
        r is None ==> !has_entry(rows@.map_values(|e: TimeEntry| e@), id as int),
{
    let ghost s = rows@.map_values(|e: TimeEntry| e@);
    let mut i: usize = 0;
    while i < rows.len()
        invariant
            i <= rows.len(),
            s == rows@.map_values(|e: TimeEntry| e@),
            forall|k: int| 0 <= k < i ==> (#[trigger] s[k]).id != id as int,
        decreases rows.len() - i,
    {
        if rows[i].id == id {
            return Some(i);
        }
        i = i + 1;
    }
    None
}

/// Chronological-then-id comparison of two entry rows.
fn entry_le_exec(a: &TimeEntry, b: &TimeEntry) -> (r: bool)
    ensures
        r == entry_le(a@, b@),
{
    if a.date == b.date {
        a.id <= b.id
    } else {
        date_le_exec(&a.date, &b.date)
    }
}

/// Inserts a time entry into a date-then-id-sorted vector, keeping it sorted.
fn insert_entry_sorted(out: &mut Vec<TimeEntry>, e: TimeEntry)
    requires
        entries_date_sorted(old(out)@.map_values(|x: TimeEntry| x@)),
    ensures
        entries_date_sorted(final(out)@.map_values(|x: TimeEntry| x@)),
        final(out)@.map_values(|x: TimeEntry| x@).to_multiset() == old(out)@.map_values(
            |x: TimeEntry| x@,
        ).to_multiset().insert(e@),
{
    let ghost s = out@.map_values(|x: TimeEntry| x@);
    let mut idx: usize = 0;
    while idx < out.len() && entry_le_exec(&out[idx], &e)
        invariant
            idx <= out@.len(),
            s == out@.map_values(|x: TimeEntry| x@),
            forall|k: int| 0 <= k < idx ==> entry_le(#[trigger] s[k], e@),
        decreases out@.len() - idx,
    {
        idx = idx + 1;
    }
    out.insert(idx, e);
    proof {
        let t = out@.map_values(|x: TimeEntry| x@);
        assert(t =~= s.insert(idx as int, e@));
        assert forall|k: int, l: int|
            #![trigger t[k], t[l]]
            0 <= k < l < t.len() implies entry_le(t[k], t[l]) by {
            if l < idx {
                assert(t[k] == s[k] && t[l] == s[l]);
            } else if k < idx && l == idx {
                assert(t[k] == s[k] && t[l] == e@);
            } else if k < idx && l > idx {
                assert(t[k] == s[k] && t[l] == s[l - 1]);
            } else if k == idx {
                assert(t[k] == e@ && t[l] == s[l - 1]);
                assert(!entry_le(s[idx as int], e@));
                assert(entry_le(e@, s[idx as int]));
                if l - 1 > idx {
                    assert(entry_le(s[idx as int], s[l - 1]));
                }
            } else {
                assert(t[k] == s[k - 1] && t[l] == s[l - 1]);
            }
        }
    }
}

impl Database {
    /// Records minutes spent on an existing activity type on some day.
    pub fn create_time_entry(
        &mut self,
        activity_type_id: i64,
        date: Date,
        minutes: i32,
        comment: &str,
    ) -> (r: DbResult<i64>)
        requires
            old(self).wf(),
            date.is_valid(),
            minutes >= 0,
        ensures
            final(self).wf(),
            r is Err ==> *final(self) == *old(self),
            r is Err ==> (r->Err_0 == DatabaseError::ActivityNotFound(activity_type_id)
                <==> !has_activity(old(self).activities(), activity_type_id as int)),
            r is Err ==> (r->Err_0 == DatabaseError::ActivityNotFound(activity_type_id) || r->Err_0
                == DatabaseError::StorageFull),
            r is Ok <==> has_activity(old(self).activities(), activity_type_id as int) && !old(
                self,
            ).entry_ids_exhausted() && sum_minutes(old(self).entries()) + minutes <= 0x7FFF_FFFF,
            r is Ok ==> r->Ok_0 >= 1 && final(self).entries() == old(self).entries().push(
                TimeEntryV {
                    id: r->Ok_0 as int,
                    activity_type_id: activity_type_id as int,
                    date,
                    minutes: minutes as int,
                    comment: comment@,
                },
            ),
            r is Ok ==> !has_entry(old(self).entries(), r->Ok_0 as int),
            r is Ok ==> r->Ok_0 as int == old(self).id_counters().2 && final(self).id_counters()
                == (old(self).id_counters().0, old(self).id_counters().1, old(
                self,
            ).id_counters().2 + 1),
            final(self).projects() == old(self).projects(),
            final(self).activities() == old(self).activities(),
    {
        if find_activity_index(&self.activity_rows, activity_type_id).is_none() {
            return Err(DatabaseError::ActivityNotFound(activity_type_id));
        }
        if self.next_entry_id == i64::MAX {
            return Err(DatabaseError::StorageFull);
        }
        let total = self.total_minutes_stored();
        if total + minutes as i64 > 0x7FFF_FFFF {
            return Err(DatabaseError::StorageFull);
        }
        let id = self.next_entry_id;
        self.next_entry_id = id + 1;
        let row = TimeEntry {
            id,
            activity_type_id,
            date,
            minutes,
            comment: String::from_str(comment),
        };
        self.entry_rows.push(row);
        proof {
            let es = old(self).entries();
            let ev = TimeEntryV {
                id: id as int,
                activity_type_id: activity_type_id as int,
                date,
                minutes: minutes as int,
                comment: comment@,
            };
            let t = self.entries();
            assert(t =~= es.push(ev));
            assert(t.drop_last() =~= es);
            assert(t.last() == ev);
            assert forall|i2: int, j2: int|
                #![trigger t[i2], t[j2]]
                0 <= i2 < j2 < t.len() implies t[i2].id < t[j2].id by {
                assert(t[i2] == es[i2]);
                if j2 < t.len() - 1 {
                    assert(t[j2] == es[j2]);
                }
            }
            assert forall|i2: int| 0 <= i2 < t.len() implies 1 <= (#[trigger] t[i2]).id
                < self.next_entry_id by {
                if i2 < t.len() - 1 {
                    assert(t[i2] == es[i2]);
                }
            }
            assert forall|i2: int| 0 <= i2 < t.len() implies has_activity(
                self.activities(),
                (#[trigger] t[i2]).activity_type_id,
            ) by {
                assert(self.activities() == old(self).activities());
                if i2 < t.len() - 1 {
                    assert(t[i2] == es[i2]);
                    assert(has_activity(old(self).activities(), es[i2].activity_type_id));
                }
            }
            assert(self.projects() == old(self).projects());
            assert(self.activities() == old(self).activities());
            assert(t == self.entries());
            assert(!has_entry(es, id as int)) by {
                if has_entry(es, id as int) {
                    let k = choose|k: int| 0 <= k < es.len() && #[trigger] es[k].id == id as int;
                    assert(es[k].id < id as int);
                }
            }
        }
        Ok(id)
    }

    /// Sum of every stored entry's minutes; fits an i32 by the invariant.
    fn total_minutes_stored(&self) -> (r: i64)
        requires
            self.wf(),
        ensures
            r as int == sum_minutes(self.entries()),
            0 <= r <= 0x7FFF_FFFF,
    {
        let ghost es = self.entries();
        let n = self.entry_rows.len();
        let mut acc: i64 = 0;
        let mut i: usize = 0;
        while i < n
            invariant
                i <= n,
                n == self.entry_rows@.len(),
                es == self.entries(),
                self.wf(),
                acc as int == sum_minutes(es.subrange(0, i as int)),
                0 <= acc <= 0x7FFF_FFFF,
            decreases n - i,
        {
            proof {
                assert(es.subrange(0, i + 1).drop_last() =~= es.subrange(0, i as int));
                assert(es.subrange(0, i + 1).last() == es[i as int]);
                lemma_sum_prefix_le(es, i + 1);
                lemma_sum_nonneg(es.subrange(0, i + 1));
                assert(sum_minutes(es.subrange(0, i + 1)) <= sum_minutes(es));
            }
            acc = acc + self.entry_rows[i].minutes as i64;
            i = i + 1;
        }
        proof {
            assert(es.subrange(0, n as int) =~= es);
        }
        acc
    }

    /// The entries of one day, in ascending id order.
    pub fn get_time_entries_for_date(&self, date: &Date) -> (r: DbResult<Vec<TimeEntry>>)
        requires
            self.wf(),
        ensures
            r is Ok,
            r->Ok_0@.map_values(|e: TimeEntry| e@) == entries_on(self.entries(), *date),
            forall|k: int, l: int|
                #![trigger r->Ok_0@[k], r->Ok_0@[l]]
                0 <= k < l < r->Ok_0@.len() ==> r->Ok_0@[k]@.id < r->Ok_0@[l]@.id,
    {
        let ghost es = self.entries();
        let mut out: Vec<TimeEntry> = Vec::new();
        let n = self.entry_rows.len();
        let mut i: usize = 0;
        while i < n
            invariant
                i <= n,
                n == self.entry_rows@.len(),
                es == self.entries(),
                out@.map_values(|e: TimeEntry| e@) == entries_on(es.subrange(0, i as int), *date),
            decreases n - i,
        {
            proof {
                assert(es.subrange(0, i + 1).drop_last() =~= es.subrange(0, i as int));
                assert(es.subrange(0, i + 1).last() == es[i as int]);
            }
            let row = &self.entry_rows[i];
            if row.date == *date {
                insert_last_entry(&mut out, row.clone());
            }
            i = i + 1;
        }
        proof {
            assert(es.subrange(0, n as int) =~= es);
            lemma_entries_on_id_sorted(es, *date);
            assert(forall|k: int|
                0 <= k < out@.len() ==> (#[trigger] out@[k])@ == entries_on(es, *date)[k]);
        }
        Ok(out)
    }

    /// The entries dated within an inclusive range, ordered by date and id.
    pub fn get_time_entries_for_range(&self, start_date: &Date, end_date: &Date) -> (r: DbResult<
        Vec<TimeEntry>,
    >)
        ensures
            r is Ok,
            entries_date_sorted(r->Ok_0@.map_values(|e: TimeEntry| e@)),
            r->Ok_0@.map_values(|e: TimeEntry| e@).to_multiset() == entries_in_range(
                self.entries(),
                *start_date,
                *end_date,
            ).to_multiset(),
    {
        let ghost es = self.entries();
        let mut out: Vec<TimeEntry> = Vec::new();
        let n = self.entry_rows.len();
        let mut i: usize = 0;
        while i < n
            invariant
                i <= n,
                n == self.entry_rows@.len(),
                es == self.entries(),
                entries_date_sorted(out@.map_values(|e: TimeEntry| e@)),
                out@.map_values(|e: TimeEntry| e@).to_multiset() == entries_in_range(
                    es.subrange(0, i as int),
                    *start_date,
                    *end_date,
                ).to_multiset(),
            decreases n - i,
        {
            proof {
                assert(es.subrange(0, i + 1).drop_last() =~= es.subrange(0, i as int));
                assert(es.subrange(0, i + 1).last() == es[i as int]);
            }
            let row = &self.entry_rows[i];
            if date_le_exec(start_date, &row.date) && date_le_exec(&row.date, end_date) {
                insert_entry_sorted(&mut out, row.clone());
            }
            i = i + 1;
        }
        proof {
            assert(es.subrange(0, n as int) =~= es);
        }
        Ok(out)
    }

    /// Replaces an entry's minutes and comment.  An unknown id changes
    /// nothing and is not an error.
    pub fn update_time_entry(&mut self, id: i64, minutes: i32, comment: &str) -> (r: DbResult<()>)
        requires
            old(self).wf(),
            minutes >= 0,
        ensures
            final(self).wf(),
            r is Err ==> *final(self) == *old(self),
            final(self).id_counters() == old(self).id_counters(),
            r is Err ==> r->Err_0 == DatabaseError::StorageFull,
            !has_entry(old(self).entries(), id as int) ==> r is Ok && *final(self) == *old(self),
            has_entry(old(self).entries(), id as int) ==> (r is Ok <==> exists|i: int|
                {
                    &&& 0 <= i < old(self).entries().len()
                    &&& (#[trigger] old(self).entries()[i]).id == id as int
                    &&& sum_minutes(old(self).entries()) - old(self).entries()[i].minutes + minutes
                        <= 0x7FFF_FFFF
                }),
            r is Ok && has_entry(old(self).entries(), id as int) ==> exists|i: int|
                {
                    &&& 0 <= i < old(self).entries().len()
                    &&& (#[trigger] old(self).entries()[i]).id == id as int
                    &&& final(self).entries() == old(self).entries().update(
                        i,
                        TimeEntryV {
                            minutes: minutes as int,
                            comment: comment@,
                            ..old(self).entries()[i]
                        },
                    )
                },
            final(self).projects() == old(self).projects(),
            final(self).activities() == old(self).activities(),
    {
        let idx = match find_entry_index(&self.entry_rows, id) {
            None => {
                return Ok(());
            },
            Some(i) => i,
        };
        let ghost es = self.entries();
        let total = self.total_minutes_stored();
        let old_minutes = self.entry_rows[idx].minutes;
        if total - old_minutes as i64 + minutes as i64 > 0x7FFF_FFFF {
            return Err(DatabaseError::StorageFull);
        }
        let row = self.entry_rows.remove(idx);
        let new_row = TimeEntry {
            id: row.id,
            activity_type_id: row.activity_type_id,
            date: row.date,
            minutes,
            comment: String::from_str(comment),
        };
        self.entry_rows.insert(idx, new_row);
        proof {
            let ev = TimeEntryV { minutes: minutes as int, comment: comment@, ..es[idx as int] };
            let t = self.entries();
            assert(t =~= es.update(idx as int, ev));
            lemma_sum_update(es, idx as int, ev);
            assert forall|i2: int, j2: int|
                #![trigger t[i2], t[j2]]
                0 <= i2 < j2 < t.len() implies t[i2].id < t[j2].id by {
                assert(t[i2].id == es[i2].id && t[j2].id == es[j2].id);
            }
            assert forall|i2: int| 0 <= i2 < t.len() implies has_activity(
                self.activities(),
                (#[trigger] t[i2]).activity_type_id,
            ) by {
                assert(self.activities() == old(self).activities());
                assert(t[i2].activity_type_id == es[i2].activity_type_id);
                assert(has_activity(old(self).activities(), es[i2].activity_type_id));
            }
            assert forall|i2: int| 0 <= i2 < t.len() implies (#[trigger] t[i2]).date.is_valid() by {
                assert(t[i2].date == es[i2].date);
                assert(es[i2].date.is_valid());
            }
            assert(self.projects() == old(self).projects());
            assert(self.activities() == old(self).activities());
            assert(t == self.entries());
        }
        Ok(())
    }

    /// Removes a time entry.  An unknown id changes nothing and is not an
    /// error.
    pub fn delete_time_entry(&mut self, id: i64) -> (r: DbResult<()>)
        requires
            old(self).wf(),
        ensures
            final(self).wf(),
            r is Ok,
            final(self).id_counters() == old(self).id_counters(),
            !has_entry(old(self).entries(), id as int) ==> *final(self) == *old(self),
            has_entry(old(self).entries(), id as int) ==> exists|i: int|
                {
                    &&& 0 <= i < old(self).entries().len()
                    &&& (#[trigger] old(self).entries()[i]).id == id as int
                    &&& final(self).entries() == old(self).entries().remove(i)
                },
            final(self).projects() == old(self).projects(),
            final(self).activities() == old(self).activities(),
    {
        let idx = match find_entry_index(&self.entry_rows, id) {
            None => {
                return Ok(());
            },
            Some(i) => i,
        };
        let ghost es = self.entries();
        self.entry_rows.remove(idx);
        proof {
            let t = self.entries();
            assert(t =~= es.remove(idx as int));
            lemma_sum_remove(es, idx as int);
            assert(es[idx as int].minutes >= 0);
            assert forall|i2: int, j2: int|
                #![trigger t[i2], t[j2]]
                0 <= i2 < j2 < t.len() implies t[i2].id < t[j2].id by {
                let oi = if i2 < idx {
                    i2
                } else {
                    i2 + 1
                };
                let oj = if j2 < idx {
                    j2
                } else {
                    j2 + 1
                };
                assert(t[i2] == es[oi] && t[j2] == es[oj]);
            }
            assert forall|i2: int| 0 <= i2 < t.len() implies has_activity(
                self.activities(),
                (#[trigger] t[i2]).activity_type_id,
            ) by {
                assert(self.activities() == old(self).activities());
                let oi = if i2 < idx {
                    i2
                } else {
                    i2 + 1
                };
                assert(t[i2] == es[oi]);
                assert(has_activity(old(self).activities(), es[oi].activity_type_id));
            }
            assert(self.projects() == old(self).projects());
            assert(self.activities() == old(self).activities());
            assert(t == self.entries());
        }
        Ok(())
    }

    /// Total minutes recorded on one day.
    pub fn get_total_time_for_date(&self, date: &Date) -> (r: DbResult<i32>)
        requires
            self.wf(),
        ensures
            r is Ok,
            r->Ok_0 as int == sum_minutes(entries_on(self.entries(), *date)),
    {
        let ghost es = self.entries();
        let n = self.entry_rows.len();
        let mut acc: i64 = 0;
        let mut i: usize = 0;
        while i < n
            invariant
                i <= n,
                n == self.entry_rows@.len(),
                es == self.entries(),
                self.wf(),
                acc as int == sum_minutes(entries_on(es.subrange(0, i as int), *date)),
                0 <= acc <= 0x7FFF_FFFF,
            decreases n - i,
        {
            proof {
                assert(es.subrange(0, i + 1).drop_last() =~= es.subrange(0, i as int));
                assert(es.subrange(0, i + 1).last() == es[i as int]);
                if es[i as int].date == *date {
                    assert(entries_on(es.subrange(0, i + 1), *date).drop_last() =~= entries_on(
                        es.subrange(0, i as int),
                        *date,
                    ));
                }
                lemma_sum_entries_on_bounds(es.subrange(0, i + 1), *date);
                lemma_sum_prefix_le(es, i + 1);
            }
            let row = &self.entry_rows[i];
            if row.date == *date {
                acc = acc + row.minutes as i64;
            }
            i = i + 1;
        }
        proof {
            assert(es.subrange(0, n as int) =~= es);
            lemma_sum_entries_on_bounds(es, *date);
        }
        Ok(acc as i32)
    }
}

// ---------------------------------------------------------------------------
// Daily summaries
// ---------------------------------------------------------------------------

proof fn lemma_summary_le_total(a: ActivitySummaryV, b: ActivitySummaryV)
    ensures
        summary_le(a, b) || summary_le(b, a),
{
    lemma_lex_le_total(a.project_name, b.project_name);
    if a.project_name == b.project_name {
        lemma_lex_le_total(a.activity_name, b.activity_name);
    }
}

proof fn lemma_summary_le_trans(a: ActivitySummaryV, b: ActivitySummaryV, c: ActivitySummaryV)
    requires
        summary_le(a, b),
        summary_le(b, c),
    ensures
        summary_le(a, c),
{
    if a.project_name == b.project_name {
        if b.project_name == c.project_name {
            lemma_lex_le_trans(a.activity_name, b.activity_name, c.activity_name);
        }
    } else {
        if b.project_name == c.project_name {
        } else {
            lemma_lex_le_trans(a.project_name, b.project_name, c.project_name);
            if a.project_name == c.project_name {
                lemma_lex_le_antisym(a.project_name, b.project_name);
            }
        }
    }
}

/// Summary order on rows.
fn summary_le_exec(a: &ActivitySummary, b: &ActivitySummary) -> (r: bool)
    ensures
        r == summary_le(a@, b@),
{
    if str_eq(a.project_name.as_str(), b.project_name.as_str()) {
        str_le(a.activity_name.as_str(), b.activity_name.as_str())
    } else {
        str_le(a.project_name.as_str(), b.project_name.as_str())
    }
}

/// Inserts a summary into a sorted vector, keeping it sorted; returns the
/// position the row was put in at.
fn insert_summary_sorted(out: &mut Vec<ActivitySummary>, x: ActivitySummary) -> (j: usize)
    requires
        summaries_sorted(old(out)@.map_values(|s: ActivitySummary| s@)),
    ensures
        summaries_sorted(final(out)@.map_values(|s: ActivitySummary| s@)),
        j <= old(out)@.len(),
        final(out)@.map_values(|s: ActivitySummary| s@) == old(out)@.map_values(
            |s: ActivitySummary| s@,
        ).insert(j as int, x@),
{
    let ghost s = out@.map_values(|v: ActivitySummary| v@);
    let mut idx: usize = 0;
    while idx < out.len() && summary_le_exec(&out[idx], &x)
        invariant
            idx <= out@.len(),
            s == out@.map_values(|v: ActivitySummary| v@),
            forall|k: int| 0 <= k < idx ==> summary_le(#[trigger] s[k], x@),
        decreases out@.len() - idx,
    {
        idx = idx + 1;
    }
    proof {
        if (idx as int) < s.len() {
            lemma_summary_le_total(s[idx as int], x@);
        }
    }
    out.insert(idx, x);
    proof {
        let t = out@.map_values(|v: ActivitySummary| v@);
        assert(t =~= s.insert(idx as int, x@));
        assert forall|k: int, l: int|
            #![trigger t[k], t[l]]
            0 <= k < l < t.len() implies summary_le(t[k], t[l]) by {
            if l < idx {
                assert(t[k] == s[k] && t[l] == s[l]);
            } else if k < idx && l == idx {
                assert(t[k] == s[k] && t[l] == x@);
            } else if k < idx && l > idx {
                assert(t[k] == s[k] && t[l] == s[l - 1]);
            } else if k == idx {
                assert(t[k] == x@ && t[l] == s[l - 1]);
                assert(summary_le(x@, s[idx as int]));
                if l - 1 > idx {
                    lemma_summary_le_trans(x@, s[idx as int], s[l - 1]);
                }
            } else {
                assert(t[k] == s[k - 1] && t[l] == s[l - 1]);
            }
        }
    }
    idx
}

/// First row index carrying this activity type id, if any.
fn find_summary_index(rows: &Vec<ActivitySummary>, id: i64) -> (r: Option<usize>)
    ensures
        r is Some ==> r->0 < rows@.len() && rows@[r->0 as int]@.activity_type_id == id as int,
        r is None ==> forall|k: int|
            0 <= k < rows@.len() ==> (#[trigger] rows@[k])@.activity_type_id != id as int,
{
    let mut i: usize = 0;
    while i < rows.len()
        invariant
            i <= rows.len(),
            forall|k: int| 0 <= k < i ==> (#[trigger] rows@[k])@.activity_type_id != id as int,
        decreases rows.len() - i,
    {
        if rows[i].activity_type_id == id {
            return Some(i);
        }
        i = i + 1;
    }
    None
}

/// Some row among the first `n` of the sequence carries this activity
/// type id.
pub open spec fn covered_by(aid: int, s: Seq<ActivitySummaryV>, n: int) -> bool {
    exists|m: int| 0 <= m < n && (#[trigger] s[m]).activity_type_id == aid
}

/// Some summary row of the vector carries this activity type id.
pub open spec fn rows_cover(rows: Seq<ActivitySummary>, aid: int) -> bool {
    exists|k: int| 0 <= k < rows.len() && (#[trigger] rows[k])@.activity_type_id == aid
}

/// Putting one more summary row into a sorted sequence keeps every row's
/// description, the distinctness of activity types, and the two-way
/// correspondence with the first `i + 1` source rows.
#[verifier::rlimit(100)]
proof fn lemma_summary_insert_keeps(
    db: Database,
    d: Date,
    bv: Seq<ActivitySummaryV>,
    ov: Seq<ActivitySummaryV>,
    gsv: Seq<ActivitySummaryV>,
    i: int,
    jj: int,
)
    requires
        0 <= i < gsv.len(),
        0 <= jj <= bv.len(),
        ov == bv.insert(jj, gsv[i]),
        forall|k: int| 0 <= k < gsv.len() ==> db.summary_desc(d, #[trigger] gsv[k]),
        forall|k: int, l: int|
            #![trigger gsv[k], gsv[l]]
            0 <= k < l < gsv.len() ==> gsv[k].activity_type_id != gsv[l].activity_type_id,
        forall|k: int| 0 <= k < bv.len() ==> db.summary_desc(d, #[trigger] bv[k]),
        forall|k: int, l: int|
            #![trigger bv[k], bv[l]]
            0 <= k < l < bv.len() ==> bv[k].activity_type_id != bv[l].activity_type_id,
        forall|k: int|
            0 <= k < bv.len() ==> covered_by((#[trigger] bv[k]).activity_type_id, gsv, i),
        forall|m: int|
            0 <= m < i ==> covered_by((#[trigger] gsv[m]).activity_type_id, bv, bv.len() as int),
    ensures
        forall|k: int| 0 <= k < ov.len() ==> db.summary_desc(d, #[trigger] ov[k]),
        forall|k: int, l: int|
            #![trigger ov[k], ov[l]]
            0 <= k < l < ov.len() ==> ov[k].activity_type_id != ov[l].activity_type_id,
        forall|k: int|
            0 <= k < ov.len() ==> covered_by((#[trigger] ov[k]).activity_type_id, gsv, i + 1),
        forall|m: int|
            0 <= m < i + 1 ==> covered_by((#[trigger] gsv[m]).activity_type_id, ov, ov.len() as int),
{
    assert forall|k: int| 0 <= k < ov.len() implies db.summary_desc(d, #[trigger] ov[k]) by {
        if k < jj {
            assert(ov[k] == bv[k]);
        } else if k == jj {
            assert(ov[k] == gsv[i]);
        } else {
            assert(ov[k] == bv[k - 1]);
        }
    }
    assert forall|k: int, l: int|
        #![trigger ov[k], ov[l]]
        0 <= k < l < ov.len() implies ov[k].activity_type_id != ov[l].activity_type_id by {
        if k == jj {
            assert(ov[l] == bv[l - 1]);
            assert(covered_by(bv[l - 1].activity_type_id, gsv, i));
            let m = choose|m: int|
                0 <= m < i && (#[trigger] gsv[m]).activity_type_id == bv[l - 1].activity_type_id;
            assert(gsv[m].activity_type_id != gsv[i].activity_type_id);
        } else if l == jj {
            assert(ov[k] == bv[k]);
            assert(covered_by(bv[k].activity_type_id, gsv, i));
            let m = choose|m: int|
                0 <= m < i && (#[trigger] gsv[m]).activity_type_id == bv[k].activity_type_id;
            assert(gsv[m].activity_type_id != gsv[i].activity_type_id);
        } else {
            let k0: int = if k < jj {
                k
            } else {
                k - 1
            };
            let l0: int = if l < jj {
                l
            } else {
                l - 1
            };
            assert(ov[k] == bv[k0] && ov[l] == bv[l0]);
        }
    }
    assert forall|k: int| 0 <= k < ov.len() implies covered_by(
        (#[trigger] ov[k]).activity_type_id,
        gsv,
        i + 1,
    ) by {
        if k == jj {
            assert(0 <= i < i + 1 && (#[trigger] gsv[i]).activity_type_id
                == ov[k].activity_type_id);
        } else {
            let k0: int = if k < jj {
                k
            } else {
                k - 1
            };
            assert(ov[k] == bv[k0]);
            assert(covered_by(bv[k0].activity_type_id, gsv, i));
            let m = choose|m: int|
                0 <= m < i && (#[trigger] gsv[m]).activity_type_id == bv[k0].activity_type_id;
            assert(0 <= m < i + 1 && (#[trigger] gsv[m]).activity_type_id
                == ov[k].activity_type_id);
        }
    }
    assert forall|m: int| 0 <= m < i + 1 implies covered_by(
        (#[trigger] gsv[m]).activity_type_id,
        ov,
        ov.len() as int,
    ) by {
        if m < i {
            assert(covered_by(gsv[m].activity_type_id, bv, bv.len() as int));
            let k0 = choose|k0: int|
                0 <= k0 < bv.len() && (#[trigger] bv[k0]).activity_type_id
                    == gsv[m].activity_type_id;
            let k1: int = if k0 < jj {
                k0
            } else {
                k0 + 1
            };
            assert(ov[k1] == bv[k0]);
            assert(0 <= k1 < ov.len() && (#[trigger] ov[k1]).activity_type_id
                == gsv[m].activity_type_id);
        } else {
            assert(ov[jj] == gsv[i]);
            assert(0 <= jj < ov.len() && (#[trigger] ov[jj]).activity_type_id
                == gsv[m].activity_type_id);
        }
    }
}

impl Database {
    /// What one summary row of `get_daily_summary` says: it carries the
    /// day's entries of one activity type in store order, their total, and
    /// the names of that activity type and its owning project.  Opaque so
    /// that proofs that only carry it along do not unfold it; reveal it to
    /// use the contents.
    #[verifier::opaque]
    pub open spec fn summary_desc(self, d: Date, sv: ActivitySummaryV) -> bool {
        &&& sv.entries == entries_of(self.entries(), d, sv.activity_type_id)
        &&& forall|k: int, l: int|
            #![trigger sv.entries[k], sv.entries[l]]
            0 <= k < l < sv.entries.len() ==> sv.entries[k].id < sv.entries[l].id
        &&& sv.entries.len() > 0
        &&& sv.total_minutes == sum_minutes(sv.entries)
        &&& exists|a: int|
            {
                &&& 0 <= a < self.activities().len()
                &&& (#[trigger] self.activities()[a]).id == sv.activity_type_id
                &&& self.activities()[a].name == sv.activity_name
                &&& exists|p: int|
                    {
                        &&& 0 <= p < self.projects().len()
                        &&& (#[trigger] self.projects()[p]).id == self.activities()[a].project_id
                        &&& self.projects()[p].name == sv.project_name
                    }
            }
    }

    /// Orders summary rows by project name and then activity name, keeping
    /// what each row says and which activity types are covered.
    #[verifier::rlimit(100)]
    fn sort_summaries(&self, Ghost(d): Ghost<Date>, groups: Vec<ActivitySummary>) -> (out: Vec<
        ActivitySummary,
    >)
        requires
            forall|k: int|
                0 <= k < groups@.len() ==> self.summary_desc(d, (#[trigger] groups@[k])@),
            forall|k: int, l: int|
                #![trigger groups@[k], groups@[l]]
                0 <= k < l < groups@.len() ==> groups@[k]@.activity_type_id
                    != groups@[l]@.activity_type_id,
        ensures
            summaries_sorted(out@.map_values(|s: ActivitySummary| s@)),
            forall|k: int| 0 <= k < out@.len() ==> self.summary_desc(d, (#[trigger] out@[k])@),
            forall|k: int, l: int|
                #![trigger out@[k], out@[l]]
                0 <= k < l < out@.len() ==> out@[k]@.activity_type_id != out@[l]@.activity_type_id,
            forall|m: int|
                0 <= m < groups@.len() ==> rows_cover(
                    out@,
                    (#[trigger] groups@[m])@.activity_type_id,
                ),
    {
        let ghost gsv = groups@.map_values(|s: ActivitySummary| s@);
        proof {
            assert(forall|k: int| 0 <= k < groups@.len() ==> (#[trigger] groups@[k])@ == gsv[k]);
        }
        let mut out: Vec<ActivitySummary> = Vec::new();
        let ghost ovv = out@.map_values(|s: ActivitySummary| s@);
        let ng = groups.len();
        let mut i: usize = 0;
        while i < ng
            invariant
                i <= ng,
                ng == groups@.len(),
                gsv == groups@.map_values(|s: ActivitySummary| s@),
                ovv == out@.map_values(|s: ActivitySummary| s@),
                forall|k: int| 0 <= k < gsv.len() ==> self.summary_desc(d, #[trigger] gsv[k]),
                forall|k: int, l: int|
                    #![trigger gsv[k], gsv[l]]
                    0 <= k < l < gsv.len() ==> gsv[k].activity_type_id != gsv[l].activity_type_id,
                summaries_sorted(ovv),
                forall|k: int| 0 <= k < ovv.len() ==> self.summary_desc(d, #[trigger] ovv[k]),
                forall|k: int, l: int|
                    #![trigger ovv[k], ovv[l]]
                    0 <= k < l < ovv.len() ==> ovv[k].activity_type_id != ovv[l].activity_type_id,
                forall|k: int|
                    0 <= k < ovv.len() ==> covered_by(
                        (#[trigger] ovv[k]).activity_type_id,
                        gsv,
                        i as int,
                    ),
                forall|m: int|
                    0 <= m < i ==> covered_by(
                        (#[trigger] gsv[m]).activity_type_id,
                        ovv,
                        ovv.len() as int,
                    ),
            decreases ng - i,
        {
            let ghost ovv_before = ovv;
            let j_ins = insert_summary_sorted(&mut out, groups[i].clone());
            proof {
                let jj = j_ins as int;
                ovv = out@.map_values(|s: ActivitySummary| s@);
                assert(groups@[i as int]@ == gsv[i as int]);
                assert(ovv == ovv_before.insert(jj, gsv[i as int]));
                lemma_summary_insert_keeps(*self, d, ovv_before, ovv, gsv, i as int, jj);
            }
            i = i + 1;
        }
        proof {
            assert(forall|k: int| 0 <= k < out@.len() ==> (#[trigger] out@[k])@ == ovv[k]);
            assert forall|m: int| 0 <= m < groups@.len() implies rows_cover(
                out@,
                (#[trigger] groups@[m])@.activity_type_id,
            ) by {
                assert(groups@[m]@ == gsv[m]);
                assert(covered_by(gsv[m].activity_type_id, ovv, ovv.len() as int));
                let k = choose|k: int|
                    0 <= k < ovv.len() as int && (#[trigger] ovv[k]).activity_type_id == gsv[
                        m
                    ].activity_type_id;
                assert(out@[k]@ == ovv[k]);
                assert(0 <= k < out@.len() && (#[trigger] out@[k])@.activity_type_id == gsv[
                    m
                ].activity_type_id);
            }
        }
        out
    }

    /// One summary row per activity type that has entries on the given
    /// day, ordered by project name and then activity name; each row's
    /// entries keep ascending id order.
    pub fn get_daily_summary(&self, date: &Date) -> (r: DbResult<Vec<ActivitySummary>>)
        requires
            self.wf(),
        ensures
            r is Ok,
            summaries_sorted(r->Ok_0@.map_values(|s: ActivitySummary| s@)),
            forall|k: int|
                0 <= k < r->Ok_0@.len() ==> self.summary_desc(*date, (#[trigger] r->Ok_0@[k])@),
            forall|k: int, l: int|
                #![trigger r->Ok_0@[k], r->Ok_0@[l]]
                0 <= k < l < r->Ok_0@.len() ==> r->Ok_0@[k]@.activity_type_id
                    != r->Ok_0@[l]@.activity_type_id,
            forall|i: int|
                0 <= i < self.entries().len() && (#[trigger] self.entries()[i]).date == *date
                    ==> rows_cover(r->Ok_0@, self.entries()[i].activity_type_id),
    {
        let ghost es = self.entries();
        let ghost d = *date;
        let day = match self.get_time_entries_for_date(date) {
            Ok(v) => v,
            Err(e) => {
                return Err(e);
            },
        };
        let ghost dayv = day@.map_values(|e: TimeEntry| e@);
        proof {
            assert(dayv == entries_on(es, d));
            lemma_entries_on_props(es, d);
            assert forall|i: int| 0 <= i < dayv.len() implies (#[trigger] dayv[i]).minutes >= 0 by {
                assert(es.contains(dayv[i]));
                let m = choose|m: int| 0 <= m < es.len() && es[m] == dayv[i];
                assert(es[m].minutes >= 0);
            }
        }

        // group the day's entries by activity type, in first-seen order
        let mut groups: Vec<ActivitySummary> = Vec::new();
        let nd = day.len();
        let mut j: usize = 0;
        while j < nd
            invariant
                j <= nd,
                nd == day@.len(),
                self.wf(),
                es == self.entries(),
                d == *date,
                dayv == day@.map_values(|e: TimeEntry| e@),
                dayv == entries_on(es, d),
                forall|i: int| 0 <= i < dayv.len() ==> (#[trigger] dayv[i]).minutes >= 0,
                forall|k: int, l: int|
                    #![trigger groups@[k], groups@[l]]
                    0 <= k < l < groups@.len() ==> groups@[k]@.activity_type_id
                        != groups@[l]@.activity_type_id,
                forall|k: int|
                    0 <= k < groups@.len() ==> (#[trigger] groups@[k])@.entries
                        == entries_with_activity(
                        dayv.subrange(0, j as int),
                        groups@[k]@.activity_type_id,
                    ),
                forall|k: int|
                    0 <= k < groups@.len() ==> (#[trigger] groups@[k])@.entries.len() > 0,
                forall|k: int|
                    0 <= k < groups@.len() ==> (#[trigger] groups@[k])@.total_minutes
                        == sum_minutes(groups@[k]@.entries),
                forall|k: int|
                    0 <= k < groups@.len() ==> exists|a: int|
                        {
                            &&& 0 <= a < self.activities().len()
                            &&& (#[trigger] self.activities()[a]).id == (#[trigger] groups@[
                                k
                            ])@.activity_type_id
                            &&& self.activities()[a].name == groups@[k]@.activity_name
                            &&& exists|p: int|
                                {
                                    &&& 0 <= p < self.projects().len()
                                    &&& (#[trigger] self.projects()[p]).id == self.activities()[
                                        a
                                    ].project_id
                                    &&& self.projects()[p].name == groups@[k]@.project_name
                                }
                        },
                forall|m: int|
                    0 <= m < j ==> exists|k: int|
                        0 <= k < groups@.len() && (#[trigger] groups@[k])@.activity_type_id == (
                        #[trigger] dayv[m]).activity_type_id,
            decreases nd - j,
        {
            proof {
                assert(dayv.subrange(0, j + 1).drop_last() =~= dayv.subrange(0, j as int));
                assert(dayv.subrange(0, j + 1).last() == dayv[j as int]);
            }
            let e = &day[j];
            let ghost ev = dayv[j as int];
            proof {
                assert(e@ == ev);
            }
            match find_summary_index(&groups, e.activity_type_id) {
                Some(gi) => {
                    proof {
                        // the group's new total still fits an i32: it is the
                        // total of a selection of a prefix of the day's rows
                        lemma_entries_with_activity_props(
                            dayv.subrange(0, j as int),
                            ev.activity_type_id,
                        );
                        assert(forall|i2: int|
                            0 <= i2 < dayv.subrange(0, j as int).len() ==> (#[trigger] dayv.subrange(
                                0,
                                j as int,
                            )[i2]).minutes >= 0);
                        lemma_sum_prefix_le(dayv, j + 1);
                        lemma_sum_prefix_le(dayv.subrange(0, j + 1), j as int);
                        assert(dayv.subrange(0, j + 1).subrange(0, j as int) =~= dayv.subrange(
                            0,
                            j as int,
                        ));
                        assert(sum_minutes(dayv.subrange(0, j + 1)) == sum_minutes(
                            dayv.subrange(0, j as int),
                        ) + ev.minutes);
                        lemma_sum_entries_on_bounds(es, d);
                        lemma_sum_nonneg(dayv.subrange(0, j as int));
                    }
                    let ghost gs_before = groups@;
                    let g = groups.remove(gi);
                    let ghost gv = g@;
                    proof {
                        assert(gv == gs_before[gi as int]@);
                        assert(0 <= sum_minutes(gv.entries) <= sum_minutes(
                            dayv.subrange(0, j as int),
                        ));
                    }
                    let mut entries = g.entries;
                    insert_last_entry(&mut entries, e.clone());
                    let new_g = ActivitySummary {
                        activity_type_id: g.activity_type_id,
                        activity_name: g.activity_name,
                        project_name: g.project_name,
                        total_minutes: g.total_minutes + e.minutes,
                        entries,
                    };
                    groups.insert(gi, new_g);
                    proof {
                        let gsn = groups@;
                        assert(gsn =~= gs_before.update(gi as int, new_g));
                        assert(forall|k: int|
                            0 <= k < gsn.len() && k != gi ==> #[trigger] gsn[k] == gs_before[k]);
                        assert(new_g@.entries =~= gv.entries.push(ev));
                        assert(new_g@.entries.drop_last() =~= gv.entries);
                        assert(new_g@.entries.last() == ev);
                        assert(sum_minutes(new_g@.entries) == sum_minutes(gv.entries)
                            + ev.minutes);
                        assert(new_g@.activity_type_id == gv.activity_type_id);
                        assert(new_g@.activity_name == gv.activity_name);
                        assert(new_g@.project_name == gv.project_name);
                        assert forall|k: int| 0 <= k < gsn.len() implies (#[trigger] gsn[
                            k
                        ])@.entries == entries_with_activity(
                            dayv.subrange(0, j + 1),
                            gsn[k]@.activity_type_id,
                        ) by {
                            if k == gi {
                                assert(gsn[k]@ == new_g@);
                                assert(entries_with_activity(
                                    dayv.subrange(0, j + 1),
                                    ev.activity_type_id,
                                ) == entries_with_activity(
                                    dayv.subrange(0, j as int),
                                    ev.activity_type_id,
                                ).push(ev));
                            } else {
                                assert(gsn[k] == gs_before[k]);
                                assert(gsn[k]@.activity_type_id != ev.activity_type_id);
                            }
                        }
                        assert forall|m: int| 0 <= m < j + 1 implies exists|k: int|
                            0 <= k < gsn.len() && (#[trigger] gsn[k])@.activity_type_id == (
                            #[trigger] dayv[m]).activity_type_id by {
                            if m < j {
                                let k0 = choose|k0: int|
                                    0 <= k0 < gs_before.len() && (#[trigger] gs_before[
                                        k0
                                    ])@.activity_type_id == (#[trigger] dayv[m]).activity_type_id;
                                assert(gsn[k0]@.activity_type_id
                                    == gs_before[k0]@.activity_type_id);
                            } else {
                                assert(gsn[gi as int]@.activity_type_id == ev.activity_type_id);
                            }
                        }
                    }
                },
                None => {
                    // first entry of this activity type today: look up the
                    // activity and project names
                    proof {
                        lemma_entries_on_props(es, d);
                        assert(es.contains(ev));
                        let m = choose|m: int| 0 <= m < es.len() && es[m] == ev;
                        assert(has_activity(self.activities(), ev.activity_type_id));
                    }
                    let ai = match find_activity_index(&self.activity_rows, e.activity_type_id) {
                        Some(ai) => ai,
                        None => {
                            proof {
                                assert(false);
                            }
                            return Err(DatabaseError::ActivityNotFound(e.activity_type_id));
                        },
                    };
                    let act = &self.activity_rows[ai];
                    proof {
                        assert(self.activities()[ai as int] == act@);
                        assert(has_project(self.projects(), act@.project_id));
                    }
                    let pi = match find_project_index(&self.project_rows, act.project_id) {
                        Some(pi) => pi,
                        None => {
                            proof {
                                assert(false);
                            }
                            return Err(DatabaseError::ProjectNotFound(act.project_id));
                        },
                    };
                    let proj = &self.project_rows[pi];
                    let mut entries: Vec<TimeEntry> = Vec::new();
                    proof {
                        assert(entries@.map_values(|x: TimeEntry| x@) =~= Seq::<
                            TimeEntryV,
                        >::empty());
                    }
                    insert_last_entry(&mut entries, e.clone());
                    let new_g = ActivitySummary {
                        activity_type_id: e.activity_type_id,
                        activity_name: act.name.clone(),
                        project_name: proj.name.clone(),
                        total_minutes: e.minutes,
                        entries,
                    };
                    let ghost gs_before = groups@;
                    groups.push(new_g);
                    proof {
                        let gsn = groups@;
                        assert(gsn =~= gs_before.push(new_g));
                        assert(forall|k: int|
                            0 <= k < gs_before.len() ==> #[trigger] gsn[k] == gs_before[k]);
                        assert(gsn[gsn.len() - 1] == new_g);
                        // nothing earlier today carries this activity type,
                        // so its selection so far is empty
                        lemma_entries_with_activity_props(
                            dayv.subrange(0, j as int),
                            ev.activity_type_id,
                        );
                        let prev = entries_with_activity(
                            dayv.subrange(0, j as int),
                            ev.activity_type_id,
                        );
                        if prev.len() > 0 {
                            assert(dayv.subrange(0, j as int).contains(prev[0]));
                            let m = choose|m: int|
                                0 <= m < dayv.subrange(0, j as int).len() && dayv.subrange(
                                    0,
                                    j as int,
                                )[m] == prev[0];
                            assert(dayv[m] == prev[0]);
                            assert(exists|k: int|
                                0 <= k < gs_before.len() && (#[trigger] gs_before[
                                    k
                                ])@.activity_type_id == (#[trigger] dayv[m]).activity_type_id);
                            assert(false);
                        }
                        assert(new_g@.entries =~= prev.push(ev));
                        assert(new_g@.entries.drop_last() =~= prev);
                        assert(new_g@.entries.last() == ev);
                        assert(sum_minutes(prev) == 0);
                        assert(sum_minutes(new_g@.entries) == ev.minutes);
                        assert(self.projects()[pi as int] == proj@);
                        assert forall|k: int| 0 <= k < gsn.len() implies (#[trigger] gsn[
                            k
                        ])@.entries == entries_with_activity(
                            dayv.subrange(0, j + 1),
                            gsn[k]@.activity_type_id,
                        ) by {
                            if k < gsn.len() - 1 {
                                assert(gsn[k] == gs_before[k]);
                                assert(gsn[k]@.activity_type_id != ev.activity_type_id);
                            } else {
                                assert(gsn[k]@ == new_g@);
                                assert(entries_with_activity(
                                    dayv.subrange(0, j + 1),
                                    ev.activity_type_id,
                                ) == prev.push(ev));
                            }
                        }
                        assert forall|m: int| 0 <= m < j + 1 implies exists|k: int|
                            0 <= k < gsn.len() && (#[trigger] gsn[k])@.activity_type_id == (
                            #[trigger] dayv[m]).activity_type_id by {
                            if m < j {
                                let k0 = choose|k0: int|
                                    0 <= k0 < gs_before.len() && (#[trigger] gs_before[
                                        k0
                                    ])@.activity_type_id == (#[trigger] dayv[m]).activity_type_id;
                                assert(gsn[k0]@.activity_type_id
                                    == gs_before[k0]@.activity_type_id);
                            } else {
                                assert(gsn[gsn.len() - 1]@.activity_type_id
                                    == ev.activity_type_id);
                            }
                        }
                    }
                },
            }
            j = j + 1;
        }
        let ghost gs = groups@;
        proof {
            assert(dayv.subrange(0, nd as int) =~= dayv);
            assert forall|k: int| 0 <= k < gs.len() implies self.summary_desc(
                d,
                (#[trigger] gs[k])@,
            ) by {
                reveal(Database::summary_desc);
                lemma_entries_of_split(es, d, gs[k]@.activity_type_id);
                assert(gs[k]@.entries == entries_with_activity(dayv, gs[k]@.activity_type_id));
                lemma_entries_on_id_sorted(es, d);
                lemma_entries_with_activity_id_sorted(dayv, gs[k]@.activity_type_id);
            }
        }
        let out = self.sort_summaries(Ghost(d), groups);
        proof {
            // every entry of the day is covered by some summary row
            assert forall|i2: int|
                0 <= i2 < es.len() && (#[trigger] es[i2]).date == d implies rows_cover(
                out@,
                es[i2].activity_type_id,
            ) by {
                lemma_entries_on_complete(es, d, i2);
                let m = choose|m: int| 0 <= m < dayv.len() && dayv[m] == es[i2];
                let k0 = choose|k0: int|
                    0 <= k0 < gs.len() && (#[trigger] gs[k0])@.activity_type_id == (#[trigger] dayv[
                        m
                    ]).activity_type_id;
                assert(rows_cover(out@, gs[k0]@.activity_type_id));
            }
        }
        Ok(out)
    }
}


/// Appends an entry that is known to come after everything in the vector.
fn insert_last_entry(out: &mut Vec<TimeEntry>, e: TimeEntry)
    ensures
        final(out)@.map_values(|x: TimeEntry| x@) == old(out)@.map_values(
            |x: TimeEntry| x@,
        ).push(e@),
{
    let ghost s = out@.map_values(|x: TimeEntry| x@);
    out.push(e);
    proof {
        assert(out@.map_values(|x: TimeEntry| x@) =~= s.push(e@));
    }
}

} // verus!
