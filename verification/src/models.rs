//! View-state of the tracker: the current tab, the open dialog, form
//! contents with their validity rules, the display cache with its dirty
//! flag, transient user messages and the selected date.

use vstd::prelude::*;
use vstd::string::*;
use crate::chars::{is_blank, trim_spec};
use crate::date::{today, Date};
use crate::records::{ActivityType, Project, TimeEntry, ActivitySummary};
use crate::timefmt::{format_minutes_to_time, minutes_of_time, parse_time_to_minutes};

verus! {

/// The tab the user is on.
#[derive(Debug, Clone, Copy, PartialEq, Eq, Structural)]
pub enum AppView {
    TimeTracking,
    ManageProjects,
    ManageActivities,
    DailySummary,
}

impl Default for AppView {
    fn default() -> (r: Self)
        ensures
            r == AppView::TimeTracking,
    {
        AppView::TimeTracking
    }
}

/// What a pending delete confirmation points at.
#[derive(Debug)]
pub enum DeleteTarget {
    Project(i64, String),
    Activity(i64, String),
    TimeEntry(i64),
}

/// Value equality of two delete targets, comparing names by contents.
pub open spec fn delete_target_eq(a: DeleteTarget, b: DeleteTarget) -> bool {
    match (a, b) {
        (DeleteTarget::Project(i1, n1), DeleteTarget::Project(i2, n2)) => i1 == i2 && n1@ == n2@,
        (DeleteTarget::Activity(i1, n1), DeleteTarget::Activity(i2, n2)) => i1 == i2 && n1@ == n2@,
        (DeleteTarget::TimeEntry(i1), DeleteTarget::TimeEntry(i2)) => i1 == i2,
        _ => false,
    }
}

impl Clone for DeleteTarget {
    fn clone(&self) -> (r: Self)
        ensures
            delete_target_eq(r, *self),
    {
        match self {
            DeleteTarget::Project(id, name) => DeleteTarget::Project(*id, name.clone()),
            DeleteTarget::Activity(id, name) => DeleteTarget::Activity(*id, name.clone()),
            DeleteTarget::TimeEntry(id) => DeleteTarget::TimeEntry(*id),
        }
    }
}

/// The dialog the user has open, carrying the row being edited where one
/// is.
#[derive(Debug)]
pub enum DialogState {
    Closed,
    AddProject,
    EditProject(Project),
    AddActivity(i64),
    EditActivity(ActivityType),
    AddTimeEntry,
    EditTimeEntry(TimeEntry),
    ConfirmDelete(DeleteTarget),
}

/// Value equality of two dialog states: the same kind of dialog carrying
/// the same row, rows compared by their views.
pub open spec fn dialog_eq(a: DialogState, b: DialogState) -> bool {
    match (a, b) {
        (DialogState::Closed, DialogState::Closed) => true,
        (DialogState::AddProject, DialogState::AddProject) => true,
        (DialogState::EditProject(p1), DialogState::EditProject(p2)) => p1@ == p2@,
        (DialogState::AddActivity(i1), DialogState::AddActivity(i2)) => i1 == i2,
        (DialogState::EditActivity(a1), DialogState::EditActivity(a2)) => a1@ == a2@,
        (DialogState::AddTimeEntry, DialogState::AddTimeEntry) => true,
        (DialogState::EditTimeEntry(e1), DialogState::EditTimeEntry(e2)) => e1@ == e2@,
        (DialogState::ConfirmDelete(t1), DialogState::ConfirmDelete(t2)) => delete_target_eq(
            t1,
            t2,
        ),
        _ => false,
    }
}

/// Whether two dialog states are the same kind of dialog, whatever rows
/// they carry.
pub open spec fn same_dialog_kind(a: DialogState, b: DialogState) -> bool {
    match (a, b) {
        (DialogState::Closed, DialogState::Closed) => true,
        (DialogState::AddProject, DialogState::AddProject) => true,
        (DialogState::EditProject(_), DialogState::EditProject(_)) => true,
        (DialogState::AddActivity(_), DialogState::AddActivity(_)) => true,
        (DialogState::EditActivity(_), DialogState::EditActivity(_)) => true,
        (DialogState::AddTimeEntry, DialogState::AddTimeEntry) => true,
        (DialogState::EditTimeEntry(_), DialogState::EditTimeEntry(_)) => true,
        (DialogState::ConfirmDelete(_), DialogState::ConfirmDelete(_)) => true,
        _ => false,
    }
}

/// Whether two dialog states are the same kind of dialog.
pub fn dialog_kind_matches(a: &DialogState, b: &DialogState) -> (r: bool)
    ensures
        r == same_dialog_kind(*a, *b),
{
    match (a, b) {
        (DialogState::Closed, DialogState::Closed) => true,
        (DialogState::AddProject, DialogState::AddProject) => true,
        (DialogState::EditProject(_), DialogState::EditProject(_)) => true,
        (DialogState::AddActivity(_), DialogState::AddActivity(_)) => true,
        (DialogState::EditActivity(_), DialogState::EditActivity(_)) => true,
        (DialogState::AddTimeEntry, DialogState::AddTimeEntry) => true,
        (DialogState::EditTimeEntry(_), DialogState::EditTimeEntry(_)) => true,
        (DialogState::ConfirmDelete(_), DialogState::ConfirmDelete(_)) => true,
        _ => false,
    }
}

impl Clone for DialogState {
    fn clone(&self) -> (r: Self)
        ensures
            dialog_eq(r, *self),
            same_dialog_kind(r, *self),
    {
        match self {
            DialogState::Closed => DialogState::Closed,
            DialogState::AddProject => DialogState::AddProject,
            DialogState::EditProject(p) => DialogState::EditProject(p.clone()),
            DialogState::AddActivity(id) => DialogState::AddActivity(*id),
            DialogState::EditActivity(a) => DialogState::EditActivity(a.clone()),
            DialogState::AddTimeEntry => DialogState::AddTimeEntry,
            DialogState::EditTimeEntry(e) => DialogState::EditTimeEntry(e.clone()),
            DialogState::ConfirmDelete(t) => DialogState::ConfirmDelete(t.clone()),
        }
    }
}

impl Default for DialogState {
    fn default() -> (r: Self)
        ensures
            r is Closed,
    {
        DialogState::Closed
    }
}

// ---------------------------------------------------------------------------
// Forms
// ---------------------------------------------------------------------------

/// Form contents for creating or editing a project.
#[derive(Debug)]
pub struct ProjectForm {
    pub name: String,
    pub description: String,
}

impl ProjectForm {
    /// A valid form has a name and a description beyond whitespace.
    pub open spec fn is_valid_spec(self) -> bool {
        trim_spec(self.name@).len() > 0 && trim_spec(self.description@).len() > 0
    }

    pub fn new() -> (r: Self)
        ensures
            r.name@ == Seq::<char>::empty(),
            r.description@ == Seq::<char>::empty(),
    {
        ProjectForm { name: String::new(), description: String::new() }
    }

    pub fn from_project(project: &Project) -> (r: Self)
        ensures
            r.name@ == project.name@,
            r.description@ == project.description@,
    {
        ProjectForm { name: project.name.clone(), description: project.description.clone() }
    }

    pub fn clear(&mut self)
        ensures
            final(self).name@ == Seq::<char>::empty(),
            final(self).description@ == Seq::<char>::empty(),
    {
        self.name = String::new();
        self.description = String::new();
    }

    pub fn is_valid(&self) -> (r: bool)
        ensures
            r == self.is_valid_spec(),
    {
        !is_blank(self.name.as_str()) && !is_blank(self.description.as_str())
    }
}

impl Default for ProjectForm {
    fn default() -> (r: Self)
        ensures
            r.name@ == Seq::<char>::empty(),
            r.description@ == Seq::<char>::empty(),
    {
        ProjectForm::new()
    }
}

/// Form contents for creating or editing an activity type.
#[derive(Debug)]
pub struct ActivityForm {
    pub name: String,
    pub project_id: Option<i64>,
}

impl ActivityForm {
    /// A valid form has a name beyond whitespace and an assigned project.
    pub open spec fn is_valid_spec(self) -> bool {
        trim_spec(self.name@).len() > 0 && self.project_id is Some
    }

    pub fn new() -> (r: Self)
        ensures
            r.name@ == Seq::<char>::empty(),
            r.project_id is None,
    {
        ActivityForm { name: String::new(), project_id: None }
    }

    pub fn from_activity(activity: &ActivityType) -> (r: Self)
        ensures
            r.name@ == activity.name@,
            r.project_id == Some(activity.project_id),
    {
        ActivityForm { name: activity.name.clone(), project_id: Some(activity.project_id) }
    }

    pub fn clear(&mut self)
        ensures
            final(self).name@ == Seq::<char>::empty(),
            final(self).project_id is None,
    {
        self.name = String::new();
        self.project_id = None;
    }

    pub fn is_valid(&self) -> (r: bool)
        ensures
            r == self.is_valid_spec(),
    {
        !is_blank(self.name.as_str()) && self.project_id.is_some()
    }
}

impl Default for ActivityForm {
    fn default() -> (r: Self)
        ensures
            r.name@ == Seq::<char>::empty(),
            r.project_id is None,
    {
        ActivityForm::new()
    }
}

/// Form contents for creating or editing a time entry.
#[derive(Debug)]
pub struct TimeEntryForm {
    pub activity_type_id: Option<i64>,
    pub time_str: String,
    pub comment: String,
}

impl TimeEntryForm {
    /// A valid form has an activity, a parseable time, and a comment
    /// beyond whitespace.
    pub open spec fn is_valid_spec(self) -> bool {
        &&& self.activity_type_id is Some
        &&& minutes_of_time(self.time_str@) is Some
        &&& trim_spec(self.comment@).len() > 0
    }

    pub fn new() -> (r: Self)
        ensures
            r.activity_type_id is None,
            r.time_str@ == "00:30"@,
            r.comment@ == Seq::<char>::empty(),
    {
        TimeEntryForm {
            activity_type_id: None,
            time_str: String::from_str("00:30"),
            comment: String::new(),
        }
    }

    pub fn from_entry(entry: &TimeEntry) -> (r: Self)
        requires
            entry.minutes >= 0,
        ensures
            r.activity_type_id == Some(entry.activity_type_id),
            r.time_str@ == crate::timefmt::time_str_of(entry.minutes as int),
            r.comment@ == entry.comment@,
    {
        TimeEntryForm {
            activity_type_id: Some(entry.activity_type_id),
            time_str: format_minutes_to_time(entry.minutes),
            comment: entry.comment.clone(),
        }
    }

    pub fn clear(&mut self)
        ensures
            final(self).activity_type_id is None,
            final(self).time_str@ == "00:30"@,
            final(self).comment@ == Seq::<char>::empty(),
    {
        self.activity_type_id = None;
        self.time_str = String::from_str("00:30");
        self.comment = String::new();
    }

    pub fn is_valid(&self) -> (r: bool)
        ensures
            r == self.is_valid_spec(),
    {
        if self.activity_type_id.is_none() {
            return false;
        }
        let parsed = parse_time_to_minutes(self.time_str.as_str());
        parsed.is_ok() && !is_blank(self.comment.as_str())
    }

    /// The minutes the time field names, if it parses.
    pub fn get_minutes(&self) -> (r: Option<i32>)
        ensures
            r is Some <==> minutes_of_time(self.time_str@) is Some,
            r is Some ==> Some(r->0 as int) == minutes_of_time(self.time_str@),
    {
        match parse_time_to_minutes(self.time_str.as_str()) {
            Ok(m) => Some(m),
            Err(_) => None,
        }
    }
}

impl Default for TimeEntryForm {
    fn default() -> (r: Self)
        ensures
            r.activity_type_id is None,
            r.time_str@ == "00:30"@,
            r.comment@ == Seq::<char>::empty(),
    {
        TimeEntryForm::new()
    }
}

/// Adds minutes to (or removes them from) the form's time field, clamping
/// at zero and at the largest representable count; a field that does not
/// parse is left alone.
pub fn add_time_to_form(form: &mut TimeEntryForm, minutes_to_add: i32)
    ensures
        final(form).activity_type_id == old(form).activity_type_id,
        final(form).comment == old(form).comment,
        minutes_of_time(old(form).time_str@) is None ==> final(form).time_str == old(
            form,
        ).time_str,
        minutes_of_time(old(form).time_str@) matches Some(m) ==> final(form).time_str@
            == crate::timefmt::time_str_of(
            {
                let s = m + minutes_to_add;
                if s < 0 {
                    0
                } else if s > 0x7FFF_FFFF {
                    0x7FFF_FFFF
                } else {
                    s
                }
            },
        ),
{
    match parse_time_to_minutes(form.time_str.as_str()) {
        Ok(current) => {
            let sum: i64 = current as i64 + minutes_to_add as i64;
            let clamped: i32 = if sum < 0 {
                0
            } else if sum > 0x7FFF_FFFF {
                0x7FFF_FFFF
            } else {
                sum as i32
            };
            form.time_str = format_minutes_to_time(clamped);
        },
        Err(_) => {},
    }
}

// ---------------------------------------------------------------------------
// Cache
// ---------------------------------------------------------------------------

/// Position `i` holds the first row with this activity type id.
pub open spec fn activity_first_match_at(s: Seq<ActivityType>, id: i64, i: int) -> bool {
    &&& 0 <= i < s.len()
    &&& s[i].id == id
    &&& forall|k: int| 0 <= k < i ==> (#[trigger] s[k]).id != id
}

/// Position `i` holds the first row with this project id.
pub open spec fn project_first_match_at(s: Seq<Project>, id: i64, i: int) -> bool {
    &&& 0 <= i < s.len()
    &&& s[i].id == id
    &&& forall|k: int| 0 <= k < i ==> (#[trigger] s[k]).id != id
}

/// What the views display, reloaded wholesale whenever the dirty flag is
/// set or the selected date changes.
#[derive(Debug)]
pub struct CachedData {
    pub projects: Vec<Project>,
    pub all_activities: Vec<ActivityType>,
    pub current_date_entries: Vec<TimeEntry>,
    pub daily_summary: Vec<ActivitySummary>,
    pub summary_date: Option<Date>,
    pub needs_refresh: bool,
}

impl CachedData {
    pub fn new() -> (r: Self)
        ensures
            r.needs_refresh,
            r.projects@.len() == 0,
            r.all_activities@.len() == 0,
            r.current_date_entries@.len() == 0,
            r.daily_summary@.len() == 0,
            r.summary_date is None,
    {
        CachedData {
            projects: Vec::new(),
            all_activities: Vec::new(),
            current_date_entries: Vec::new(),
            daily_summary: Vec::new(),
            summary_date: None,
            needs_refresh: true,
        }
    }

    /// Asks for a wholesale reload before the next draw.
    pub fn mark_dirty(&mut self)
        ensures
            final(self).needs_refresh,
            final(self).projects == old(self).projects,
            final(self).all_activities == old(self).all_activities,
            final(self).current_date_entries == old(self).current_date_entries,
            final(self).daily_summary == old(self).daily_summary,
            final(self).summary_date == old(self).summary_date,
    {
        self.needs_refresh = true;
    }

    /// The first cached activity type with this id.
    pub fn get_activity_by_id(&self, id: i64) -> (r: Option<&ActivityType>)
        ensures
            r is Some ==> exists|i: int|
                activity_first_match_at(self.all_activities@, id, i) && *r->0
                    == self.all_activities@[i],
            r is Some ==> r->0.id == id && self.all_activities@.contains(*r->0),
            r is None ==> forall|k: int|
                0 <= k < self.all_activities@.len() ==> (#[trigger] self.all_activities@[k]).id
                    != id,
    {
        let n = self.all_activities.len();
        let mut i: usize = 0;
        while i < n
            invariant
                i <= n,
                n == self.all_activities@.len(),
                forall|k: int| 0 <= k < i ==> (#[trigger] self.all_activities@[k]).id != id,
            decreases n - i,
        {
            if self.all_activities[i].id == id {
                proof {
                    assert(activity_first_match_at(self.all_activities@, id, i as int));
                }
                return Some(&self.all_activities[i]);
            }
            i = i + 1;
        }
        None
    }

    /// The first cached project with this id.
    pub fn get_project_by_id(&self, id: i64) -> (r: Option<&Project>)
        ensures
            r is Some ==> exists|i: int|
                project_first_match_at(self.projects@, id, i) && *r->0 == self.projects@[i],
            r is Some ==> r->0.id == id && self.projects@.contains(*r->0),
            r is None ==> forall|k: int|
                0 <= k < self.projects@.len() ==> (#[trigger] self.projects@[k]).id != id,
    {
        let n = self.projects.len();
        let mut i: usize = 0;
        while i < n
            invariant
                i <= n,
                n == self.projects@.len(),
                forall|k: int| 0 <= k < i ==> (#[trigger] self.projects@[k]).id != id,
            decreases n - i,
        {
            if self.projects[i].id == id {
                proof {
                    assert(project_first_match_at(self.projects@, id, i as int));
                }
                return Some(&self.projects[i]);
            }
            i = i + 1;
        }
        None
    }

    /// The cached activity types that are active and belong to this
    /// project, in cache order.
    pub fn get_activities_for_project(&self, project_id: i64) -> (r: Vec<ActivityType>)
        ensures
            r@.map_values(|a: ActivityType| a@) == crate::database::filter_activities(
                self.all_activities@.map_values(|a: ActivityType| a@),
                Some(project_id as int),
                true,
            ),
    {
        let ghost av = self.all_activities@.map_values(|a: ActivityType| a@);
        let mut out: Vec<ActivityType> = Vec::new();
        let n = self.all_activities.len();
        let mut i: usize = 0;
        while i < n
            invariant
                i <= n,
                n == self.all_activities@.len(),
                av == self.all_activities@.map_values(|a: ActivityType| a@),
                out@.map_values(|a: ActivityType| a@) == crate::database::filter_activities(
                    av.subrange(0, i as int),
                    Some(project_id as int),
                    true,
                ),
            decreases n - i,
        {
            proof {
                assert(av.subrange(0, i + 1).drop_last() =~= av.subrange(0, i as int));
                assert(av.subrange(0, i + 1).last() == av[i as int]);
            }
            let a = &self.all_activities[i];
            if a.project_id == project_id && a.is_active {
                let ghost before = out@;
                out.push(a.clone());
                proof {
                    assert(out@.map_values(|x: ActivityType| x@) =~= before.map_values(
                        |x: ActivityType| x@,
                    ).push(av[i as int]));
                }
            }
            i = i + 1;
        }
        proof {
            assert(av.subrange(0, n as int) =~= av);
        }
        out
    }
}

impl Default for CachedData {
    fn default() -> (r: Self)
        ensures
            r.needs_refresh,
            r.projects@.len() == 0,
    {
        CachedData::new()
    }
}

// ---------------------------------------------------------------------------
// User messages
// ---------------------------------------------------------------------------

/// A transient notification shown to the user until it expires.
#[derive(Debug)]
pub struct UserMessage {
    pub text: String,
    pub is_error: bool,
    pub timestamp: std::time::Instant,
}

#[verifier::external_type_specification]
#[verifier::external_body]
pub struct ExInstant(std::time::Instant);

/// Relies on std's `Instant::now`: an opaque reading of a monotonic clock.
#[verifier::external_body]
fn instant_now() -> std::time::Instant {
    std::time::Instant::now()
}

/// Relies on std's `Instant::elapsed` and `Duration::as_secs`.  The clock
/// may hand back any value, so nothing is promised of the result.
#[verifier::external_body]
fn elapsed_secs(t: &std::time::Instant) -> u64 {
    t.elapsed().as_secs()
}

/// Whether a message this many seconds old has outlived its display time.
pub fn expired_after(secs: u64) -> (r: bool)
    ensures
        r == (secs > 5),
{
    secs > 5
}

impl UserMessage {
    pub fn info(text: &str) -> (r: Self)
        ensures
            r.text@ == text@,
            !r.is_error,
    {
        UserMessage { text: String::from_str(text), is_error: false, timestamp: instant_now() }
    }

    pub fn error(text: &str) -> (r: Self)
        ensures
            r.text@ == text@,
            r.is_error,
    {
        UserMessage { text: String::from_str(text), is_error: true, timestamp: instant_now() }
    }

    /// Whether the message has been on screen longer than its display
    /// time.  The answer depends on the wall clock, so nothing can be
    /// promised of it; the cut-off itself is `expired_after`.
    pub fn is_expired(&self) -> bool {
        let secs = elapsed_secs(&self.timestamp);
        expired_after(secs)
    }
}

// ---------------------------------------------------------------------------
// Filters and the selected date
// ---------------------------------------------------------------------------

/// List filtering choices.
#[derive(Debug)]
pub struct FilterState {
    pub show_inactive: bool,
    pub selected_project_id: Option<i64>,
    pub search_text: String,
}

impl FilterState {
    pub fn new() -> (r: Self)
        ensures
            !r.show_inactive,
            r.selected_project_id is None,
            r.search_text@ == Seq::<char>::empty(),
    {
        FilterState { show_inactive: false, selected_project_id: None, search_text: String::new() }
    }
}

impl Default for FilterState {
    fn default() -> (r: Self)
        ensures
            !r.show_inactive,
            r.selected_project_id is None,
            r.search_text@ == Seq::<char>::empty(),
    {
        FilterState::new()
    }
}

/// The date whose entries the tracking and summary views show.
#[derive(Debug, Clone, Copy)]
pub struct DateState {
    pub selected_date: Date,
}

impl DateState {
    /// Starts at the current local date.
    pub fn new() -> (r: Self)
        ensures
            r.selected_date.is_valid(),
    {
        DateState { selected_date: today() }
    }

    /// Jumps back to the current local date.
    pub fn today(&mut self)
        ensures
            final(self).selected_date.is_valid(),
    {
        self.selected_date = today();
    }

    /// Steps one day back; at the first representable date, stays put.
    pub fn previous_day(&mut self)
        requires
            old(self).selected_date.is_valid(),
        ensures
            final(self).selected_date.is_valid(),
            final(self).selected_date == (match old(self).selected_date.pred_spec() {
                Some(d) => d,
                None => old(self).selected_date,
            }),
    {
        if let Some(d) = self.selected_date.pred() {
            self.selected_date = d;
        }
    }

    /// Steps one day forward; at the last representable date, stays put.
    pub fn next_day(&mut self)
        requires
            old(self).selected_date.is_valid(),
        ensures
            final(self).selected_date.is_valid(),
            final(self).selected_date == (match old(self).selected_date.succ_spec() {
                Some(d) => d,
                None => old(self).selected_date,
            }),
    {
        if let Some(d) = self.selected_date.succ() {
            self.selected_date = d;
        }
    }
}

impl Default for DateState {
    fn default() -> (r: Self)
        ensures
            r.selected_date.is_valid(),
    {
        DateState::new()
    }
}

} // verus!
