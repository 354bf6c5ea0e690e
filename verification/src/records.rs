//! The rows the store keeps (projects, activity types, time entries), the
//! derived per-day summary row, and the error taxonomy of the store.

use vstd::prelude::*;
use vstd::string::*;
use crate::date::Date;

verus! {

/// Everything that can go wrong in the store or in time-string parsing.
#[derive(Debug, Clone, PartialEq, Eq, Structural)]
pub enum DatabaseError {
    /// The store cannot take another row (an id counter is exhausted or a
    /// minute total would leave the representable range).
    StorageFull,
    /// A uniqueness rule was broken: a project name is taken, or an
    /// activity name is taken within the same project.
    DuplicateName,
    ProjectNotFound(i64),
    ActivityNotFound(i64),
    InvalidTimeFormat,
    ActivityHasEntries,
    ProjectHasActivities,
}

pub type DbResult<T> = Result<T, DatabaseError>;

impl DatabaseError {
    /// A short user-facing description of the error.
    pub fn message(&self) -> (r: String)
        ensures
            *self is StorageFull ==> r@ == "storage is full"@,
            *self is DuplicateName ==> r@ == "name is already in use"@,
            *self is ProjectNotFound ==> r@ == "project not found"@,
            *self is ActivityNotFound ==> r@ == "activity not found"@,
            *self is InvalidTimeFormat ==> r@ == "invalid time format"@,
            *self is ActivityHasEntries ==> r@ == "activity has time entries and cannot be deleted"@,
            *self is ProjectHasActivities ==> r@ == "project has activities and cannot be deleted"@,
    {
        match self {
            DatabaseError::StorageFull => String::from_str("storage is full"),
            DatabaseError::DuplicateName => String::from_str("name is already in use"),
            DatabaseError::ProjectNotFound(_) => String::from_str("project not found"),
            DatabaseError::ActivityNotFound(_) => String::from_str("activity not found"),
            DatabaseError::InvalidTimeFormat => String::from_str("invalid time format"),
            DatabaseError::ActivityHasEntries => String::from_str(
                "activity has time entries and cannot be deleted",
            ),
            DatabaseError::ProjectHasActivities => String::from_str(
                "project has activities and cannot be deleted",
            ),
        }
    }
}

/// A project: a top-level grouping of work.
#[derive(Debug)]
pub struct Project {
    pub id: i64,
    pub name: String,
    pub description: String,
    pub is_active: bool,
}

pub ghost struct ProjectV {
    pub id: int,
    pub name: Seq<char>,
    pub description: Seq<char>,
    pub is_active: bool,
}

impl View for Project {
    type V = ProjectV;

    open spec fn view(&self) -> ProjectV {
        ProjectV {
            id: self.id as int,
            name: self.name@,
            description: self.description@,
            is_active: self.is_active,
        }
    }
}

impl Clone for Project {
    fn clone(&self) -> (r: Self)
        ensures
            r@ == self@,
    {
        Project {
            id: self.id,
            name: self.name.clone(),
            description: self.description.clone(),
            is_active: self.is_active,
        }
    }
}

/// An activity type, owned by exactly one project.
#[derive(Debug)]
pub struct ActivityType {
    pub id: i64,
    pub project_id: i64,
    pub name: String,
    pub is_active: bool,
}

pub ghost struct ActivityTypeV {
    pub id: int,
    pub project_id: int,
    pub name: Seq<char>,
    pub is_active: bool,
}

impl View for ActivityType {
    type V = ActivityTypeV;

    open spec fn view(&self) -> ActivityTypeV {
        ActivityTypeV {
            id: self.id as int,
            project_id: self.project_id as int,
            name: self.name@,
            is_active: self.is_active,
        }
    }
}

impl Clone for ActivityType {
    fn clone(&self) -> (r: Self)
        ensures
            r@ == self@,
    {
        ActivityType {
            id: self.id,
            project_id: self.project_id,
            name: self.name.clone(),
            is_active: self.is_active,
        }
    }
}

/// A time entry: a dated duration with a comment, attributed to one
/// activity type.
#[derive(Debug)]
pub struct TimeEntry {
    pub id: i64,
    pub activity_type_id: i64,
    pub date: Date,
    pub minutes: i32,
    pub comment: String,
}

pub ghost struct TimeEntryV {
    pub id: int,
    pub activity_type_id: int,
    pub date: Date,
    pub minutes: int,
    pub comment: Seq<char>,
}

impl View for TimeEntry {
    type V = TimeEntryV;

    open spec fn view(&self) -> TimeEntryV {
        TimeEntryV {
            id: self.id as int,
            activity_type_id: self.activity_type_id as int,
            date: self.date,
            minutes: self.minutes as int,
            comment: self.comment@,
        }
    }
}

impl Clone for TimeEntry {
    fn clone(&self) -> (r: Self)
        ensures
            r@ == self@,
    {
        TimeEntry {
            id: self.id,
            activity_type_id: self.activity_type_id,
            date: self.date,
            minutes: self.minutes,
            comment: self.comment.clone(),
        }
    }
}

/// Total time spent on one activity type during one day, with the entries
/// that contribute to the total.  Derived, never stored.
#[derive(Debug)]
pub struct ActivitySummary {
    pub activity_type_id: i64,
    pub activity_name: String,
    pub project_name: String,
    pub total_minutes: i32,
    pub entries: Vec<TimeEntry>,
}

pub ghost struct ActivitySummaryV {
    pub activity_type_id: int,
    pub activity_name: Seq<char>,
    pub project_name: Seq<char>,
    pub total_minutes: int,
    pub entries: Seq<TimeEntryV>,
}

impl View for ActivitySummary {
    type V = ActivitySummaryV;

    open spec fn view(&self) -> ActivitySummaryV {
        ActivitySummaryV {
            activity_type_id: self.activity_type_id as int,
            activity_name: self.activity_name@,
            project_name: self.project_name@,
            total_minutes: self.total_minutes as int,
            entries: self.entries@.map_values(|e: TimeEntry| e@),
        }
    }
}

impl Clone for ActivitySummary {
    fn clone(&self) -> (r: Self)
        ensures
            r@ == self@,
    {
        let mut entries: Vec<TimeEntry> = Vec::new();
        let mut i: usize = 0;
        while i < self.entries.len()
            invariant
                i <= self.entries.len(),
                entries@.map_values(|e: TimeEntry| e@) == self.entries@.subrange(
                    0,
                    i as int,
                ).map_values(|e: TimeEntry| e@),
            decreases self.entries.len() - i,
        {
            entries.push(self.entries[i].clone());
            proof {
                assert(self.entries@.subrange(0, i + 1).map_values(|e: TimeEntry| e@)
                    =~= self.entries@.subrange(0, i as int).map_values(|e: TimeEntry| e@).push(
                    self.entries@[i as int]@,
                ));
            }
            i = i + 1;
        }
        proof {
            assert(self.entries@.subrange(0, self.entries@.len() as int) =~= self.entries@);
        }
        ActivitySummary {
            activity_type_id: self.activity_type_id,
            activity_name: self.activity_name.clone(),
            project_name: self.project_name.clone(),
            total_minutes: self.total_minutes,
            entries,
        }
    }
}

} // verus!
