//! The store: creation, uniqueness rules, guarded deletes, ordered reads
//! and daily summaries.

use chronos_log::database::Database;
use chronos_log::date::Date;
use chronos_log::records::DatabaseError;

fn some_date() -> Date {
    Date::new(2024, 5, 17).unwrap()
}

#[test]
fn test_database_operations() {
    let mut db = Database::new_in_memory().unwrap();

    let project_id = db.create_project("Test Project", "Description").unwrap();
    assert!(project_id > 0);

    let activity_id = db.create_activity_type(project_id, "Test Activity").unwrap();
    assert!(activity_id > 0);

    let today = some_date();
    let entry_id = db.create_time_entry(activity_id, today, 30, "Test comment").unwrap();
    assert!(entry_id > 0);

    let summaries = db.get_daily_summary(&today).unwrap();
    assert_eq!(summaries.len(), 1);
    assert_eq!(summaries[0].total_minutes, 30);
}

#[test]
fn deleting_a_project_is_blocked_while_it_owns_activities() {
    let mut db = Database::new_in_memory().unwrap();
    let p = db.create_project("Ops", "Operations").unwrap();
    let a = db.create_activity_type(p, "On call").unwrap();

    // blocked with an active activity type
    assert_eq!(db.delete_project(p).unwrap_err(), DatabaseError::ProjectHasActivities);

    // still blocked when the activity type is only deactivated
    db.deactivate_activity_type(a).unwrap();
    assert_eq!(db.delete_project(p).unwrap_err(), DatabaseError::ProjectHasActivities);

    // with zero activity types the delete goes through and removes the row
    db.delete_activity_type(a).unwrap();
    db.delete_project(p).unwrap();
    assert_eq!(db.get_project(p).unwrap_err(), DatabaseError::ProjectNotFound(p));
    assert_eq!(db.delete_project(p).unwrap_err(), DatabaseError::ProjectNotFound(p));
}

#[test]
fn activity_names_are_unique_per_project_only() {
    let mut db = Database::new_in_memory().unwrap();
    let p1 = db.create_project("One", "first").unwrap();
    let p2 = db.create_project("Two", "second").unwrap();

    db.create_activity_type(p1, "Review").unwrap();
    assert_eq!(
        db.create_activity_type(p1, "Review").unwrap_err(),
        DatabaseError::DuplicateName
    );
    // the same name under another project is fine
    db.create_activity_type(p2, "Review").unwrap();
}

#[test]
fn project_names_are_unique() {
    let mut db = Database::new_in_memory().unwrap();
    db.create_project("Payroll", "x").unwrap();
    assert_eq!(
        db.create_project("Payroll", "y").unwrap_err(),
        DatabaseError::DuplicateName
    );
    // renaming onto a taken name is refused too
    let p2 = db.create_project("Other", "z").unwrap();
    assert_eq!(
        db.update_project(p2, "Payroll", "z").unwrap_err(),
        DatabaseError::DuplicateName
    );
    // renaming to its own name is fine
    db.update_project(p2, "Other", "updated").unwrap();
    assert_eq!(db.get_project(p2).unwrap().description, "updated");
}

#[test]
fn summary_groups_entries_of_one_activity() {
    let mut db = Database::new_in_memory().unwrap();
    let p = db.create_project("Support", "desk").unwrap();
    let a = db.create_activity_type(p, "Tickets").unwrap();
    let d = some_date();

    let e1 = db.create_time_entry(a, d, 30, "morning").unwrap();
    let e2 = db.create_time_entry(a, d, 60, "afternoon").unwrap();

    let summaries = db.get_daily_summary(&d).unwrap();
    assert_eq!(summaries.len(), 1);
    assert_eq!(summaries[0].activity_type_id, a);
    assert_eq!(summaries[0].activity_name, "Tickets");
    assert_eq!(summaries[0].project_name, "Support");
    assert_eq!(summaries[0].total_minutes, 90);
    assert_eq!(summaries[0].entries.len(), 2);
    assert_eq!(summaries[0].entries[0].id, e1);
    assert_eq!(summaries[0].entries[1].id, e2);
    assert!(e1 < e2);

    assert_eq!(db.get_total_time_for_date(&d).unwrap(), 90);
}

#[test]
fn summaries_are_ordered_by_project_then_activity() {
    let mut db = Database::new_in_memory().unwrap();
    let pb = db.create_project("Beta", "b").unwrap();
    let pa = db.create_project("Alpha", "a").unwrap();
    let b_z = db.create_activity_type(pb, "Zeta").unwrap();
    let b_a = db.create_activity_type(pb, "Aleph").unwrap();
    let a_m = db.create_activity_type(pa, "Mid").unwrap();
    let d = some_date();
    db.create_time_entry(b_z, d, 10, "one").unwrap();
    db.create_time_entry(b_a, d, 20, "two").unwrap();
    db.create_time_entry(a_m, d, 30, "three").unwrap();

    let summaries = db.get_daily_summary(&d).unwrap();
    assert_eq!(summaries.len(), 3);
    assert_eq!(summaries[0].project_name, "Alpha");
    assert_eq!(summaries[0].activity_name, "Mid");
    assert_eq!(summaries[1].project_name, "Beta");
    assert_eq!(summaries[1].activity_name, "Aleph");
    assert_eq!(summaries[2].project_name, "Beta");
    assert_eq!(summaries[2].activity_name, "Zeta");
}

#[test]
fn reads_come_back_sorted_and_filtered() {
    let mut db = Database::new_in_memory().unwrap();
    let pb = db.create_project("beta", "b").unwrap();
    let pa = db.create_project("alpha", "a").unwrap();
    let pc = db.create_project("gamma", "c").unwrap();

    let all = db.get_all_projects(false).unwrap();
    assert_eq!(all.len(), 3);
    assert_eq!(all[0].name, "alpha");
    assert_eq!(all[1].name, "beta");
    assert_eq!(all[2].name, "gamma");

    db.deactivate_project(pb).unwrap();
    let active = db.get_all_projects(true).unwrap();
    assert_eq!(active.len(), 2);
    assert_eq!(active[0].name, "alpha");
    assert_eq!(active[1].name, "gamma");
    db.reactivate_project(pb).unwrap();
    assert_eq!(db.get_all_projects(true).unwrap().len(), 3);

    let a2 = db.create_activity_type(pa, "second").unwrap();
    let _a1 = db.create_activity_type(pa, "first").unwrap();
    let _b1 = db.create_activity_type(pb, "third").unwrap();
    let for_pa = db.get_activity_types_for_project(pa, false).unwrap();
    assert_eq!(for_pa.len(), 2);
    assert_eq!(for_pa[0].name, "first");
    assert_eq!(for_pa[1].name, "second");

    db.deactivate_activity_type(a2).unwrap();
    let active_pa = db.get_activity_types_for_project(pa, true).unwrap();
    assert_eq!(active_pa.len(), 1);
    assert_eq!(active_pa[0].name, "first");

    let everything = db.get_all_activity_types(false).unwrap();
    assert_eq!(everything.len(), 3);
    assert_eq!(everything[0].name, "first");
    assert_eq!(everything[1].name, "second");
    assert_eq!(everything[2].name, "third");
    let _ = pc;
}

#[test]
fn entries_filter_by_date_and_sort_by_range() {
    let mut db = Database::new_in_memory().unwrap();
    let p = db.create_project("P", "p").unwrap();
    let a = db.create_activity_type(p, "A").unwrap();
    let d1 = Date::new(2024, 5, 16).unwrap();
    let d2 = Date::new(2024, 5, 17).unwrap();
    let d3 = Date::new(2024, 5, 18).unwrap();

    let e_late = db.create_time_entry(a, d3, 10, "late").unwrap();
    let e_early = db.create_time_entry(a, d1, 20, "early").unwrap();
    let e_mid = db.create_time_entry(a, d2, 30, "mid").unwrap();

    let on_d2 = db.get_time_entries_for_date(&d2).unwrap();
    assert_eq!(on_d2.len(), 1);
    assert_eq!(on_d2[0].id, e_mid);
    assert_eq!(on_d2[0].comment, "mid");

    let ranged = db.get_time_entries_for_range(&d1, &d3).unwrap();
    assert_eq!(ranged.len(), 3);
    assert_eq!(ranged[0].id, e_early);
    assert_eq!(ranged[1].id, e_mid);
    assert_eq!(ranged[2].id, e_late);

    let partial = db.get_time_entries_for_range(&d1, &d2).unwrap();
    assert_eq!(partial.len(), 2);

    db.update_time_entry(e_mid, 45, "mid updated").unwrap();
    let on_d2 = db.get_time_entries_for_date(&d2).unwrap();
    assert_eq!(on_d2[0].minutes, 45);
    assert_eq!(on_d2[0].comment, "mid updated");

    // an unknown id neither fails nor changes anything
    db.update_time_entry(9999, 5, "nobody").unwrap();
    db.delete_time_entry(9999).unwrap();
    assert_eq!(db.get_time_entries_for_range(&d1, &d3).unwrap().len(), 3);

    db.delete_time_entry(e_mid).unwrap();
    assert_eq!(db.get_time_entries_for_date(&d2).unwrap().len(), 0);
}

#[test]
fn deleting_an_activity_is_blocked_while_it_owns_entries() {
    let mut db = Database::new_in_memory().unwrap();
    let p = db.create_project("P", "p").unwrap();
    let a = db.create_activity_type(p, "A").unwrap();
    let e = db.create_time_entry(a, some_date(), 15, "work").unwrap();

    assert_eq!(
        db.delete_activity_type(a).unwrap_err(),
        DatabaseError::ActivityHasEntries
    );
    db.delete_time_entry(e).unwrap();
    db.delete_activity_type(a).unwrap();
    assert_eq!(
        db.get_activity_type(a).unwrap_err(),
        DatabaseError::ActivityNotFound(a)
    );
}

#[test]
fn foreign_keys_must_resolve() {
    let mut db = Database::new_in_memory().unwrap();
    assert_eq!(
        db.create_activity_type(42, "orphan").unwrap_err(),
        DatabaseError::ProjectNotFound(42)
    );
    assert_eq!(
        db.create_time_entry(42, some_date(), 5, "orphan").unwrap_err(),
        DatabaseError::ActivityNotFound(42)
    );
    assert_eq!(
        db.update_project(7, "x", "y").unwrap_err(),
        DatabaseError::ProjectNotFound(7)
    );
    assert_eq!(
        db.deactivate_project(7).unwrap_err(),
        DatabaseError::ProjectNotFound(7)
    );
    assert_eq!(
        db.update_activity_type(7, "x").unwrap_err(),
        DatabaseError::ActivityNotFound(7)
    );
    assert_eq!(
        db.reactivate_activity_type(7).unwrap_err(),
        DatabaseError::ActivityNotFound(7)
    );
}

#[test]
fn renaming_an_activity_respects_sibling_names() {
    let mut db = Database::new_in_memory().unwrap();
    let p = db.create_project("P", "p").unwrap();
    let a1 = db.create_activity_type(p, "one").unwrap();
    let _a2 = db.create_activity_type(p, "two").unwrap();

    assert_eq!(
        db.update_activity_type(a1, "two").unwrap_err(),
        DatabaseError::DuplicateName
    );
    db.update_activity_type(a1, "three").unwrap();
    let names = db.get_activity_types_for_project(p, false).unwrap();
    assert_eq!(names[0].name, "three");
    assert_eq!(names[1].name, "two");
}

#[test]
fn error_messages_describe_each_case() {
    assert_eq!(DatabaseError::DuplicateName.message(), "name is already in use");
    assert_eq!(
        DatabaseError::ProjectHasActivities.message(),
        "project has activities and cannot be deleted"
    );
    assert_eq!(
        DatabaseError::ActivityHasEntries.message(),
        "activity has time entries and cannot be deleted"
    );
    assert_eq!(DatabaseError::InvalidTimeFormat.message(), "invalid time format");
    assert_eq!(DatabaseError::ProjectNotFound(1).message(), "project not found");
    assert_eq!(DatabaseError::ActivityNotFound(1).message(), "activity not found");
    assert_eq!(DatabaseError::StorageFull.message(), "storage is full");
}
