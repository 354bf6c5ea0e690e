//! View-state: forms and their validity, dates, the display cache, user
//! messages, and dialog-driven form preparation.

use chronos_log::app_state::WorkTrackerApp;
use chronos_log::database::Database;
use chronos_log::date::{Date, MAX_YEAR, MIN_YEAR};
use chronos_log::models::{
    add_time_to_form, ActivityForm, CachedData, DateState, DialogState, ProjectForm,
    TimeEntryForm, UserMessage,
};
use chronos_log::records::{ActivityType, Project, TimeEntry};

#[test]
fn project_form_requires_name_and_description() {
    let mut f = ProjectForm::new();
    assert!(!f.is_valid());
    f.name = "Tracker".to_string();
    assert!(!f.is_valid());
    f.description = "   ".to_string();
    assert!(!f.is_valid());
    f.description = "time tracking".to_string();
    assert!(f.is_valid());
    f.clear();
    assert!(!f.is_valid());
    assert_eq!(f.name, "");
}

#[test]
fn activity_form_requires_name_and_project() {
    let mut f = ActivityForm::new();
    assert!(!f.is_valid());
    f.name = "Review".to_string();
    assert!(!f.is_valid());
    f.project_id = Some(3);
    assert!(f.is_valid());
    f.name = " \t ".to_string();
    assert!(!f.is_valid());
}

#[test]
fn entry_form_validates_its_time_string() {
    let mut f = TimeEntryForm::new();
    assert_eq!(f.time_str, "00:30");
    assert!(!f.is_valid());
    f.activity_type_id = Some(1);
    assert!(!f.is_valid());
    f.comment = "did things".to_string();
    assert!(f.is_valid());
    assert_eq!(f.get_minutes(), Some(30));
    f.time_str = "00:61".to_string();
    assert!(!f.is_valid());
    assert_eq!(f.get_minutes(), None);
    f.clear();
    assert_eq!(f.time_str, "00:30");
    assert!(f.activity_type_id.is_none());
}

#[test]
fn forms_copy_their_rows() {
    let p = Project { id: 4, name: "N".to_string(), description: "D".to_string(), is_active: true };
    let pf = ProjectForm::from_project(&p);
    assert_eq!(pf.name, "N");
    assert_eq!(pf.description, "D");

    let a = ActivityType { id: 9, project_id: 4, name: "A".to_string(), is_active: true };
    let af = ActivityForm::from_activity(&a);
    assert_eq!(af.name, "A");
    assert_eq!(af.project_id, Some(4));

    let e = TimeEntry {
        id: 2,
        activity_type_id: 9,
        date: Date::new(2024, 1, 2).unwrap(),
        minutes: 95,
        comment: "c".to_string(),
    };
    let ef = TimeEntryForm::from_entry(&e);
    assert_eq!(ef.activity_type_id, Some(9));
    assert_eq!(ef.time_str, "01:35");
    assert_eq!(ef.comment, "c");
}

#[test]
fn quick_time_buttons_adjust_the_form() {
    let mut f = TimeEntryForm::new();
    add_time_to_form(&mut f, 15);
    assert_eq!(f.time_str, "00:45");
    add_time_to_form(&mut f, 30);
    assert_eq!(f.time_str, "01:15");
    add_time_to_form(&mut f, -15);
    assert_eq!(f.time_str, "01:00");
    // below zero the field clamps at zero
    add_time_to_form(&mut f, -90);
    assert_eq!(f.time_str, "00:00");
    // a field that does not parse is left alone
    f.time_str = "junk".to_string();
    add_time_to_form(&mut f, 15);
    assert_eq!(f.time_str, "junk");
}

#[test]
fn dates_step_across_month_and_year_boundaries() {
    let d = Date::new(2024, 2, 28).unwrap();
    assert_eq!(d.succ().unwrap(), Date::new(2024, 2, 29).unwrap());
    let d = Date::new(2023, 2, 28).unwrap();
    assert_eq!(d.succ().unwrap(), Date::new(2023, 3, 1).unwrap());
    let d = Date::new(2023, 12, 31).unwrap();
    assert_eq!(d.succ().unwrap(), Date::new(2024, 1, 1).unwrap());
    let d = Date::new(2024, 3, 1).unwrap();
    assert_eq!(d.pred().unwrap(), Date::new(2024, 2, 29).unwrap());
    let d = Date::new(2024, 1, 1).unwrap();
    assert_eq!(d.pred().unwrap(), Date::new(2023, 12, 31).unwrap());

    assert!(Date::new(2023, 2, 29).is_none());
    assert!(Date::new(2024, 13, 1).is_none());
    assert!(Date::new(2024, 0, 1).is_none());
    assert!(Date::new(2024, 4, 31).is_none());

    // the representable range is closed at both ends
    let first = Date::new(MIN_YEAR, 1, 1).unwrap();
    assert!(first.pred().is_none());
    let last = Date::new(MAX_YEAR, 12, 31).unwrap();
    assert!(last.succ().is_none());
}

#[test]
fn date_state_steps_and_returns_to_today() {
    let mut ds = DateState::new();
    let start = ds.selected_date;
    ds.previous_day();
    assert_ne!(ds.selected_date, start);
    ds.next_day();
    assert_eq!(ds.selected_date, start);
    ds.next_day();
    ds.today();
    // whatever the clock says, the selected date names a calendar day
    let d = ds.selected_date;
    assert!(Date::new(d.year, d.month, d.day).is_some());
}

#[test]
fn cache_lookups_find_rows_by_id() {
    let mut cache = CachedData::new();
    assert!(cache.needs_refresh);
    cache.needs_refresh = false;
    cache.projects.push(Project {
        id: 1,
        name: "P".to_string(),
        description: "".to_string(),
        is_active: true,
    });
    cache.all_activities.push(ActivityType {
        id: 10,
        project_id: 1,
        name: "active".to_string(),
        is_active: true,
    });
    cache.all_activities.push(ActivityType {
        id: 11,
        project_id: 1,
        name: "dormant".to_string(),
        is_active: false,
    });
    cache.all_activities.push(ActivityType {
        id: 12,
        project_id: 2,
        name: "elsewhere".to_string(),
        is_active: true,
    });

    assert_eq!(cache.get_project_by_id(1).unwrap().name, "P");
    assert!(cache.get_project_by_id(2).is_none());
    assert_eq!(cache.get_activity_by_id(11).unwrap().name, "dormant");
    assert!(cache.get_activity_by_id(99).is_none());

    let active = cache.get_activities_for_project(1);
    assert_eq!(active.len(), 1);
    assert_eq!(active[0].id, 10);

    cache.mark_dirty();
    assert!(cache.needs_refresh);
}

#[test]
fn messages_carry_their_kind_and_text() {
    let i = UserMessage::info("saved");
    assert_eq!(i.text, "saved");
    assert!(!i.is_error);
    let e = UserMessage::error("boom");
    assert_eq!(e.text, "boom");
    assert!(e.is_error);
    assert!(chronos_log::models::expired_after(6));
    assert!(!chronos_log::models::expired_after(5));
}

#[test]
fn app_seeds_an_empty_store_and_prepares_forms() {
    let db = Database::new_in_memory().unwrap();
    let mut app = WorkTrackerApp::new(db);
    assert!(!app.cache.needs_refresh);
    // a fresh store gets the two example projects and their activities
    assert_eq!(app.cache.projects.len(), 2);
    assert_eq!(app.cache.all_activities.len(), 7);
    assert_eq!(app.messages.len(), 1);

    let project = app.cache.projects[0].clone();
    app.dialog_state = DialogState::EditProject(project.clone());
    app.prepare_dialog_forms_if_changed();
    assert_eq!(app.project_form.name, project.name);
    assert_eq!(app.project_form.description, project.description);

    app.dialog_state = DialogState::AddActivity(project.id);
    app.prepare_dialog_forms_if_changed();
    assert_eq!(app.activity_form.name, "");
    assert_eq!(app.activity_form.project_id, Some(project.id));

    // same dialog kind again: the form keeps whatever the user typed
    app.activity_form.name = "typing".to_string();
    app.prepare_dialog_forms_if_changed();
    assert_eq!(app.activity_form.name, "typing");

    // opening the entry editor snapshots the entry, time field included
    let entry = TimeEntry {
        id: 1,
        activity_type_id: 42,
        date: Date::new(2024, 6, 1).unwrap(),
        minutes: 75,
        comment: "snapshot me".to_string(),
    };
    app.dialog_state = DialogState::EditTimeEntry(entry);
    app.prepare_dialog_forms_if_changed();
    assert_eq!(app.entry_form.activity_type_id, Some(42));
    assert_eq!(app.entry_form.time_str, "01:15");
    assert_eq!(app.entry_form.comment, "snapshot me");

    app.add_message(UserMessage::error("not saved"));
    assert_eq!(app.messages.len(), 2);
    app.cleanup_messages();
    // nothing is older than the display time yet
    assert_eq!(app.messages.len(), 2);
}
