//! The tracker's whole mutable state and the bookkeeping around it: cache
//! refresh, seed data for a first run, the message list, and form
//! preparation when a dialog opens.

use vstd::prelude::*;
use crate::database::Database;
use crate::models::{
    dialog_eq, dialog_kind_matches, same_dialog_kind, ActivityForm, AppView, CachedData,
    DateState, DialogState, FilterState, ProjectForm, TimeEntryForm, UserMessage,
};

verus! {

broadcast use vstd::seq_lib::group_to_multiset_ensures;

/// Everything the tracker holds between two frames.
pub struct WorkTrackerApp {
    pub db: Database,
    pub current_view: AppView,
    pub dialog_state: DialogState,
    pub previous_dialog_state: Option<DialogState>,
    pub date_state: DateState,
    pub cache: CachedData,
    pub filter_state: FilterState,
    pub project_form: ProjectForm,
    pub activity_form: ActivityForm,
    pub entry_form: TimeEntryForm,
    pub messages: Vec<UserMessage>,
}

/// The kept messages are the source messages at the positions `idxs`, in
/// ascending position order: a subsequence that keeps its relative order.
pub open spec fn kept_in_order(
    kept: Seq<UserMessage>,
    from: Seq<UserMessage>,
    idxs: Seq<int>,
) -> bool {
    &&& idxs.len() == kept.len()
    &&& forall|k: int, l: int|
        #![trigger idxs[k], idxs[l]]
        0 <= k < l < idxs.len() ==> idxs[k] < idxs[l]
    &&& forall|k: int|
        0 <= k < idxs.len() ==> 0 <= #[trigger] idxs[k] < from.len() && kept[k] == from[idxs[k]]
}

/// Whether the dialog state moved to another kind of dialog since the last
/// frame, so that the forms must be filled anew.
pub open spec fn dialog_changed_spec(prev: Option<DialogState>, cur: DialogState) -> bool {
    match (prev, cur) {
        (None, DialogState::Closed) => false,
        (Some(DialogState::Closed), DialogState::Closed) => false,
        (Some(p), c) => !same_dialog_kind(p, c),
        _ => true,
    }
}

impl WorkTrackerApp {
    /// Starts the tracker on an opened store: loads the cache and, when
    /// the store holds no projects yet, seeds it with example data.
    pub fn new(db: Database) -> (r: Self)
        requires
            db.wf(),
        ensures
            r.db.wf(),
            r.date_state.selected_date.is_valid(),
            !r.cache.needs_refresh,
            crate::database::projects_sorted(
                r.cache.projects@.map_values(|p: crate::records::Project| p@),
            ),
            r.cache.projects@.map_values(|p: crate::records::Project| p@).to_multiset()
                == r.db.projects().to_multiset(),
            r.cache.all_activities@.map_values(
                |a: crate::records::ActivityType| a@,
            ).to_multiset() == r.db.activities().to_multiset(),
            r.cache.current_date_entries@.map_values(|e: crate::records::TimeEntry| e@)
                == crate::database::entries_on(r.db.entries(), r.date_state.selected_date),
            db.projects().len() > 0 ==> r.db == db && r.messages@.len() == 0,
            (db.projects().len() == 0 && db.id_counters().0 + 2 <= i64::MAX && db.id_counters().1
                + 7 <= i64::MAX) ==> r.db.projects().len() == 2 && r.db.activities().len() == 7
                && r.messages@.len() == 1,
    {
        let mut app = WorkTrackerApp {
            db,
            current_view: AppView::TimeTracking,
            dialog_state: DialogState::Closed,
            previous_dialog_state: None,
            date_state: DateState::new(),
            cache: CachedData::new(),
            filter_state: FilterState::new(),
            project_form: ProjectForm::new(),
            activity_form: ActivityForm::new(),
            entry_form: TimeEntryForm::new(),
            messages: Vec::new(),
        };
        app.refresh_cache();
        proof {
            crate::database::lemma_filter_projects_identity(app.db.projects());
            crate::database::lemma_filter_activities_identity(app.db.activities());
            let cp = app.cache.projects@.map_values(|p: crate::records::Project| p@);
            assert(cp.to_multiset() == app.db.projects().to_multiset());
            assert(cp.to_multiset().len() == cp.len());
            assert(app.db.projects().to_multiset().len() == app.db.projects().len());
            assert(cp.len() == app.db.projects().len());
        }
        if app.cache.projects.len() == 0 {
            app.create_example_data();
            app.refresh_cache();
            proof {
                crate::database::lemma_filter_projects_identity(app.db.projects());
                crate::database::lemma_filter_activities_identity(app.db.activities());
            }
        }
        app
    }

    /// Reloads the cached projects, activity types and current-date
    /// entries wholesale from the store and clears the dirty flag.
    pub fn refresh_cache(&mut self)
        requires
            old(self).db.wf(),
            old(self).date_state.selected_date.is_valid(),
        ensures
            final(self).db == old(self).db,
            final(self).date_state == old(self).date_state,
            final(self).messages == old(self).messages,
            final(self).dialog_state == old(self).dialog_state,
            !final(self).cache.needs_refresh,
            crate::database::projects_sorted(
                final(self).cache.projects@.map_values(|p: crate::records::Project| p@),
            ),
            final(self).cache.projects@.map_values(|p: crate::records::Project| p@).to_multiset()
                == crate::database::filter_projects(old(self).db.projects(), false).to_multiset(),
            crate::database::activities_sorted(
                final(self).cache.all_activities@.map_values(
                    |a: crate::records::ActivityType| a@,
                ),
            ),
            final(self).cache.all_activities@.map_values(
                |a: crate::records::ActivityType| a@,
            ).to_multiset() == crate::database::filter_activities(
                old(self).db.activities(),
                None,
                false,
            ).to_multiset(),
            final(self).cache.current_date_entries@.map_values(|e: crate::records::TimeEntry| e@)
                == crate::database::entries_on(
                old(self).db.entries(),
                old(self).date_state.selected_date,
            ),
    {
        let projects = match self.db.get_all_projects(false) {
            Ok(v) => v,
            Err(_) => Vec::new(),
        };
        let activities = match self.db.get_all_activity_types(false) {
            Ok(v) => v,
            Err(_) => Vec::new(),
        };
        let entries = match self.db.get_time_entries_for_date(&self.date_state.selected_date) {
            Ok(v) => v,
            Err(_) => Vec::new(),
        };
        self.cache.projects = projects;
        self.cache.all_activities = activities;
        self.cache.current_date_entries = entries;
        self.cache.needs_refresh = false;
    }

    /// Seeds a fresh store with two example projects and their activity
    /// types, then posts a message about it.  A create that the store
    /// refuses (name taken, ids exhausted) is skipped; on an empty store
    /// with id headroom the full seed lands.
    pub fn create_example_data(&mut self)
        requires
            old(self).db.wf(),
        ensures
            final(self).db.wf(),
            final(self).date_state == old(self).date_state,
            final(self).messages@.len() == old(self).messages@.len() + 1,
            final(self).messages@.last().text@ == "Created example projects and activities"@,
            !final(self).messages@.last().is_error,
            (old(self).db.projects().len() == 0 && old(self).db.id_counters().0 + 2 <= i64::MAX
                && old(self).db.id_counters().1 + 7 <= i64::MAX) ==> {
                &&& final(self).db.projects().len() == 2
                &&& crate::database::project_name_taken(
                    final(self).db.projects(),
                    "33 - IT-Support"@,
                )
                &&& crate::database::project_name_taken(
                    final(self).db.projects(),
                    "40 - Development"@,
                )
                &&& final(self).db.activities().len() == 7
            },
    {
        let ghost db0 = self.db;
        let ghost hyp = db0.projects().len() == 0 && db0.id_counters().0 + 2 <= i64::MAX
            && db0.id_counters().1 + 7 <= i64::MAX;
        proof {
            reveal_strlit("33 - IT-Support");
            reveal_strlit("40 - Development");
            reveal_strlit("IT-Support - Trollhättan");
            reveal_strlit("IT-Support - Göteborg");
            reveal_strlit("IT-Support - Västerås");
            reveal_strlit("IT-Support - Östersund");
            reveal_strlit("Development - Feature work");
            reveal_strlit("Development - Bug fixes");
            reveal_strlit("Development - Code review");
            assert("IT-Support - Göteborg"@[13] != "IT-Support - Västerås"@[13]);
            if hyp {
                crate::database::lemma_no_projects_no_activities(db0);
            }
        }
        match self.db.create_project(
            "33 - IT-Support",
            "IT Support activities across locations",
        ) {
            Ok(project_id) => {
                proof {
                    if hyp {
                        assert(self.db.projects().len() == 1);
                        assert((#[trigger] self.db.projects()[0]).id == project_id as int);
                        assert(self.db.projects()[0].name == "33 - IT-Support"@);
                        assert(crate::database::has_project(self.db.projects(), project_id as int));
                        assert(self.db.activities().len() == 0);
                    }
                }
                let r1 = self.db.create_activity_type(project_id, "IT-Support - Trollhättan");
                proof {
                    if hyp {
                        assert(r1 is Ok && self.db.activities().len() == 1);
                        assert((#[trigger] self.db.activities()[0]).name
                            == "IT-Support - Trollhättan"@);
                        assert(crate::database::has_project(self.db.projects(), project_id as int));
                    }
                }
                let r2 = self.db.create_activity_type(project_id, "IT-Support - Göteborg");
                proof {
                    if hyp {
                        assert(r2 is Ok && self.db.activities().len() == 2);
                        assert((#[trigger] self.db.activities()[0]).name
                            == "IT-Support - Trollhättan"@);
                        assert((#[trigger] self.db.activities()[1]).name
                            == "IT-Support - Göteborg"@);
                        assert(crate::database::has_project(self.db.projects(), project_id as int));
                    }
                }
                let r3 = self.db.create_activity_type(project_id, "IT-Support - Västerås");
                proof {
                    if hyp {
                        assert(r3 is Ok && self.db.activities().len() == 3);
                        assert((#[trigger] self.db.activities()[0]).name
                            == "IT-Support - Trollhättan"@);
                        assert((#[trigger] self.db.activities()[1]).name
                            == "IT-Support - Göteborg"@);
                        assert((#[trigger] self.db.activities()[2]).name
                            == "IT-Support - Västerås"@);
                        assert(crate::database::has_project(self.db.projects(), project_id as int));
                    }
                }
                let r4 = self.db.create_activity_type(project_id, "IT-Support - Östersund");
                proof {
                    if hyp {
                        assert(r4 is Ok && self.db.activities().len() == 4);
                        assert((#[trigger] self.db.activities()[0]).name
                            == "IT-Support - Trollhättan"@);
                        assert((#[trigger] self.db.activities()[1]).name
                            == "IT-Support - Göteborg"@);
                        assert((#[trigger] self.db.activities()[2]).name
                            == "IT-Support - Västerås"@);
                        assert((#[trigger] self.db.activities()[3]).name
                            == "IT-Support - Östersund"@);
                    }
                }
            },
            Err(_) => {
                proof {
                    if hyp {
                        assert(!crate::database::project_name_taken(
                            db0.projects(),
                            "33 - IT-Support"@,
                        ));
                        assert(false);
                    }
                }
            },
        }
        proof {
            if hyp {
                assert(self.db.projects().len() == 1);
                assert(!crate::database::project_name_taken(
                    self.db.projects(),
                    "40 - Development"@,
                )) by {
                    if crate::database::project_name_taken(
                        self.db.projects(),
                        "40 - Development"@,
                    ) {
                        let i = choose|i: int|
                            0 <= i < self.db.projects().len() && (#[trigger] self.db.projects()[
                                i
                            ]).name == "40 - Development"@;
                        assert(i == 0);
                        assert(self.db.projects()[0].name == "33 - IT-Support"@);
                    }
                }
            }
        }
        match self.db.create_project("40 - Development", "Software development tasks") {
            Ok(project_id) => {
                proof {
                    if hyp {
                        assert(self.db.projects().len() == 2);
                        assert((#[trigger] self.db.projects()[1]).id == project_id as int);
                        assert(crate::database::has_project(self.db.projects(), project_id as int));
                        assert(self.db.activities().len() == 4);
                        assert(forall|k: int|
                            0 <= k < 4 ==> (#[trigger] self.db.activities()[k]).name
                                != "Development - Feature work"@ && self.db.activities()[k].name
                                != "Development - Bug fixes"@ && self.db.activities()[k].name
                                != "Development - Code review"@);
                    }
                }
                let ghost acts4 = self.db.activities();
                let r5 = self.db.create_activity_type(project_id, "Development - Feature work");
                proof {
                    if hyp {
                        assert(r5 is Ok && self.db.activities().len() == 5);
                        assert forall|k: int| 0 <= k < 5 implies (#[trigger] self.db.activities()[
                            k
                        ]).name != "Development - Bug fixes"@ && self.db.activities()[k].name
                            != "Development - Code review"@ by {
                            if k < 4 {
                                assert(self.db.activities()[k] == acts4[k]);
                            } else {
                                assert(self.db.activities()[k].name
                                    == "Development - Feature work"@);
                            }
                        }
                        assert(crate::database::has_project(self.db.projects(), project_id as int));
                    }
                }
                let ghost acts5 = self.db.activities();
                let r6 = self.db.create_activity_type(project_id, "Development - Bug fixes");
                proof {
                    if hyp {
                        assert(r6 is Ok && self.db.activities().len() == 6);
                        assert forall|k: int| 0 <= k < 6 implies (#[trigger] self.db.activities()[
                            k
                        ]).name != "Development - Code review"@ by {
                            if k < 5 {
                                assert(self.db.activities()[k] == acts5[k]);
                            } else {
                                assert(self.db.activities()[k].name
                                    == "Development - Bug fixes"@);
                            }
                        }
                        assert(crate::database::has_project(self.db.projects(), project_id as int));
                    }
                }
                let r7 = self.db.create_activity_type(project_id, "Development - Code review");
                proof {
                    if hyp {
                        assert(r7 is Ok && self.db.activities().len() == 7);
                        assert((#[trigger] self.db.projects()[0]).name == "33 - IT-Support"@);
                        assert((#[trigger] self.db.projects()[1]).name == "40 - Development"@);
                        assert(crate::database::project_name_taken(
                            self.db.projects(),
                            "33 - IT-Support"@,
                        ));
                        assert(crate::database::project_name_taken(
                            self.db.projects(),
                            "40 - Development"@,
                        ));
                    }
                }
            },
            Err(_) => {
                proof {
                    if hyp {
                        assert(false);
                    }
                }
            },
        }
        self.add_message(UserMessage::info("Created example projects and activities"));
    }

    /// Appends a message to the notification area.
    pub fn add_message(&mut self, msg: UserMessage)
        ensures
            final(self).messages@ == old(self).messages@.push(msg),
            final(self).db == old(self).db,
            final(self).date_state == old(self).date_state,
    {
        self.messages.push(msg);
    }

    /// Drops the messages that have outlived their display time.  Which
    /// ones those are depends on the wall clock; what is kept was there
    /// before, in its old relative order.
    pub fn cleanup_messages(&mut self)
        ensures
            final(self).db == old(self).db,
            final(self).messages@.len() <= old(self).messages@.len(),
            forall|k: int|
                0 <= k < final(self).messages@.len() ==> old(self).messages@.contains(
                    #[trigger] final(self).messages@[k],
                ),
            exists|idxs: Seq<int>|
                kept_in_order(final(self).messages@, old(self).messages@, idxs),
    {
        let ghost msgs0 = self.messages@;
        let mut kept: Vec<UserMessage> = Vec::new();
        let ghost mut processed: int = 0;
        let ghost mut idxs: Seq<int> = Seq::empty();
        while self.messages.len() > 0
            invariant
                self.db == old(self).db,
                0 <= processed <= msgs0.len(),
                self.messages@ == msgs0.subrange(processed, msgs0.len() as int),
                kept@.len() <= processed,
                forall|k: int| 0 <= k < kept@.len() ==> msgs0.contains(#[trigger] kept@[k]),
                kept_in_order(kept@, msgs0, idxs),
                forall|k: int| 0 <= k < idxs.len() ==> #[trigger] idxs[k] < processed,
            decreases self.messages@.len(),
        {
            let m = self.messages.remove(0);
            proof {
                assert(m == msgs0[processed]);
                assert(self.messages@ =~= msgs0.subrange(processed + 1, msgs0.len() as int));
                processed = processed + 1;
            }
            if !m.is_expired() {
                kept.push(m);
                proof {
                    idxs = idxs.push(processed - 1);
                    assert forall|k: int, l: int|
                        #![trigger idxs[k], idxs[l]]
                        0 <= k < l < idxs.len() implies idxs[k] < idxs[l] by {
                        if l == idxs.len() - 1 {
                            assert(idxs[k] == idxs.drop_last()[k]);
                        } else {
                            assert(idxs[k] == idxs.drop_last()[k] && idxs[l] == idxs.drop_last()[
                                l
                            ]);
                        }
                    }
                }
            }
        }
        self.messages = kept;
        proof {
            assert(kept_in_order(kept@, msgs0, idxs));
        }
    }

    /// When the dialog kind changed since the last frame, fills the form
    /// that the new dialog edits from the row it carries (or clears it),
    /// and remembers the new state.
    pub fn prepare_dialog_forms_if_changed(&mut self)
        ensures
            final(self).db == old(self).db,
            final(self).dialog_state == old(self).dialog_state,
            ({
                let prev = old(self).previous_dialog_state;
                let cur = old(self).dialog_state;
                &&& (!dialog_changed_spec(prev, cur) ==> *final(self) == *old(self))
                &&& (dialog_changed_spec(prev, cur) ==> {
                    &&& (cur matches DialogState::EditProject(p) ==> final(self).project_form.name@
                        == p.name@ && final(self).project_form.description@ == p.description@)
                    &&& (cur matches DialogState::EditActivity(a) ==> final(self).activity_form.name@ == a.name@ && final(self).activity_form.project_id
                        == Some(a.project_id))
                    &&& (cur matches DialogState::EditTimeEntry(e) ==> final(self).entry_form.activity_type_id == Some(e.activity_type_id) && final(self).entry_form.comment@ == e.comment@
                        && (e.minutes >= 0 ==> final(self).entry_form.time_str@
                        == crate::timefmt::time_str_of(e.minutes as int)))
                    &&& (cur is AddProject ==> final(self).project_form.name@ == Seq::<
                        char,
                    >::empty() && final(self).project_form.description@ == Seq::<char>::empty())
                    &&& (cur matches DialogState::AddActivity(pid) ==> final(self).activity_form.name@ == Seq::<char>::empty() && final(self).activity_form.project_id == Some(pid))
                    &&& (final(self).previous_dialog_state matches Some(p2) && dialog_eq(
                        p2,
                        cur,
                    ))
                })
            }),
    {
        let changed = match (&self.previous_dialog_state, &self.dialog_state) {
            (None, DialogState::Closed) => false,
            (Some(DialogState::Closed), DialogState::Closed) => false,
            (Some(prev), current) => !dialog_kind_matches(prev, current),
            _ => true,
        };
        if !changed {
            return ;
        }
        match &self.dialog_state {
            DialogState::EditProject(project) => {
                self.project_form = ProjectForm::from_project(project);
            },
            DialogState::EditActivity(activity) => {
                self.activity_form = ActivityForm::from_activity(activity);
            },
            DialogState::EditTimeEntry(entry) => {
                self.entry_form.activity_type_id = Some(entry.activity_type_id);
                self.entry_form.comment = entry.comment.clone();
                if entry.minutes >= 0 {
                    self.entry_form.time_str = crate::timefmt::format_minutes_to_time(
                        entry.minutes,
                    );
                }
            },
            DialogState::AddProject => {
                self.project_form.clear();
            },
            DialogState::AddActivity(project_id) => {
                let pid = *project_id;
                self.activity_form.clear();
                self.activity_form.project_id = Some(pid);
            },
            _ => {},
        }
        self.previous_dialog_state = Some(self.dialog_state.clone());
    }
}

} // verus!
