//! Scenario tests for the organizer: event ingestion, naming, renames.

use tabula::state::{Action, CommandOutcome, Event, Pane, State, Tab};

fn s(x: &str) -> String {
    x.to_string()
}

fn pane(id: u32, tab: usize) -> Pane {
    Pane { id, tab_position: tab, is_suppressed: false, is_plugin: false }
}

fn home_state() -> State {
    State::load(vec![(s("home_dir"), s("/home/u"))])
}

#[test]
fn single_pane_under_home() {
    let mut st = home_state();
    let acts = st.handle_event(Event::TabUpdate(vec![Tab { position: 0, name: s("old") }]));
    assert!(acts.is_empty());
    let acts = st.handle_event(Event::PaneUpdate(vec![pane(1, 0)]));
    assert!(acts.is_empty());
    let acts = st.handle_pipe("tabula", Some(s("\"1\" \"/home/u/proj/api\"")));
    assert_eq!(acts, vec![Action::Rename(1, s("~/proj/api"))]);
    assert_eq!(st.tab_name_at(0), Some(s("~/proj/api")));
}

#[test]
fn two_panes_diverging_dirs() {
    let mut st = home_state();
    st.handle_event(Event::TabUpdate(vec![Tab { position: 0, name: s("old") }]));
    st.handle_event(Event::PaneUpdate(vec![pane(1, 0), pane(2, 0)]));
    let acts = st.handle_pipe("tabula", Some(s("\"1\" \"/home/u/proj/api\"")));
    assert_eq!(acts, vec![Action::Rename(1, s("~/proj/api"))]);
    let acts = st.handle_pipe("tabula", Some(s("\"2\" \"/home/u/proj/web\"")));
    assert_eq!(acts, vec![Action::Rename(1, s("~/proj/* (2 panes)"))]);
}

#[test]
fn malformed_payload_changes_nothing() {
    let mut st = home_state();
    st.handle_event(Event::TabUpdate(vec![Tab { position: 0, name: s("old") }]));
    st.handle_event(Event::PaneUpdate(vec![pane(1, 0)]));
    let acts = st.handle_pipe("tabula", Some(s("\"1 /no/closing/quote")));
    assert!(acts.is_empty());
    assert_eq!(st.working_dir_of(1), None);
    assert_eq!(st.tab_name_at(0), Some(s("old")));
}

#[test]
fn second_pass_issues_no_renames() {
    let mut st = home_state();
    st.handle_event(Event::TabUpdate(vec![Tab { position: 0, name: s("old") }]));
    st.handle_event(Event::PaneUpdate(vec![pane(1, 0)]));
    let acts = st.handle_pipe("tabula", Some(s("\"1\" \"/home/u/proj/api\"")));
    assert_eq!(acts.len(), 1);
    let again = st.organize();
    assert!(again.is_empty());
}

#[test]
fn uniform_dirs_get_trailing_separator() {
    let mut st = State::load(Vec::new());
    st.handle_event(Event::TabUpdate(vec![Tab { position: 0, name: s("old") }]));
    st.handle_event(Event::PaneUpdate(vec![pane(1, 0), pane(2, 0)]));
    st.handle_pipe("tabula", Some(s("\"1\" \"/x/y\"")));
    let acts = st.handle_pipe("tabula", Some(s("\"2\" \"/x/y\"")));
    assert_eq!(acts, vec![Action::Rename(1, s("/x/y/"))]);
}

#[test]
fn git_root_takes_precedence_over_home() {
    let mut st = home_state();
    st.handle_event(Event::PermissionResult(true));
    st.handle_event(Event::TabUpdate(vec![Tab { position: 0, name: s("old") }]));
    st.handle_event(Event::PaneUpdate(vec![pane(1, 0)]));
    let acts = st.handle_pipe("tabula", Some(s("\"1\" \"/home/u/proj/src\"")));
    assert_eq!(
        acts,
        vec![
            Action::ResolveGitRoot(s("/home/u/proj/src")),
            Action::Rename(1, s("~/proj/src")),
        ]
    );
    let acts = st.handle_event(Event::CommandResult(CommandOutcome {
        exit_code: Some(0),
        stdout: Some(s("/home/u/proj\n")),
        context: vec![
            (s("plugin"), s("tabula")),
            (s("fn"), s("get_git_worktree_root")),
            (s("path"), s("/home/u/proj/src")),
        ],
    }));
    assert_eq!(acts, vec![Action::Rename(1, s("proj/src"))]);
}

#[test]
fn failing_command_is_dropped() {
    let mut st = home_state();
    st.handle_event(Event::TabUpdate(vec![Tab { position: 0, name: s("old") }]));
    st.handle_event(Event::PaneUpdate(vec![pane(1, 0)]));
    st.handle_pipe("tabula", Some(s("\"1\" \"/home/u/a\"")));
    let acts = st.handle_event(Event::CommandResult(CommandOutcome {
        exit_code: Some(128),
        stdout: Some(s("")),
        context: vec![
            (s("plugin"), s("tabula")),
            (s("fn"), s("get_git_worktree_root")),
            (s("path"), s("/home/u/a")),
        ],
    }));
    assert!(acts.is_empty());
}

#[test]
fn foreign_command_result_is_ignored() {
    let mut st = home_state();
    st.handle_event(Event::TabUpdate(vec![Tab { position: 0, name: s("old") }]));
    st.handle_event(Event::PaneUpdate(vec![pane(1, 0)]));
    st.handle_pipe("tabula", Some(s("\"1\" \"/home/u/a\"")));
    let acts = st.handle_event(Event::CommandResult(CommandOutcome {
        exit_code: Some(0),
        stdout: Some(s("/home/u")),
        context: vec![(s("plugin"), s("someone_else"))],
    }));
    assert!(acts.is_empty());
}

#[test]
fn wrong_pipe_name_is_ignored() {
    let mut st = home_state();
    st.handle_event(Event::TabUpdate(vec![Tab { position: 0, name: s("old") }]));
    st.handle_event(Event::PaneUpdate(vec![pane(1, 0)]));
    let acts = st.handle_pipe("other", Some(s("\"1\" \"/home/u/a\"")));
    assert!(acts.is_empty());
    assert_eq!(st.working_dir_of(1), None);
}

#[test]
fn missing_payload_is_ignored() {
    let mut st = home_state();
    st.handle_event(Event::TabUpdate(vec![Tab { position: 0, name: s("old") }]));
    let acts = st.handle_pipe("tabula", None);
    assert!(acts.is_empty());
}

#[test]
fn suppressed_and_plugin_panes_are_excluded() {
    let mut st = home_state();
    st.handle_event(Event::TabUpdate(vec![Tab { position: 0, name: s("old") }]));
    let mut hidden = pane(1, 0);
    hidden.is_suppressed = true;
    let mut plug = pane(2, 0);
    plug.is_plugin = true;
    st.handle_event(Event::PaneUpdate(vec![hidden, plug]));
    let acts = st.handle_pipe("tabula", Some(s("\"1\" \"/home/u/a\"")));
    assert!(acts.is_empty());
    assert_eq!(st.tab_name_at(0), Some(s("old")));
}

#[test]
fn unrelated_tab_is_skipped() {
    let mut st = home_state();
    st.handle_event(Event::TabUpdate(vec![
        Tab { position: 0, name: s("zero") },
        Tab { position: 1, name: s("one") },
    ]));
    st.handle_event(Event::PaneUpdate(vec![pane(7, 1)]));
    let acts = st.handle_pipe("tabula", Some(s("\"7\" \"/srv/data\"")));
    assert_eq!(acts, vec![Action::Rename(2, s("/srv/data"))]);
    assert_eq!(st.tab_name_at(0), Some(s("zero")));
    assert_eq!(st.tab_name_at(1), Some(s("/srv/data")));
}

#[test]
fn rename_skipped_when_name_already_matches() {
    let mut st = home_state();
    st.handle_event(Event::TabUpdate(vec![Tab { position: 0, name: s("~/proj/api") }]));
    st.handle_event(Event::PaneUpdate(vec![pane(1, 0)]));
    let acts = st.handle_pipe("tabula", Some(s("\"1\" \"/home/u/proj/api\"")));
    assert!(acts.is_empty());
}

#[test]
fn working_dirs_survive_pane_removal() {
    let mut st = home_state();
    st.handle_event(Event::TabUpdate(vec![Tab { position: 0, name: s("old") }]));
    st.handle_event(Event::PaneUpdate(vec![pane(1, 0)]));
    st.handle_pipe("tabula", Some(s("\"1\" \"/home/u/a\"")));
    st.handle_event(Event::PaneUpdate(Vec::new()));
    assert_eq!(st.working_dir_of(1), Some(s("/home/u/a")));
}

#[test]
fn no_resolution_without_permission() {
    let mut st = home_state();
    st.handle_event(Event::TabUpdate(vec![Tab { position: 0, name: s("old") }]));
    st.handle_event(Event::PaneUpdate(vec![pane(1, 0)]));
    let acts = st.handle_pipe("tabula", Some(s("\"1\" \"/home/u/a\"")));
    assert_eq!(acts, vec![Action::Rename(1, s("~/a"))]);
    assert_eq!(st.permission_state(), None);
}
