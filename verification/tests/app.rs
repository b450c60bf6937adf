use ichigo::app::App;
use ichigo::app_keys::MouseKind;
use ichigo::config::{Profile, RequestConfig, UserConfig};
use ichigo::entries::{chain_entry, request_entry};
use ichigo::keys::{KeyCode, KeyEvent};
use ichigo::panes::{Action, Mode, PendingAction};
use ichigo::request::ChainConfig;
use ichigo::response::{ResponseKind, ResponsePane};
use ichigo::strmap::StrMap;
use ichigo::tree::Entry;
use ichigo::view_app::draw_mode;
use ichigo::view_browse::draw_list;
use ichigo::view_field::Rect;

fn map(pairs: &[(&str, &str)]) -> StrMap {
    let mut map = StrMap::new();
    for (k, v) in pairs {
        map.insert(k.to_string(), v.to_string());
    }
    map
}

fn config(name: &str, url: &str) -> RequestConfig {
    RequestConfig {
        name: name.to_string(),
        method: "GET".to_string(),
        url: url.to_string(),
        description: None,
        headers: StrMap::new(),
        query: StrMap::new(),
        body: None,
        extract: None,
        profiles: None,
    }
}

fn request(name: &str, url: &str, global: bool) -> Entry {
    request_entry(name.to_string(), global, config(name, url))
}

fn chain(name: &str) -> ChainConfig {
    ChainConfig {
        name: name.to_string(),
        steps: vec![config("first", "https://{{HOST}}/a"), config("second", "https://{{HOST}}/b")],
        profiles: None,
    }
}

fn entries() -> Vec<Entry> {
    vec![
        request("auth/login", "https://api/login", false),
        request("ping", "https://{{HOST}}/ping", false),
        chain_entry("tour".to_string(), false, Some(&chain("tour"))),
        request("mine", "https://api/mine", true),
    ]
}

fn app() -> App {
    App::new(entries(), false, Ok(UserConfig::defaults()))
}

fn press(app: &mut App, c: char) -> Action {
    app.handle_key(KeyEvent::plain(KeyCode::Char(c)), 0)
}

fn key(app: &mut App, code: KeyCode) -> Action {
    app.handle_key(KeyEvent::plain(code), 0)
}

fn listed(app: &App) -> Vec<String> {
    draw_list(app).iter().map(|l| l.text()).collect()
}

fn message(app: &App) -> String {
    match &app.mode {
        Mode::Response(p) => p.body.clone(),
        other => panic!("{other:?}"),
    }
}

#[test]
fn every_folder_is_closed_at_the_start() {
    let app = app();
    assert_eq!(app.selected, Some(0));
    assert_eq!(app.visible_count(), 4);
    let rows = listed(&app);
    assert!(rows[0].ends_with("auth/"), "{rows:?}");
    assert!(rows[3].ends_with("[global]/"), "{rows:?}");
}

#[test]
fn broken_preferences_are_reported_and_the_defaults_hold() {
    let app = App::new(entries(), false, Err("bad key".to_string()));
    assert_eq!(message(&app), "Config: bad key");
    assert_eq!(app.split_pct, 35);
}

#[test]
fn the_list_is_walked_and_folders_open() {
    let mut app = app();
    assert_eq!(press(&mut app, ' '), Action::Nothing);
    assert_eq!(app.visible_count(), 5);
    press(&mut app, 'j');
    assert_eq!(app.selected_entry_index(), Some(0));
    press(&mut app, 'G');
    assert_eq!(app.selected, Some(4));
    press(&mut app, 'j');
    assert_eq!(app.selected, Some(4));
    press(&mut app, 'g');
    assert_eq!(app.selected, Some(4));
    press(&mut app, 'g');
    assert_eq!(app.selected, Some(0));
    press(&mut app, 'k');
    assert_eq!(app.selected, Some(0));
    key(&mut app, KeyCode::Enter);
    assert_eq!(app.visible_count(), 4);
}

#[test]
fn letters_ask_for_what_they_stand_for() {
    let mut app = app();
    press(&mut app, 'j');
    assert_eq!(press(&mut app, 'r'), Action::LoadEntry(1, PendingAction::Run));
    assert_eq!(press(&mut app, 't'), Action::LoadEntry(1, PendingAction::Test));
    assert_eq!(press(&mut app, 'y'), Action::LoadEntry(1, PendingAction::Curl));
    assert_eq!(press(&mut app, 'R'), Action::ReloadEntries(Some("ping".to_string())));
    assert_eq!(
        press(&mut app, 'e'),
        Action::LoadRequest { name: "ping".to_string(), global: false, clone: false }
    );
    assert_eq!(
        press(&mut app, 'c'),
        Action::LoadRequest { name: "ping".to_string(), global: false, clone: true }
    );
    assert_eq!(press(&mut app, 'q'), Action::Quit);
    // A chain has no form.
    press(&mut app, 'j');
    assert_eq!(press(&mut app, 'e'), Action::Nothing);
    // A chord is no letter.
    assert_eq!(app.handle_key(KeyEvent::ctrl(KeyCode::Char('q')), 0), Action::Nothing);
}

#[test]
fn any_key_only_dismisses_the_keymap() {
    let mut app = app();
    press(&mut app, '?');
    assert!(app.show_help);
    assert_eq!(press(&mut app, 'q'), Action::Nothing);
    assert!(!app.show_help);
    assert_eq!(app.selected, Some(0));
}

#[test]
fn a_deletion_is_asked_for_first() {
    let mut app = app();
    press(&mut app, 'j');
    press(&mut app, 'd');
    assert_eq!(key(&mut app, KeyCode::Esc), Action::Nothing);
    assert_eq!(app.mode, Mode::Browse);
    press(&mut app, 'd');
    assert_eq!(
        press(&mut app, 'y'),
        Action::DeleteRequest { name: "ping".to_string(), global: false }
    );
    app.entry_deleted(vec![request("auth/login", "u", false)]);
    assert_eq!(app.selected, Some(0));
    app.entry_deleted(Vec::new());
    assert_eq!(app.selected, None);
}

#[test]
fn the_filter_leaves_what_matches() {
    let mut app = app();
    press(&mut app, 'f');
    for c in "PI".chars() {
        press(&mut app, c);
    }
    assert_eq!(app.filtered_indices(), vec![0, 1, 3]);
    app.handle_paste("n\ng");
    assert_eq!(app.filter, "PIn g");
    key(&mut app, KeyCode::Backspace);
    key(&mut app, KeyCode::Backspace);
    assert_eq!(listed(&app), vec![" GET    ping local".to_string()]);
    key(&mut app, KeyCode::Enter);
    assert!(!app.filter_active);
    assert_eq!(press(&mut app, 'r'), Action::LoadEntry(1, PendingAction::Run));
    press(&mut app, 'f');
    key(&mut app, KeyCode::Esc);
    assert_eq!(app.filter, "");
}

#[test]
fn a_request_without_variables_runs_at_once() {
    let mut app = app();
    let action = app.entry_ready(0, request("auth/login", "https://api/login", false), PendingAction::Run, &StrMap::new());
    assert_eq!(action, Action::RunRequest("auth/login".to_string(), StrMap::new()));
    let action = app.entry_ready(0, request("auth/login", "https://api/login", false), PendingAction::Curl, &StrMap::new());
    assert_eq!(action, Action::RenderCurl("auth/login".to_string(), StrMap::new()));
}

#[test]
fn variables_are_asked_for_and_open_on_the_environment() {
    let mut app = app();
    let env = map(&[("HOST", "localhost")]);
    let action = app.entry_ready(1, request("ping", "https://{{HOST}}/ping", false), PendingAction::Run, &env);
    assert_eq!(action, Action::Nothing);
    press(&mut app, '2');
    let action = key(&mut app, KeyCode::Enter);
    assert_eq!(action, Action::RunRequest("ping".to_string(), map(&[("HOST", "localhost2")])));
}

#[test]
fn a_load_test_asks_how_often() {
    let mut app = app();
    app.entry_ready(0, request("auth/login", "https://api/login", false), PendingAction::Test, &StrMap::new());
    app.handle_paste("2x5");
    let action = key(&mut app, KeyCode::Enter);
    match action {
        Action::RunTest(name, _, times) => {
            assert_eq!(name, "auth/login");
            assert!(times.to_string().contains("25"), "{times}");
        }
        other => panic!("{other:?}"),
    }
}

#[test]
fn chains_are_run_and_nothing_else() {
    let mut app = app();
    let entry = || chain_entry("tour".to_string(), false, Some(&chain("tour")));
    assert_eq!(
        app.entry_ready(2, entry(), PendingAction::Run, &StrMap::new()),
        Action::LoadChain("tour".to_string())
    );
    app.entry_ready(2, entry(), PendingAction::Test, &StrMap::new());
    assert_eq!(message(&app), "Testing chains is not supported.");
    app.entry_ready(2, entry(), PendingAction::Curl, &StrMap::new());
    assert_eq!(message(&app), "Copying chains as cURL is not supported.");
    assert_eq!(
        app.start_chain("tour".to_string(), &chain("tour"), &map(&[("HOST", "h")])),
        Action::Nothing
    );
    assert_eq!(
        key(&mut app, KeyCode::Enter),
        Action::RunChain("tour".to_string(), map(&[("HOST", "h")]))
    );
}

fn with_profiles() -> Entry {
    let mut c = config("ping", "https://{{HOST}}/{{PATH}}");
    c.profiles = Some(vec![
        Profile { name: "dev".to_string(), params: map(&[("HOST", "dev")]) },
        Profile { name: "all".to_string(), params: map(&[("HOST", "h"), ("PATH", "p")]) },
    ]);
    request_entry("ping".to_string(), false, c)
}

#[test]
fn a_full_profile_spares_the_form() {
    let mut app = app();
    let env = map(&[("HOST", "ignored"), ("PATH", "env")]);
    app.entry_ready(1, with_profiles(), PendingAction::Run, &env);
    press(&mut app, 'j');
    press(&mut app, 'j');
    assert_eq!(key(&mut app, KeyCode::Enter), Action::LoadForProfile("ping".to_string()));
    let names = vec!["HOST".to_string(), "PATH".to_string()];
    assert_eq!(
        app.confirm_profile_select(&names, &env),
        Action::RunRequest("ping".to_string(), map(&[("HOST", "h"), ("PATH", "p")]))
    );
}

#[test]
fn a_profile_with_a_gap_leads_to_the_form() {
    let mut app = app();
    let env = map(&[("PATH", "env")]);
    app.entry_ready(1, with_profiles(), PendingAction::Run, &env);
    press(&mut app, 'j');
    key(&mut app, KeyCode::Enter);
    let names = vec!["HOST".to_string(), "PATH".to_string()];
    assert_eq!(app.confirm_profile_select(&names, &env), Action::Nothing);
    match &app.mode {
        Mode::VarInput(p) => assert_eq!(
            p.vars,
            vec![("HOST".to_string(), "dev".to_string()), ("PATH".to_string(), "env".to_string())]
        ),
        other => panic!("{other:?}"),
    }
}

#[test]
fn a_reload_goes_back_to_the_entry_by_name() {
    let mut app = app();
    press(&mut app, 'j');
    let more = vec![request("about", "u", false), request("ping", "u", false)];
    app.reload_entries(more, Some("ping"));
    assert_eq!(app.selected, Some(1));
    app.reload_entries(vec![request("about", "u", false)], Some("ping"));
    assert_eq!(app.selected, Some(0));
}

#[test]
fn a_saved_request_is_shown_in_the_list() {
    let mut app = app();
    press(&mut app, 'n');
    app.save_failed("no".to_string());
    match &app.mode {
        Mode::NewRequest(p) => assert_eq!(p.error.as_deref(), Some("no")),
        other => panic!("{other:?}"),
    }
    app.request_saved(Some(vec![request("new", "u", false)]), "new");
    assert_eq!(app.mode, Mode::Browse);
    assert_eq!(app.selected_entry_index(), Some(0));
}

#[test]
fn a_clone_has_no_name_and_an_edit_keeps_it() {
    let mut app = app();
    app.request_ready(config("ping", "u"), "ping".to_string(), true, true);
    match &app.mode {
        Mode::NewRequest(p) => {
            assert_eq!(p.draft.fields[0].1, "");
            assert!(!p.draft.global);
        }
        other => panic!("{other:?}"),
    }
    app.request_ready(config("ping", "u"), "ping".to_string(), true, false);
    match &app.mode {
        Mode::NewRequest(p) => {
            assert_eq!(p.draft.fields[0].1, "ping");
            assert!(p.draft.global);
        }
        other => panic!("{other:?}"),
    }
}

#[test]
fn copying_is_noted_or_its_failure_shown() {
    let mut app = app();
    app.mode = Mode::Response(ResponsePane::message(
        ResponseKind::Http(200),
        "a\nb".to_string(),
        String::new(),
        false,
    ));
    assert_eq!(press(&mut app, 'y'), Action::CopyLines("a".to_string(), 1));
    app.lines_copied(1, Ok(()));
    match &app.mode {
        Mode::Response(p) => assert_eq!(p.status.as_deref(), Some("copied 1 line")),
        other => panic!("{other:?}"),
    }
    press(&mut app, 'V');
    press(&mut app, 'j');
    assert_eq!(press(&mut app, 'y'), Action::CopyLines("a\nb".to_string(), 2));
    app.lines_copied(2, Ok(()));
    assert_eq!(press(&mut app, 'c'), Action::CopyAll("a\nb".to_string()));
    app.all_copied(Ok(()));
    match &app.mode {
        Mode::Response(p) => assert_eq!(p.status.as_deref(), Some("copied response")),
        other => panic!("{other:?}"),
    }
    app.all_copied(Err("none".to_string()));
    assert_eq!(message(&app), "Copy failed: none");
    app.curl_copied("curl 'x'".to_string(), Ok(()));
    assert_eq!(message(&app), "curl 'x'");
    app.show_error("lost");
    assert_eq!(message(&app), "Error: lost");
}

#[test]
fn the_divider_is_grabbed_dragged_and_let_go() {
    let mut app = app();
    app.split_x = 35;
    app.term_width = 100;
    app.handle_mouse(MouseKind::Drag, 50);
    assert_eq!(app.split_pct, 35);
    app.handle_mouse(MouseKind::Down, 37);
    assert!(!app.dragging_split);
    app.handle_mouse(MouseKind::Down, 36);
    assert!(app.dragging_split);
    app.handle_mouse(MouseKind::Drag, 50);
    assert_eq!(app.split_pct, 50);
    app.handle_mouse(MouseKind::Drag, 2);
    assert_eq!(app.split_pct, 15);
    app.handle_mouse(MouseKind::Up, 50);
    assert!(!app.dragging_split);
}

#[test]
fn a_paste_lands_in_the_field_in_focus() {
    let mut app = app();
    press(&mut app, 'i');
    app.handle_paste("curl 'https://api/x' \\\n  -H 'A: b'");
    app.handle_key(KeyEvent::ctrl(KeyCode::Char('s')), 0);
    match &app.mode {
        Mode::NewRequest(p) => assert_eq!(p.draft.headers.get("A").map(|s| s.as_str()), Some("b")),
        other => panic!("{other:?}"),
    }
    app.handle_paste("two\nlines");
    match &app.mode {
        Mode::NewRequest(p) => assert_eq!(p.draft.fields[0].1, "two lines"),
        other => panic!("{other:?}"),
    }
}

#[test]
fn a_form_is_saved_with_enter() {
    let mut app = app();
    press(&mut app, 'n');
    assert_eq!(key(&mut app, KeyCode::Enter), Action::SaveRequest);
}

#[test]
fn each_mode_has_its_pane() {
    let area = Rect { x: 0, y: 0, width: 60, height: 20 };
    let mut app = app();
    let title = |app: &App| draw_mode(app, false, area).map(|p| p.title.text());
    assert_eq!(title(&app).as_deref(), Some(" Details "));
    press(&mut app, 'n');
    assert_eq!(title(&app).as_deref(), Some(" New Request "));
    app.mode = Mode::Browse;
    press(&mut app, 'i');
    assert_eq!(title(&app).as_deref(), Some(" Import cURL "));
    app.entry_ready(1, with_profiles(), PendingAction::Run, &StrMap::new());
    assert_eq!(title(&app).as_deref(), Some(" Profile — ping "));
    app.show_error("x");
    assert_eq!(title(&app), None);
}

#[test]
fn the_last_stop_of_the_form_is_drawn_on_the_profiles() {
    let area = Rect { x: 0, y: 0, width: 60, height: 60 };
    let mut app = app();
    press(&mut app, 'n');
    key(&mut app, KeyCode::BackTab);
    let pane = draw_mode(&app, false, area).unwrap();
    let focused: Vec<String> =
        pane.lines.iter().map(|l| l.text()).filter(|t| t.starts_with('▸')).collect();
    assert_eq!(focused, vec!["▸ profiles  Enter to edit".to_string()]);
}

#[test]
fn results_are_left_copied_or_quit() {
    let mut app = app();
    let results = || {
        Mode::TestResponse(ichigo::tester::collect_test_results(&vec![ichigo::tester::Sample {
            status: 200,
            nanos: 1_000_000,
        }]))
    };
    app.mode = results();
    assert_eq!(press(&mut app, 'c'), Action::CopyResults);
    assert_eq!(press(&mut app, 'q'), Action::Quit);
    assert_eq!(key(&mut app, KeyCode::Esc), Action::Nothing);
    assert_eq!(app.mode, Mode::Browse);
}
