use ichigo::app::App;
use ichigo::config::{Body, Profile, RequestConfig, UserConfig};
use ichigo::curl::{from_curl, to_curl};
use ichigo::edit::Edit;
use ichigo::entries::request_entry;
use ichigo::form::{plan_save, PairKind, RequestDraft};
use ichigo::keys::{KeyCode, KeyEvent};
use ichigo::order::sort_pairs;
use ichigo::panes::{Action, Mode};
use ichigo::response::{ResponseKind, ResponsePane};
use ichigo::strmap::StrMap;
use ichigo::strset::StrSet;
use ichigo::tester::{collect_test_results, Sample};
use ichigo::theme::{emphasize, is_light, Color};
use ichigo::tree::{build_tree, collect_folder_paths, visible_rows, Entry, VisibleRow};
use ichigo::utils::outgoing;
use ichigo::view::{cursor_line_bg, highlight, Band, Style};
use ichigo::view_app::draw_mode;
use ichigo::view_field::{caret_line_col, text_area_lines, wrap_starts, Rect};
use ichigo::view_forms::{draw_edit_pairs, draw_new_profile, draw_profile_list, draw_profile_select, draw_test_input};
use ichigo::view_help::draw_help;
use ichigo::view_panes::Pane;
use ichigo::view_text::{colorize_json_line, var_spans};

fn map(pairs: &[(&str, &str)]) -> StrMap {
    let mut map = StrMap::new();
    for (k, v) in pairs {
        map.insert(k.to_string(), v.to_string());
    }
    map
}

fn config() -> RequestConfig {
    RequestConfig {
        name: "dir/it".to_string(),
        method: "PUT".to_string(),
        url: "https://api.example.com/x".to_string(),
        description: Some("what it does".to_string()),
        headers: map(&[("Accept", "a b"), ("X-Quote", "it's \"$x\"")]),
        query: map(&[("a", "1&2"), ("b", "")]),
        body: Some(Body { content_type: "text/plain".to_string(), data: "line\n'two' \\".to_string() }),
        extract: Some(map(&[("T", "$.t")])),
        profiles: Some(vec![Profile { name: "dev".to_string(), params: map(&[("A", "1")]) }]),
    }
}

fn entry(name: &str) -> Entry {
    request_entry(name.to_string(), false, config())
}

fn app() -> App {
    App::new(vec![entry("a/b"), entry("c")], false, Ok(UserConfig::defaults()))
}

fn press(app: &mut App, code: KeyCode) -> Action {
    app.handle_key(KeyEvent::plain(code), 0)
}

#[test]
fn a_command_reads_back_as_the_request_that_is_sent() {
    let config = config();
    let none = StrMap::new();
    let read = from_curl(&to_curl(&config, &none, &none)).unwrap();
    let sent = outgoing(&config, &none, &none).unwrap();
    assert_eq!(read.method, sent.method);
    assert_eq!(read.url, sent.url);
    assert_eq!(read.headers.to_pairs(), sent.headers);
    assert_eq!(read.query.to_pairs(), sent.query);
    assert_eq!(read.body, sent.body);
}

#[test]
fn an_unchanged_form_saves_the_request() {
    let draft = RequestDraft::from_config(config(), Some("dir/it".to_string()), false);
    let plan = plan_save(&draft, None).unwrap();
    assert_eq!(plan.config, config());
    assert_eq!(plan.old_path, None);
}

#[test]
fn rows_are_sorted_by_name_and_then_by_value() {
    let pair = |a: &str, b: &str| (a.to_string(), b.to_string());
    let sorted = sort_pairs(vec![pair("b", "1"), pair("a", "2"), pair("a", "1"), pair("", "z")]);
    assert_eq!(sorted, vec![pair("", "z"), pair("a", "1"), pair("a", "2"), pair("b", "1")]);
}

#[test]
fn every_entry_stands_in_the_tree_once() {
    let entries: Vec<Entry> = ["a/b", "a/c/d", "e", "a/c/f"].iter().map(|n| entry(n)).collect();
    let tree = build_tree(&entries);
    let mut closed = StrSet::new();
    let open = visible_rows(&tree, &closed);
    let mut leaves: Vec<usize> = open
        .iter()
        .filter_map(|row| match row {
            VisibleRow::Leaf { entry_idx, .. } => Some(*entry_idx),
            VisibleRow::Folder { .. } => None,
        })
        .collect();
    leaves.sort();
    assert_eq!(leaves, vec![0, 1, 2, 3]);
    collect_folder_paths(&tree, &mut closed);
    assert!(closed.contains("a") && closed.contains("a/c"));
    assert_eq!(visible_rows(&tree, &closed).len(), 2);
}

#[test]
fn nothing_is_sent_or_written_straight_from_the_list() {
    for c in ' '..='~' {
        let mut app = app();
        let action = press(&mut app, KeyCode::Char(c));
        let asks = matches!(
            action,
            Action::Nothing
                | Action::Quit
                | Action::ReloadEntries(_)
                | Action::LoadEntry(_, _)
                | Action::LoadRequest { .. }
        );
        assert!(asks, "{c}: {action:?}");
    }
}

#[test]
fn the_panes_of_a_request_only_change_the_form() {
    for chord in ['e', 'q', 'b', 'p'] {
        let mut app = app();
        press(&mut app, KeyCode::Char('n'));
        app.handle_key(KeyEvent::ctrl(KeyCode::Char(chord)), 0);
        let selected = app.selected;
        for code in [KeyCode::Char('x'), KeyCode::Tab, KeyCode::Enter] {
            assert_eq!(press(&mut app, code), Action::Nothing, "{chord}");
        }
        assert_eq!(app.selected, selected);
    }
}

#[test]
fn esc_ends_the_typing_and_then_leaves_the_form() {
    let mut app = app();
    press(&mut app, KeyCode::Char('n'));
    press(&mut app, KeyCode::Char('x'));
    assert_eq!(press(&mut app, KeyCode::Esc), Action::Nothing);
    assert!(matches!(app.mode, Mode::NewRequest(_)));
    assert_eq!(press(&mut app, KeyCode::Esc), Action::Nothing);
    assert_eq!(app.mode, Mode::Browse);
    press(&mut app, KeyCode::Char('n'));
    press(&mut app, KeyCode::BackTab);
    press(&mut app, KeyCode::Esc);
    assert_eq!(app.mode, Mode::Browse);
}

#[test]
fn esc_drops_a_selection_before_it_leaves_the_response() {
    let mut app = app();
    app.mode = Mode::Response(ResponsePane::message(ResponseKind::Http(200), "a\nb\nab".to_string(), String::new(), false));
    press(&mut app, KeyCode::Char('j'));
    press(&mut app, KeyCode::Char('V'));
    press(&mut app, KeyCode::Esc);
    match &app.mode {
        Mode::Response(p) => assert_eq!((p.anchor, p.cursor), (None, 1)),
        other => panic!("{other:?}"),
    }
    // A changed filter starts at the top again.
    press(&mut app, KeyCode::Char('f'));
    press(&mut app, KeyCode::Char('B'));
    match &app.mode {
        Mode::Response(p) => {
            assert_eq!(p.cursor, 0);
            assert_eq!(p.lines(), vec!["b", "ab"]);
        }
        other => panic!("{other:?}"),
    }
    press(&mut app, KeyCode::Enter);
    assert_eq!(press(&mut app, KeyCode::Char('c')), Action::CopyAll("b\nab".to_string()));
    press(&mut app, KeyCode::Esc);
    assert_eq!(app.mode, Mode::Browse);
}

#[test]
fn toggling_a_folder_twice_changes_nothing() {
    let mut app = app();
    assert!(app.collapsed_folders.contains("a"));
    press(&mut app, KeyCode::Char(' '));
    assert!(!app.collapsed_folders.contains("a"));
    press(&mut app, KeyCode::Char(' '));
    assert!(app.collapsed_folders.contains("a"));
    assert_eq!(app.selected, Some(0));
}

#[test]
fn lightness_follows_the_luminance() {
    assert!(is_light(Color::Rgb(255, 255, 0)));
    assert!(!is_light(Color::Rgb(0, 0, 255)));
    assert!(is_light(Color::Rgb(118, 118, 118)));
    assert!(!is_light(Color::Rgb(117, 117, 117)));
    // What a terminal draws for a name is not known: it counts as dark.
    assert!(!is_light(Color::White) && !is_light(Color::Gray));
    // The curve as floating point computes it.
    let linear = |c: u8| {
        let x = f64::from(c) / 255.0;
        if x <= 0.04045 { x / 12.92 } else { ((x + 0.055) / 1.055).powf(2.4) }
    };
    for r in (0..=255u8).step_by(5) {
        for g in (0..=255u8).step_by(5) {
            for b in (0..=255u8).step_by(5) {
                let luminance = 0.2126 * linear(r) + 0.7152 * linear(g) + 0.0722 * linear(b);
                assert_eq!(is_light(Color::Rgb(r, g, b)), luminance > 0.179, "{r} {g} {b}");
            }
        }
    }
}

#[test]
fn emphasis_is_the_rounded_down_mix() {
    for c in 0..=255u8 {
        let mix = |toward: f32| (f32::from(c) + (toward - f32::from(c)) * 0.45) as u8;
        let (dark, light) = (mix(255.0), mix(0.0));
        assert_eq!(emphasize(Color::Rgb(c, c, c), Color::Black), Color::Rgb(dark, dark, dark));
        assert_eq!(emphasize(Color::Rgb(c, c, c), Color::Rgb(255, 255, 255)), Color::Rgb(light, light, light));
    }
    assert_eq!(emphasize(emphasize(Color::Red, Color::Black), Color::Black), Color::LightRed);
}

#[test]
fn drawing_a_line_loses_nothing_of_it() {
    for text in ["", "  \"k\": \"v\",", "\t[", "  42,", "plain: text", "\"a\": \"b\": 1", "é"] {
        assert_eq!(colorize_json_line(text).text(), text);
        let lit = highlight(colorize_json_line(text), cursor_line_bg(), Band::Row(20));
        assert_eq!(lit.text().trim_end(), text.trim_end());
        assert!(lit.text().starts_with(text));
    }
    for text in ["a {{B}} c", "{{A}}{{B}}", "{{", "}}{{x}}", "{{a {{b}}"] {
        let spans = var_spans(text, Style::bare());
        let whole: String = spans.iter().map(|s| s.text.as_str()).collect();
        assert_eq!(whole, text);
    }
}

#[test]
fn wrapped_rows_fit_and_miss_nothing() {
    for text in ["", "one two three four", "xxxxxxxxxxxxxxxxxxxx", "a  b c dddddddddd e", " "] {
        for width in 1..8 {
            let starts = wrap_starts(text, width);
            let n = text.chars().count();
            assert_eq!(starts[0], 0);
            for pair in starts.windows(2) {
                assert!(pair[0] < pair[1] && pair[1] <= pair[0] + width);
            }
            assert!(n - starts[starts.len() - 1] <= width);
        }
    }
}

#[test]
fn the_caret_is_drawn_on_the_line_that_holds_it() {
    let text = "ab\né\n\nd";
    for caret in 0..=text.len() {
        let mut edit = Edit::at_end(text);
        edit.caret = caret;
        let lines = text_area_lines(text, Some(&edit), "> ");
        let drawn: Vec<usize> =
            lines.iter().enumerate().filter(|(_, l)| l.spans.len() > 2).map(|(i, _)| i).collect();
        assert_eq!(drawn, vec![caret_line_col(text, caret).0], "{caret}");
    }
}

#[test]
fn hints_fit_eighty_columns() {
    let mut app = app();
    assert!(draw_help(&app.mode).width() <= 80);
    press(&mut app, KeyCode::Char('n'));
    assert_eq!(draw_help(&app.mode).width(), 75);
    app.mode = Mode::TestResponse(collect_test_results(&vec![Sample { status: 200, nanos: 1 }]));
    assert_eq!(draw_help(&app.mode).width(), 78);
}

fn on_screen(pane: &Pane, height: u16, marks: &str) -> bool {
    let from = usize::from(pane.scroll);
    let to = (from + usize::from(height - 2)).min(pane.lines.len());
    pane.lines[from..to].iter().any(|l| l.text().contains(marks))
}

#[test]
fn whatever_has_the_focus_is_on_the_screen() {
    let area = Rect { x: 0, y: 0, width: 40, height: 7 };
    let rows: Vec<(String, String)> = (0..9).map(|i| (format!("n{i}"), format!("v{i}"))).collect();
    let edit = Edit::default();
    for focused in 0..18 {
        let pane = draw_edit_pairs(area, PairKind::Headers, &rows, focused, &edit, false, None);
        assert!(on_screen(&pane, 7, "│"), "{focused}");
        let pane = draw_new_profile(area, "p", &rows, focused, &edit, false, None, false);
        assert!(on_screen(&pane, 7, "│"), "{focused}");
    }
    for focused in 0..=9 {
        let pane = draw_test_input(area, &rows, "10", focused, &edit, "t");
        assert!(on_screen(&pane, 7, "│"), "{focused}");
    }
    let profiles: Vec<Profile> =
        (0..9).map(|i| Profile { name: format!("p{i}"), params: map(&[("A", "1")]) }).collect();
    for selected in 0..=9usize {
        let pane = draw_profile_list(area, &profiles, selected, "r", false);
        assert!(on_screen(&pane, 7, "▶"), "{selected}");
        let name = if selected == 0 { "(no profile)".to_string() } else { format!("p{}", selected - 1) };
        let pane = draw_profile_select(area, &profiles, selected, "r");
        assert!(on_screen(&pane, 7, &name), "{selected}");
    }
    let mut app = app();
    press(&mut app, KeyCode::Char('n'));
    for _ in 0..8 {
        let pane = draw_mode(&app, false, area).unwrap();
        assert!(on_screen(&pane, 7, "│") || on_screen(&pane, 7, "▸"));
        press(&mut app, KeyCode::Tab);
    }
}

#[test]
fn a_wide_character_takes_two_columns() {
    let line = colorize_json_line("日本x");
    assert_eq!(line.width(), 5);
    let lit = highlight(colorize_json_line("日本x"), cursor_line_bg(), Band::Row(8));
    assert_eq!(lit.text(), "日本x   ");
    assert_eq!(lit.width(), 8);
}

#[test]
fn only_the_names_asked_for_matter() {
    let text = "{{A}} and {{B}} and {{";
    let names = ichigo::vars::extract_var_names(text, &StrMap::new(), &StrMap::new(), None);
    assert_eq!(names, vec!["A", "B"]);
    let fill = |vars: &StrMap, env: &StrMap| ichigo::vars::interpolate(text, vars, env);
    let first = fill(&map(&[("A", "1"), ("X", "?")]), &map(&[("B", "2"), ("A", "!")]));
    let second = fill(&map(&[("A", "1"), ("B", "2")]), &StrMap::new());
    assert_eq!(first, second);
    assert_eq!(first, "1 and 2 and {{");
}

#[test]
fn a_flag_that_means_nothing_is_refused_wherever_it_stands() {
    for command in ["curl --nope a", "curl a -s --nope", "curl -H 'A: b' --nope=1 a"] {
        let error = from_curl(command).unwrap_err();
        assert_eq!(error.message(), "unsupported curl flag: --nope", "{command}");
    }
    // As the value of another flag it is no flag.
    assert_eq!(from_curl("curl a -d --nope").unwrap().body.unwrap().data, "--nope");
}
