use ichigo::shell::{shell_quote, tokenize};
use ichigo::strmap::StrMap;
use ichigo::strset::StrSet;
use ichigo::text::{is_white, lines_of, parse_word, split_string, trim};
use ichigo::vars::lists;
use ichigo::view_help::{draw_help, draw_help_overlay};
use ichigo::view_field::Rect;
use ichigo::panes::Mode;

#[test]
fn white_space_is_what_the_standard_library_says() {
    for n in 0..=0x10ffffu32 {
        if let Some(c) = char::from_u32(n) {
            assert_eq!(is_white(c), c.is_whitespace(), "{n:x}");
        }
    }
}

#[test]
fn text_is_taken_apart_as_the_standard_library_does() {
    for s in ["", "a", "\n", "a\n", "a\r\nb", "\n\na", "  é \t", "a\rb\n\r", "x,,y,"] {
        assert_eq!(lines_of(s), s.lines().collect::<Vec<_>>(), "{s:?}");
        assert_eq!(trim(s), s.trim(), "{s:?}");
        assert_eq!(split_string(s, ','), s.split(',').collect::<Vec<_>>(), "{s:?}");
    }
    for s in ["", "0", "007", "+5", "-5", "18446744073709551615", "18446744073709551616", "1a", "+"] {
        assert_eq!(parse_word(s), s.parse::<usize>().ok(), "{s:?}");
    }
}

#[test]
fn a_map_lists_its_pairs_by_name() {
    let mut map = StrMap::new();
    for (k, v) in [("b", "1"), ("a", "2"), ("B", "3"), ("b", "4")] {
        map.insert(k.to_string(), v.to_string());
    }
    let rows: Vec<(String, String)> = map.to_pairs();
    let shown: Vec<(&str, &str)> = rows.iter().map(|(k, v)| (k.as_str(), v.as_str())).collect();
    assert_eq!(shown, vec![("B", "3"), ("a", "2"), ("b", "4")]);
    let mut other = StrMap::new();
    other.insert("a".to_string(), "new".to_string());
    other.insert("c".to_string(), "5".to_string());
    map.extend(&other);
    assert_eq!(map.keys(), vec!["B", "a", "b", "c"]);
    assert_eq!(map.get("a").map(|s| s.as_str()), Some("new"));
}

#[test]
fn a_set_holds_what_was_put_in() {
    let mut set = StrSet::new();
    set.insert("a".to_string());
    set.insert("a".to_string());
    assert!(set.contains("a"));
    set.remove("a");
    assert!(!set.contains("a"));
}

#[test]
fn a_quoted_value_is_read_back() {
    for s in ["", "plain", "it's", "'", "''", "a b\n\"c\" $d `e` \\", "é"] {
        assert_eq!(tokenize(&shell_quote(s)).unwrap(), vec![s.to_string()], "{s:?}");
    }
}

#[test]
fn names_are_found_in_a_list() {
    let names = vec!["A".to_string(), "B".to_string()];
    assert!(lists(&names, "B"));
    assert!(!lists(&names, "b"));
}

#[test]
fn the_hint_line_of_the_list_names_its_keys() {
    let line = draw_help(&Mode::Browse);
    assert_eq!(
        line.text(),
        " r run   t test   n new   e edit   f filter   ? help   q quit"
    );
}

#[test]
fn the_keymap_is_centred_and_columns_line_up() {
    let (place, pane) = draw_help_overlay(Rect { x: 0, y: 0, width: 100, height: 31 });
    assert_eq!(place, Rect { x: 17, y: 10, width: 65, height: 11 });
    let lines: Vec<String> = pane.lines.iter().map(|l| l.text()).collect();
    assert_eq!(lines[2], "  j/k     up/down      r/Enter run          n       new          ");
    assert_eq!(lines[6], format!("  {}R       refresh      ", " ".repeat(42)));
}
