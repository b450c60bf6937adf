use ichigo::config::Keys;
use ichigo::edit::{
    apply, apply_multiline, insert_str, normal, word_back, word_end, word_forward, Applied, Edit, Op, Pending,
    Words, MAX_UNDO, SEQUENCE_TIMEOUT,
};
use ichigo::keys::{KeyCode, KeyEvent};

fn key(c: char) -> KeyEvent {
    KeyEvent::plain(KeyCode::Char(c))
}

fn code(c: KeyCode) -> KeyEvent {
    KeyEvent::plain(c)
}

/// [`apply`] with a throwaway register, for the tests that are not about
/// `y` and `p`. The ones that are use [`apply`] directly and keep it.
fn press(value: &mut String, edit: &mut Edit, key: KeyEvent, keys: Keys) -> Applied {
    apply(value, edit, key, keys, &mut String::new(), 0)
}

fn press_multiline(
    value: &mut String,
    edit: &mut Edit,
    key: KeyEvent,
    keys: Keys,
) -> Applied {
    apply_multiline(value, edit, key, keys, &mut String::new(), 0)
}

/// Types `presses` into `value` from a normal-mode caret at `caret`,
/// keeping the register across them — what every operator, `y`/`p` and
/// `f`-family test runs through.
fn keys_at(value: &str, caret: usize, presses: &str) -> (String, Edit, String) {
    let mut value = value.to_string();
    let mut edit = normal_at(caret);
    let mut register = String::new();
    for c in presses.chars() {
        apply(&mut value, &mut edit, key(c), Keys::default(), &mut register, 0);
    }
    (value, edit, register)
}

/// Types `presses` into a field starting from `edit`, with no insert-escape
/// sequence configured.
fn run(value: &str, edit: Edit, presses: &[KeyEvent]) -> (String, Edit) {
    run_with(value, edit, presses, Keys::default())
}

fn run_with(value: &str, edit: Edit, presses: &[KeyEvent], keys: Keys) -> (String, Edit) {
    let mut value = value.to_string();
    let mut edit = edit;
    for k in presses {
        press(&mut value, &mut edit, *k, keys);
    }
    (value, edit)
}

fn normal_at(caret: usize) -> Edit {
    Edit { caret, insert: false, ..Edit::default() }
}

/// `inoremap jk <Esc>`.
fn jk() -> Keys {
    Keys { insert_escape: Some(('j', 'k')) }
}

#[test]
fn insert_lands_at_the_caret_not_the_end() {
    let (value, edit) = run("world", Edit { caret: 0, insert: true, ..Edit::default() }, &[key('h'), key('i')]);
    assert_eq!(value, "hiworld");
    assert_eq!(edit.caret, 2);
}

#[test]
fn esc_enters_normal_mode_then_exits() {
    let mut value = "x".to_string();
    let mut edit = Edit::at_end(&value);
    assert_eq!(press(&mut value, &mut edit, code(KeyCode::Esc), Keys::default()), Applied::Yes);
    assert!(!edit.insert);
    // Vim steps off the end when leaving insert mode.
    assert_eq!(edit.caret, 0);
    assert_eq!(press(&mut value, &mut edit, code(KeyCode::Esc), Keys::default()), Applied::Exit);
}

#[test]
fn normal_mode_letters_move_instead_of_typing() {
    let (value, edit) = run("abc", normal_at(0), &[key('l'), key('l')]);
    assert_eq!(value, "abc");
    assert_eq!(edit.caret, 2);
    // `l` stops on the last character rather than past it.
    let (_, edit) = run("abc", normal_at(2), &[key('l')]);
    assert_eq!(edit.caret, 2);
}

#[test]
fn h_and_l_stop_at_the_edges() {
    let (_, edit) = run("abc", normal_at(0), &[key('h')]);
    assert_eq!(edit.caret, 0);
}

#[test]
fn small_words_step_through_url_punctuation() {
    let url = "https://api.example.com/v1";
    // https → :// → api → . → example …
    let stops: Vec<usize> = std::iter::successors(Some(0), |c| {
        let next = word_forward(url, *c, Words::Small);
        if next == *c { None } else { Some(next) }
    })
    .collect();
    assert_eq!(&url[stops[1]..stops[1] + 3], "://");
    assert_eq!(&url[stops[2]..stops[2] + 3], "api");
}

#[test]
fn big_words_jump_the_whole_url() {
    let value = "GET https://x/y now";
    assert_eq!(word_forward(value, 0, Words::Big), 4);
    assert_eq!(word_forward(value, 4, Words::Big), 16);
}

#[test]
fn b_returns_to_the_start_of_the_previous_word() {
    let value = "one two three";
    assert_eq!(word_back(value, 8, Words::Small), 4);
    assert_eq!(word_back(value, 4, Words::Small), 0);
    assert_eq!(word_back(value, 0, Words::Small), 0);
}

#[test]
fn b_from_past_the_end_walks_back_from_the_last_char() {
    let value = "one two";
    assert_eq!(word_back(value, value.len(), Words::Small), 4);
}

#[test]
fn e_lands_on_the_last_char_of_the_next_word() {
    let value = "one two";
    assert_eq!(word_end(value, 0, Words::Small), 2);
    assert_eq!(word_end(value, 2, Words::Small), 6);
}

#[test]
fn word_motions_on_an_empty_value_stay_put() {
    assert_eq!(word_forward("", 0, Words::Small), 0);
    assert_eq!(word_back("", 0, Words::Small), 0);
    assert_eq!(word_end("", 0, Words::Small), 0);
}

#[test]
fn x_deletes_under_the_caret_and_never_past_the_end() {
    let (value, edit) = run("abc", normal_at(2), &[key('x'), key('x'), key('x'), key('x')]);
    assert_eq!(value, "");
    assert_eq!(edit.caret, 0);
}

#[test]
fn dollar_c_rewrites_the_tail() {
    let (value, edit) = run(
        "https://old/path",
        normal_at(0),
        &[key('$'), key('C'), key('X')],
    );
    assert_eq!(value, "https://old/patX");
    assert!(edit.insert);
}

#[test]
fn a_appends_after_the_caret() {
    let (value, _) = run("ab", normal_at(1), &[key('a'), key('!')]);
    assert_eq!(value, "ab!");
}

#[test]
fn backspace_deletes_before_the_caret_in_both_modes() {
    let (value, edit) = run("abc", Edit { caret: 2, insert: true, ..Edit::default() }, &[code(KeyCode::Backspace)]);
    assert_eq!(value, "ac");
    assert_eq!(edit.caret, 1);

    let (value, _) = run("abc", normal_at(2), &[code(KeyCode::Backspace)]);
    assert_eq!(value, "ac");
}

#[test]
fn multibyte_values_move_by_character() {
    let mut value = "aé…b".to_string();
    let mut edit = Edit::at_end(&value);
    for _ in 0..4 {
        press(&mut value, &mut edit, code(KeyCode::Left), Keys::default());
    }
    assert_eq!(edit.caret, 0);
    press(&mut value, &mut edit, code(KeyCode::Right), Keys::default());
    assert_eq!(edit.caret, 1);
    press(&mut value, &mut edit, code(KeyCode::Delete), Keys::default());
    assert_eq!(value, "a…b");
}

#[test]
fn a_stale_caret_is_clamped_rather_than_panicking() {
    let mut value = "hi".to_string();
    let mut edit = Edit { caret: 99, insert: true, ..Edit::default() };
    press(&mut value, &mut edit, key('!'), Keys::default());
    assert_eq!(value, "hi!");

    // Mid-character carets snap back to a boundary.
    let mut value = "é".to_string();
    let mut edit = Edit { caret: 1, insert: true, ..Edit::default() };
    press(&mut value, &mut edit, key('x'), Keys::default());
    assert_eq!(value, "xé");
}

#[test]
fn ctrl_keys_are_left_to_the_caller() {
    let mut value = String::new();
    let mut edit = Edit::default();
    let ctrl_h = KeyEvent::ctrl(KeyCode::Char('h'));
    assert_eq!(press(&mut value, &mut edit, ctrl_h, Keys::default()), Applied::No);
    assert_eq!(value, "");
}

#[test]
fn u_undoes_everything_typed_since_the_field_was_focused() {
    // A field opens in insert mode, so the first change is already underway
    // and the seeded snapshot is what `u` has to fall back on.
    let presses = [key('/'), key('v'), key('2'), code(KeyCode::Esc), key('u')];
    let (value, edit) = run("https://x", Edit::at_end("https://x"), &presses);
    assert_eq!(value, "https://x");
    assert!(!edit.insert);
}

#[test]
fn one_insert_session_is_one_undo_step_not_one_per_keystroke() {
    let mut value = "a".to_string();
    let mut edit = Edit::at_end(&value);
    for k in [key('b'), key('c'), key('d'), code(KeyCode::Esc)] {
        press(&mut value, &mut edit, k, Keys::default());
    }
    assert_eq!(value, "abcd");
    press(&mut value, &mut edit, key('u'), Keys::default());
    assert_eq!(value, "a", "one `u` should undo the whole session");
}

#[test]
fn successive_changes_undo_one_at_a_time_in_reverse() {
    let mut value = "one".to_string();
    let mut edit = Edit::at_end(&value);
    // Session 1: append " two". Session 2: append " three".
    for k in [key(' '), key('t'), key('w'), key('o'), code(KeyCode::Esc)] {
        press(&mut value, &mut edit, k, Keys::default());
    }
    for k in [key('A'), key('!'), code(KeyCode::Esc)] {
        press(&mut value, &mut edit, k, Keys::default());
    }
    assert_eq!(value, "one two!");

    press(&mut value, &mut edit, key('u'), Keys::default());
    assert_eq!(value, "one two");
    press(&mut value, &mut edit, key('u'), Keys::default());
    assert_eq!(value, "one");
}

#[test]
fn u_on_an_exhausted_history_leaves_the_field_alone() {
    let mut value = "abc".to_string();
    let mut edit = normal_at(0);
    for _ in 0..5 {
        press(&mut value, &mut edit, key('u'), Keys::default());
    }
    assert_eq!(value, "abc");
}

#[test]
fn normal_mode_edits_are_each_their_own_undo_step() {
    let mut value = "abcd".to_string();
    let mut edit = normal_at(0);
    press(&mut value, &mut edit, key('x'), Keys::default());
    press(&mut value, &mut edit, key('x'), Keys::default());
    assert_eq!(value, "cd");
    press(&mut value, &mut edit, key('u'), Keys::default());
    assert_eq!(value, "bcd");
    press(&mut value, &mut edit, key('u'), Keys::default());
    assert_eq!(value, "abcd");
}

#[test]
fn undo_restores_the_caret_with_the_text() {
    let mut value = "abc".to_string();
    let mut edit = normal_at(2);
    press(&mut value, &mut edit, key('D'), Keys::default());
    assert_eq!(value, "ab");
    press(&mut value, &mut edit, key('u'), Keys::default());
    assert_eq!(value, "abc");
    assert_eq!(edit.caret, 2);
}

#[test]
fn a_change_that_alters_nothing_does_not_add_an_undo_step() {
    // `i` then straight back out edits nothing; `u` should still reach the
    // change *before* it rather than appearing to do nothing.
    let mut value = "ab".to_string();
    let mut edit = Edit::at_end(&value);
    for k in [key('c'), code(KeyCode::Esc), key('i'), code(KeyCode::Esc)] {
        press(&mut value, &mut edit, k, Keys::default());
    }
    assert_eq!(value, "abc");
    press(&mut value, &mut edit, key('u'), Keys::default());
    assert_eq!(value, "ab");
}

#[test]
fn u_is_a_literal_character_in_insert_mode() {
    let (value, _) = run("", Edit::default(), &[key('u'), key('u')]);
    assert_eq!(value, "uu");
}

#[test]
fn the_history_is_capped_and_drops_its_oldest_entry() {
    let mut edit = Edit::default();
    for i in 0..MAX_UNDO + 10 {
        edit.snapshot(&format!("v{i}"));
    }
    assert_eq!(edit.history.len(), MAX_UNDO);
    assert_eq!(edit.history[0].value, format!("v{}", 10));
}

#[test]
fn the_configured_sequence_leaves_insert_mode_and_un_types_itself() {
    let (value, edit) = run_with("ab", Edit::at_end("ab"), &[key('j'), key('k')], jk());
    assert_eq!(value, "ab");
    assert!(!edit.insert);
    // Normal mode rests on a character, as after a plain Esc.
    assert_eq!(edit.caret, 1);
}

#[test]
fn the_sequence_does_nothing_when_it_is_not_configured() {
    let (value, edit) = run("ab", Edit::at_end("ab"), &[key('j'), key('k')]);
    assert_eq!(value, "abjk");
    assert!(edit.insert);
}

#[test]
fn the_first_key_alone_stays_in_the_field() {
    let (value, edit) = run_with("ab", Edit::at_end("ab"), &[key('j')], jk());
    assert_eq!(value, "abj");
    assert!(edit.insert);
}

#[test]
fn a_key_between_the_two_disarms_the_sequence() {
    // `j`, Left, `k` is someone editing, not someone reaching for Esc.
    let presses = [key('j'), code(KeyCode::Left), key('k')];
    let (value, edit) = run_with("ab", Edit::at_end("ab"), &presses, jk());
    assert_eq!(value, "abkj");
    assert!(edit.insert);
}

#[test]
fn only_the_configured_second_key_completes_it() {
    let (value, edit) = run_with("", Edit::default(), &[key('j'), key('x')], jk());
    assert_eq!(value, "jx");
    assert!(edit.insert);
}

#[test]
fn the_sequence_expires_after_the_timeout() {
    let mut value = "ab".to_string();
    let mut edit = Edit::at_end(&value);
    let mut register = String::new();
    apply(&mut value, &mut edit, key('j'), jk(), &mut register, 0);
    // A pause longer than the timeout: the `k` is a literal.
    apply(&mut value, &mut edit, key('k'), jk(), &mut register, SEQUENCE_TIMEOUT + 1);
    assert_eq!(value, "abjk");
    assert!(edit.insert);
}

#[test]
fn the_sequence_is_inert_in_normal_mode() {
    // `j` and `k` are motions there; neither should re-trigger an escape.
    let (value, edit) = run_with("abc", normal_at(0), &[key('j'), key('k')], jk());
    assert_eq!(value, "abc");
    assert!(!edit.insert);
}

#[test]
fn a_sequence_typed_mid_value_removes_only_its_own_first_key() {
    let start = Edit { caret: 1, insert: true, ..Edit::default() };
    let (value, edit) = run_with("ac", start, &[key('j'), key('k')], jk());
    assert_eq!(value, "ac");
    assert_eq!(edit.caret, 1);
}

#[test]
fn a_paste_between_the_two_keys_disarms_the_sequence() {
    let mut value = String::new();
    let mut edit = Edit::default();
    press(&mut value, &mut edit, key('j'), jk());
    insert_str(&mut value, &mut edit, "X");
    press(&mut value, &mut edit, key('k'), jk());
    assert_eq!(value, "jXk");
    assert!(edit.insert);
}

#[test]
fn paste_lands_at_the_caret() {
    let mut value = "ac".to_string();
    let mut edit = Edit { caret: 1, insert: true, ..Edit::default() };
    insert_str(&mut value, &mut edit, "b");
    assert_eq!(value, "abc");
    assert_eq!(edit.caret, 2);
}

/// `j`/`k` in normal mode leave the field alone and hand the walk to the
/// pane; nothing about the value or the caret may move on the way out.
#[test]
fn normal_mode_j_and_k_report_a_row_walk() {
    for (walk, expected) in [('j', Applied::FocusNext), ('k', Applied::FocusPrev)] {
        let mut value = "https://x".to_string();
        let mut edit = normal_at(4);
        assert_eq!(press(&mut value, &mut edit, key(walk), Keys::default()), expected);
        assert_eq!(value, "https://x");
        assert_eq!(edit.caret, 4);
        assert!(!edit.insert);
    }
}

/// The same two keys in insert mode are text — which is what `insert_escape`
/// exists to get you out of, and the only reason the walk is reachable.
#[test]
fn insert_mode_j_and_k_are_still_characters() {
    let (value, edit) = run("", Edit::default(), &[key('j'), key('k')]);
    assert_eq!(value, "jk");
    assert!(edit.insert);
}

/// A field taken by a walk that began in normal mode stays in normal mode,
/// with the caret resting on the last character rather than past it.
#[test]
fn landing_carries_the_mode_it_is_given() {
    let insert = Edit::landing("abc", true);
    assert_eq!(insert.caret, 3);
    assert!(insert.insert);

    let resting = Edit::landing("abc", false);
    assert_eq!(resting.caret, 2);
    assert!(!resting.insert);

    // Nothing to rest on, and no caret to pull back off the end.
    assert_eq!(Edit::landing("", false).caret, 0);
}

// ─── Multi-line fields (the request body) ─────────────────────────────────

fn run_multiline(value: &str, edit: Edit, presses: &[KeyEvent]) -> (String, Edit) {
    let mut value = value.to_string();
    let mut edit = edit;
    for k in presses {
        press_multiline(&mut value, &mut edit, *k, Keys::default());
    }
    (value, edit)
}

/// The pane's whole reason for `apply_multiline`: Enter is a character, not
/// a command, so a body pasted as keystrokes keeps its lines.
#[test]
fn enter_types_a_newline_in_a_multiline_field() {
    let (value, edit) = run_multiline(
        "",
        Edit::default(),
        &[key('{'), code(KeyCode::Enter), key('}')],
    );
    assert_eq!(value, "{\n}");
    assert_eq!(edit.caret, 3);
}

/// `j` and `k` are a line motion while there is a line to reach, and the
/// form's row walk only at the edges — otherwise `j` in a twenty-line body
/// would leave the field on the first press.
#[test]
fn j_and_k_move_by_line_before_they_walk_rows() {
    let body = "one\ntwo\nthree";
    let mut value = body.to_string();
    let mut edit = normal_at(1);

    assert_eq!(press_multiline(&mut value, &mut edit, key('j'), Keys::default()), Applied::Yes);
    assert_eq!(edit.caret, 5);
    assert_eq!(press_multiline(&mut value, &mut edit, key('j'), Keys::default()), Applied::Yes);
    assert_eq!(edit.caret, 9);
    // Off the bottom: now it is the pane's business.
    assert_eq!(press_multiline(&mut value, &mut edit, key('j'), Keys::default()), Applied::FocusNext);

    let mut edit = normal_at(1);
    assert_eq!(press_multiline(&mut value, &mut edit, key('k'), Keys::default()), Applied::FocusPrev);
    assert_eq!(value, body);
}

/// A shorter line under the cursor takes its end, as vim does.
#[test]
fn a_vertical_move_clamps_to_a_shorter_line() {
    let (_, edit) = run_multiline("longer\nab\nlonger", normal_at(4), &[key('j')]);
    // "ab" is two characters; normal mode rests on the last of them.
    assert_eq!(edit.caret, 8);
}

/// `0`, `^` and `$` are about a line, so in a body they are about *the*
/// line — and in every single-line field they are unchanged.
#[test]
fn line_motions_stay_on_their_line() {
    let body = "  first\nsecond";
    let (_, edit) = run_multiline(body, normal_at(10), &[key('0')]);
    assert_eq!(edit.caret, 8);
    let (_, edit) = run_multiline(body, normal_at(4), &[key('$')]);
    assert_eq!(edit.caret, 6);
    let (_, edit) = run_multiline(body, normal_at(4), &[key('^')]);
    assert_eq!(edit.caret, 2);

    // The single-line case: one line running the whole value.
    let (_, edit) = run("  abc", normal_at(4), &[key('^')]);
    assert_eq!(edit.caret, 2);
    let (_, edit) = run("  abc", normal_at(0), &[key('$')]);
    assert_eq!(edit.caret, 4);
}

/// `D` and `S` clear a line, not the rest of the body. Getting this wrong
/// is not cosmetic: `D` on line one of a JSON body would delete the body.
#[test]
fn d_and_s_stop_at_the_end_of_the_line() {
    let (value, _) = run_multiline("one\ntwo\nthree", normal_at(5), &[key('D')]);
    assert_eq!(value, "one\nt\nthree");

    let (value, edit) = run_multiline("one\ntwo\nthree", normal_at(5), &[key('S')]);
    assert_eq!(value, "one\n\nthree");
    assert_eq!(edit.caret, 4);
    assert!(edit.insert);
}

/// Normal mode rests *on* a character, and a newline is not one to sit on.
#[test]
fn the_caret_never_rests_on_a_newline() {
    let (_, edit) = run_multiline("ab\ncd", normal_at(0), &[key('l'), key('l')]);
    assert_eq!(edit.caret, 1);

    // Leaving insert mode at the end of a line steps back the same way.
    let (_, edit) = run_multiline("ab\ncd", Edit { caret: 2, insert: true, ..Edit::default() }, &[code(KeyCode::Esc)]);
    assert_eq!(edit.caret, 1);
}

/// An empty line is a place the caret can be, so `Enter` at the end of a
/// body has somewhere to land.
#[test]
fn the_caret_can_sit_on_an_empty_line() {
    let (value, edit) = run_multiline("a", Edit::at_end("a"), &[code(KeyCode::Enter)]);
    assert_eq!(value, "a\n");
    assert_eq!(edit.caret, 2);
}

/// Undo treats a whole typed body as one change, exactly as it does a URL.
#[test]
fn undo_walks_back_a_multiline_insert_session() {
    let (value, edit) = run_multiline(
        "",
        Edit::default(),
        &[key('a'), code(KeyCode::Enter), key('b'), code(KeyCode::Esc), key('u')],
    );
    assert_eq!(value, "");
    assert_eq!(edit.caret, 0);
}

// ─── Line motions ─────────────────────────────────────────────────────────

/// `_` is the one the issue asked for by name, and it has to agree with
/// `^` — both are vim's "first non-blank of this line".
#[test]
fn underscore_and_caret_are_the_same_motion() {
    for motion in ["_", "^"] {
        let (_, edit, _) = keys_at("   https://x", 8, motion);
        assert_eq!(edit.caret, 3, "{motion}");
    }
}

#[test]
fn dollar_lands_on_the_last_character_and_zero_on_the_first() {
    let (_, edit, _) = keys_at("abcdef", 2, "$");
    assert_eq!(edit.caret, 5);
    let (_, edit, _) = keys_at("abcdef", 2, "0");
    assert_eq!(edit.caret, 0);
}

/// `gg` and `G` are the first and last lines' first non-blank. In a
/// single-line field that is the same place, exactly as in vim.
#[test]
fn gg_and_g_walk_to_the_first_and_last_lines() {
    let mut value = "  one\n  two\n  three".to_string();
    let mut edit = normal_at(8);
    let mut register = String::new();
    for c in "gg".chars() {
        apply(&mut value, &mut edit, key(c), Keys::default(), &mut register, 0);
    }
    assert_eq!(edit.caret, 2);
    apply(&mut value, &mut edit, key('G'), Keys::default(), &mut register, 0);
    assert_eq!(edit.caret, 14);
}

/// `h` at the start of a line and `l` at its end stay put rather than
/// stepping onto the newline, which is not a position normal mode has.
#[test]
fn h_and_l_do_not_cross_a_line_break() {
    let (_, edit, _) = keys_at("ab\ncd", 3, "h");
    assert_eq!(edit.caret, 3);
    let (_, edit, _) = keys_at("ab\ncd", 1, "l");
    assert_eq!(edit.caret, 1);
}

// ─── Character search ─────────────────────────────────────────────────────

#[test]
fn f_and_t_search_forward_and_stop_differently() {
    let (_, edit, _) = keys_at("Bearer abc.def", 0, "f.");
    assert_eq!(edit.caret, 10);
    let (_, edit, _) = keys_at("Bearer abc.def", 0, "t.");
    assert_eq!(edit.caret, 9);
}

#[test]
fn capital_f_searches_backwards() {
    let (_, edit, _) = keys_at("a.b.c", 4, "F.");
    assert_eq!(edit.caret, 3);
    let (_, edit, _) = keys_at("a.b.c", 4, "T.");
    assert_eq!(edit.caret, 4);
}

/// A character that is not on the line leaves the caret alone — and an
/// operator waiting on that search does nothing at all.
#[test]
fn a_search_that_finds_nothing_changes_nothing() {
    let (value, edit, _) = keys_at("abc", 0, "fz");
    assert_eq!((value.as_str(), edit.caret), ("abc", 0));
    let (value, edit, _) = keys_at("abc", 0, "dfz");
    assert_eq!((value.as_str(), edit.caret), ("abc", 0));
}

/// The search never leaves the caret's line, so `f` cannot jump into the
/// body's next line the way a whole-value search would.
#[test]
fn a_search_stays_on_the_caret_s_line() {
    let (_, edit, _) = keys_at("abc\nx.y", 0, "f.");
    assert_eq!(edit.caret, 0);
}

#[test]
fn semicolon_repeats_a_search_and_comma_reverses_it() {
    let (_, edit, _) = keys_at("a.b.c.d", 0, "f;");
    // `f` then `;` — the `;` is the character being searched for here, so
    // this is a search for a semicolon that finds nothing.
    assert_eq!(edit.caret, 0);

    let (_, edit, _) = keys_at("a.b.c.d", 0, "f.;");
    assert_eq!(edit.caret, 3);
    let (_, edit, _) = keys_at("a.b.c.d", 0, "f.;;,");
    assert_eq!(edit.caret, 3);
}

// ─── Operators ────────────────────────────────────────────────────────────

#[test]
fn dw_deletes_a_word_and_the_space_after_it() {
    let (value, edit, register) = keys_at("one two three", 0, "dw");
    assert_eq!(value, "two three");
    assert_eq!(edit.caret, 0);
    assert_eq!(register, "one ");
}

/// Vim's one irregular pair: `cw` on a non-blank behaves like `ce`, so the
/// space after the word survives.
#[test]
fn cw_changes_the_word_but_not_the_space_after_it() {
    let (value, edit, _) = keys_at("one two", 0, "cw");
    assert_eq!(value, " two");
    assert!(edit.insert);
    assert_eq!(edit.caret, 0);
}

#[test]
fn db_deletes_back_to_the_start_of_the_word() {
    let (value, edit, _) = keys_at("one two three", 8, "db");
    assert_eq!(value, "one three");
    assert_eq!(edit.caret, 4);
}

#[test]
fn d_dollar_takes_the_rest_of_the_line_and_d0_the_start_of_it() {
    let (value, _, register) = keys_at("abcdef", 3, "d$");
    assert_eq!(value, "abc");
    assert_eq!(register, "def");
    let (value, edit, _) = keys_at("abcdef", 3, "d0");
    assert_eq!(value, "def");
    assert_eq!(edit.caret, 0);
}

/// `de` is inclusive of the character it lands on, which is what makes it
/// different from `dw` at the end of a line.
#[test]
fn de_includes_the_last_character_of_the_word() {
    let (value, _, _) = keys_at("one two", 0, "de");
    assert_eq!(value, " two");
}

#[test]
fn df_deletes_up_to_and_including_its_target() {
    let (value, _, _) = keys_at("key=value;rest", 0, "df;");
    assert_eq!(value, "rest");
    let (value, _, _) = keys_at("key=value;rest", 0, "dt;");
    assert_eq!(value, ";rest");
}

/// The doubled operators take the line's text and leave the newline, so a
/// `dd` in the body does not join the line below onto the one above.
#[test]
fn dd_empties_the_line_without_removing_it() {
    let (value, edit, register) = keys_at("one\ntwo\nthree", 5, "dd");
    assert_eq!(value, "one\n\nthree");
    assert_eq!(edit.caret, 4);
    assert_eq!(register, "two");
}

#[test]
fn cc_empties_the_line_and_opens_insert_mode() {
    let (value, edit, _) = keys_at("one\ntwo", 5, "cc");
    assert_eq!(value, "one\n");
    assert!(edit.insert);
    assert_eq!(edit.caret, 4);
}

/// A yank never changes the text, and leaves the caret at the start of what
/// it took.
#[test]
fn yank_fills_the_register_and_leaves_the_value_alone() {
    let (value, edit, register) = keys_at("one two", 4, "yy");
    assert_eq!(value, "one two");
    assert_eq!(register, "one two");
    assert_eq!(edit.caret, 0);

    let (value, _, register) = keys_at("one two", 4, "yw");
    assert_eq!(value, "one two");
    assert_eq!(register, "two");
}

#[test]
fn capital_y_yanks_the_line_without_moving_the_caret() {
    let (value, edit, register) = keys_at("one\ntwo", 5, "Y");
    assert_eq!(value, "one\ntwo");
    assert_eq!(register, "two");
    assert_eq!(edit.caret, 5);
}

/// A key that is not a motion cancels the operator rather than being read
/// as a fresh command — a mistyped `dq` must not delete on the next key.
#[test]
fn an_operator_waiting_on_a_motion_is_cancelled_by_anything_else() {
    let (value, edit, _) = keys_at("one two", 0, "dq");
    assert_eq!(value, "one two");
    assert_eq!(edit.caret, 0);
    // The `w` that follows is a plain motion, not the tail of the `d`.
    let (value, edit, _) = keys_at("one two", 0, "dqw");
    assert_eq!(value, "one two");
    assert_eq!(edit.caret, 4);
}

/// Anything that does not reach the normal-mode table drops the operator,
/// which is what `apply` taking `pending_cmd` on the way in buys.
#[test]
fn an_arrow_key_cancels_a_waiting_operator() {
    let mut value = "one two".to_string();
    let mut edit = normal_at(0);
    let mut register = String::new();
    for k in [key('d'), code(KeyCode::Right), key('w')] {
        apply(&mut value, &mut edit, k, Keys::default(), &mut register, 0);
    }
    assert_eq!(value, "one two");
}

#[test]
fn an_operator_is_one_undo_step() {
    let (value, _, _) = keys_at("one two three", 0, "dwu");
    assert_eq!(value, "one two three");
}

// ─── Register, replace, case ──────────────────────────────────────────────

/// The register is charwise, so `p` puts after the character under the
/// caret and leaves the caret on the last character put.
#[test]
fn p_puts_after_the_caret_and_capital_p_before_it() {
    let (value, edit, _) = keys_at("ab", 0, "ylp");
    assert_eq!(value, "aab");
    assert_eq!(edit.caret, 1);
    let (value, edit, _) = keys_at("ab", 0, "ylP");
    assert_eq!(value, "aab");
    assert_eq!(edit.caret, 0);
}

#[test]
fn p_with_an_empty_register_does_nothing() {
    let (value, edit, _) = keys_at("ab", 0, "p");
    assert_eq!(value, "ab");
    assert_eq!(edit.caret, 0);
}

/// The register outlives the field: `apply` takes it by reference, so the
/// caller can hand the same one to the next field's edit.
#[test]
fn the_register_carries_between_two_fields() {
    let mut register = String::new();
    let mut from = "secret".to_string();
    let mut edit = normal_at(0);
    for c in "y$".chars() {
        apply(&mut from, &mut edit, key(c), Keys::default(), &mut register, 0);
    }
    let mut to = "x".to_string();
    let mut edit = normal_at(0);
    apply(&mut to, &mut edit, key('p'), Keys::default(), &mut register, 0);
    assert_eq!(from, "secret");
    assert_eq!(to, "xsecret");
}

#[test]
fn x_and_d_fill_the_register_too() {
    let (_, _, register) = keys_at("abc", 0, "x");
    assert_eq!(register, "a");
    let (_, _, register) = keys_at("abc", 0, "D");
    assert_eq!(register, "abc");
}

#[test]
fn r_writes_one_character_without_leaving_normal_mode() {
    let (value, edit, _) = keys_at("cat", 0, "rb");
    assert_eq!(value, "bat");
    assert_eq!(edit.caret, 0);
    assert!(!edit.insert);
}

/// `r` must not write over the newline ending a line — joining two lines is
/// not what `r` means.
#[test]
fn r_on_an_empty_line_writes_nothing() {
    let (value, _, _) = keys_at("a\n\nb", 2, "rx");
    assert_eq!(value, "a\n\nb");
}

#[test]
fn tilde_swaps_the_case_under_the_caret_and_steps_on() {
    let (value, edit, _) = keys_at("abc", 0, "~~");
    assert_eq!(value, "ABc");
    assert_eq!(edit.caret, 2);
}

#[test]
fn r_and_tilde_are_each_one_undo_step() {
    let (value, _, _) = keys_at("cat", 0, "rbu");
    assert_eq!(value, "cat");
    let (value, _, _) = keys_at("cat", 0, "~u");
    assert_eq!(value, "cat");
}

/// None of these are commands in insert mode: they are letters someone is
/// typing into a URL.
#[test]
fn the_new_commands_are_plain_characters_in_insert_mode() {
    let (value, _) = run("", Edit::default(), &"dcyrgfp~".chars().map(key).collect::<Vec<_>>());
    assert_eq!(value, "dcyrgfp~");
}

/// `j` in a body still moves by line rather than completing an operator —
/// `apply_multiline` owns that key, so it drops the operator instead.
#[test]
fn a_body_line_walk_cancels_a_waiting_operator() {
    let mut value = "one\ntwo".to_string();
    let mut edit = normal_at(0);
    let mut register = String::new();
    for k in [key('d'), key('j')] {
        apply_multiline(&mut value, &mut edit, k, Keys::default(), &mut register, 0);
    }
    assert_eq!(value, "one\ntwo");
    assert_eq!(edit.caret, 4);
}

/// The sequence still counts at the very end of its time.
#[test]
fn the_sequence_is_in_time_up_to_its_timeout() {
    let mut value = "ab".to_string();
    let mut edit = Edit::at_end(&value);
    let mut register = String::new();
    apply(&mut value, &mut edit, key('j'), jk(), &mut register, 500);
    apply(&mut value, &mut edit, key('k'), jk(), &mut register, 500 + SEQUENCE_TIMEOUT);
    assert_eq!(value, "ab");
    assert!(!edit.insert);
}

/// Characters whose case changes their length are measured, not assumed.
#[test]
fn tilde_measures_what_it_writes() {
    let (value, edit, _) = keys_at("ßx", 0, "~");
    assert_eq!(value, "SSx");
    assert_eq!(edit.caret, 2);
    let (value, edit, _) = keys_at("Éa", 0, "~");
    assert_eq!(value, "éa");
    assert_eq!(edit.caret, 2);
}

/// Left in normal mode steps back over a line break; every other key keeps the
/// caret on a character.
#[test]
fn left_steps_back_over_a_line_break() {
    // The caret rests on a character: the line break is not one.
    let (_, edit) = run("ab\ncd", normal_at(3), &[code(KeyCode::Left)]);
    assert_eq!(edit.caret, 1);
    let (_, edit) = run("ab\ncd", normal_at(3), &[key('h')]);
    assert_eq!(edit.caret, 3);
}

/// A word is what Unicode calls letters and digits.
#[test]
fn words_are_unicode_words() {
    assert_eq!(word_forward("naïve café", 0, Words::Small), "naïve ".len());
    assert_eq!(word_forward("日本 x", 0, Words::Small), "日本 ".len());
}

/// `cw` on a word of one letter stops at the end of that word.
#[test]
fn cw_changes_a_word_of_one_letter_alone() {
    let (value, edit, register) = keys_at("a b", 0, "cw");
    assert_eq!((value.as_str(), register.as_str()), (" b", "a"));
    assert!(edit.insert);
}

/// A chord in the middle of a command drops the command.
#[test]
fn a_chord_cancels_a_waiting_command() {
    for chord in [KeyEvent::ctrl(KeyCode::Char('x')), KeyEvent { code: KeyCode::Char('x'), control: false, alt: true }] {
        let (value, edit) = run("one two", normal_at(0), &[key('d'), chord, key('w')]);
        assert_eq!((value.as_str(), edit.caret), ("one two", 4));
    }
}

/// `u` in normal mode undoes and stays there.
#[test]
fn u_stays_in_normal_mode() {
    let mut value = "abc".to_string();
    let mut edit = normal_at(0);
    press(&mut value, &mut edit, key('x'), Keys::default());
    assert_eq!(value, "bc");
    assert_eq!(press(&mut value, &mut edit, key('u'), Keys::default()), Applied::Yes);
    assert_eq!(value, "abc");
    assert!(!edit.insert);
}

/// Whatever is pressed, the caret stays between characters.
#[test]
fn the_caret_stays_between_characters() {
    let mut value = "é日 x".to_string();
    let mut edit = normal_at(0);
    for c in "lhwbeaé".chars() {
        press(&mut value, &mut edit, key(c), Keys::default());
        assert!(value.is_char_boundary(edit.caret), "{c}");
    }
}

/// Each normal-mode edit is taken back by one `u`.
#[test]
fn a_normal_letter_is_one_undo_step() {
    for c in ['x', 'D', 'p', 'P', '~'] {
        let mut value = "one two".to_string();
        let mut edit = normal_at(2);
        let mut register = "zz".to_string();
        assert_eq!(normal(&mut value, &mut edit, c, None, &mut register), Applied::Yes);
        assert_ne!(value, "one two", "{c}");
        assert_eq!(normal(&mut value, &mut edit, 'u', None, &mut register), Applied::Yes);
        assert_eq!(value, "one two", "{c}");
        assert!(!edit.insert);
    }
    let mut value = "one two".to_string();
    let mut edit = normal_at(0);
    let mut register = String::new();
    assert_eq!(normal(&mut value, &mut edit, 'w', Some(Pending::Operator(Op::Delete)), &mut register), Applied::Yes);
    assert_eq!((value.as_str(), register.as_str()), ("two", "one "));
}
