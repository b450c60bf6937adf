//! What holds of editing whatever is edited.
use vstd::prelude::*;

use crate::caret::{
    char_before, find_motion, first_non_blank, last_line_start, lemma_line_start, line_down, line_end,
    line_start, line_up, next_place, non_white_from, op_span, prev_place, rested, simple_motion, snap,
};
use crate::config::Keys;
use crate::edit::{
    at_rest, completed, cut, escapes, field_of, in_text, moved, normal_applied, normal_command, normal_key,
    operated, operated_to, operator_key, operator_motion, pressed, pressed_multiline, recorded, remembered,
    repeat_motion, spliced, typed, Applied, EditView, Field, Op, Pending, Step, MAX_UNDO, SEQUENCE_TIMEOUT,
};
use crate::keys::{KeyCode, KeyEvent};
use crate::text::lemma_char_from;

verus! {

/// A letter by itself.
pub open spec fn letter(c: char) -> KeyEvent {
    KeyEvent { code: KeyCode::Char(c), control: false, alt: false }
}

// ─── Undo ─────────────────────────────────────────────────────────────────────

/// The newest step of the history restores `text`.
pub open spec fn undoes_to(f: Field, text: Seq<char>) -> bool {
    f.history.len() > 0 && f.history.last().text == text
}

/// One `u` takes back one normal-mode command: whatever command changed the text,
/// `u` restores the text from before it.
pub proof fn law_u_takes_back_one_command(f: Field, c: char, keys: Keys, now: u64)
    requires
        in_text(f),
        !f.insert,
        f.cmd is Some || c != 'u',
        pressed(f, letter(c), keys, now).0.text != f.text,
    ensures
        undoes_to(pressed(f, letter(c), keys, now).0, f.text),
        normal_command(pressed(f, letter(c), keys, now).0, 'u').text == f.text,
{
    let g = Field { pending: None, cmd: None, ..f };
    match f.cmd {
        Some(pending) => {
            assert(undoes_to(completed(g, c, pending), f.text)) by {
                match pending {
                    Pending::Operator(op) => {
                        lemma_operator_key_recorded(g, c, op);
                    },
                    Pending::OperatorFind(op, kind) => {
                        let h = Field { last_find: Some((kind, c)), ..g };
                        lemma_operated_to_recorded(h, op, find_motion(g.text, g.at, kind, c));
                    },
                    _ => {},
                }
            }
        },
        None => {},
    }
}

/// Each normal-mode edit is one undo step: whatever letter changed the value, `u` right
/// behind it gives the value back and is taken by the field. It stays in the mode that
/// the letter left, which is normal mode behind `x`, `D`, `p`, `P` and `~`.
pub proof fn law_a_normal_edit_is_one_undo_step(
    value: Seq<char>,
    edit: EditView,
    register: Seq<char>,
    c: char,
    pending_cmd: Option<Pending>,
)
    requires
        !edit.insert,
        pending_cmd is Some || c != 'u',
        normal_applied(value, edit, register, c, pending_cmd).0 != value,
    ensures
        ({
            let (text, after, held, _) = normal_applied(value, edit, register, c, pending_cmd);
            let (back, last, _, r) = normal_applied(text, after, held, 'u', None);
            &&& back == value
            &&& last.insert == after.insert
            &&& r == Applied::Yes
            &&& pending_cmd is None && (c == 'x' || c == 'D' || c == 'p' || c == 'P' || c == '~')
                ==> !last.insert
        }),
{
    let f = field_of(value, edit, register);
    match pending_cmd {
        Some(pending) => {
            assert(undoes_to(completed(f, c, pending), f.text)) by {
                match pending {
                    Pending::Operator(op) => {
                        lemma_operator_key_recorded(f, c, op);
                    },
                    Pending::OperatorFind(op, kind) => {
                        let h = Field { last_find: Some((kind, c)), ..f };
                        lemma_operated_to_recorded(h, op, find_motion(f.text, f.at, kind, c));
                    },
                    _ => {},
                }
            }
        },
        None => {
            assert(undoes_to(normal_key(f, c).0, f.text));
        },
    }
}

proof fn lemma_operated_recorded(f: Field, op: Op, from: int, to: int)
    requires
        !f.insert,
    ensures
        operated(f, op, from, to).text != f.text ==> undoes_to(
            operated(f, op, from, to),
            f.text,
        ),
{
}

proof fn lemma_operated_to_recorded(f: Field, op: Op, motion: Option<(int, bool)>)
    requires
        !f.insert,
    ensures
        operated_to(f, op, motion).text != f.text ==> undoes_to(
            operated_to(f, op, motion),
            f.text,
        ),
{
    match motion {
        None => {},
        Some((target, inclusive)) => {
            let (from, to) = op_span(f.text, f.at, target, inclusive);
            lemma_operated_recorded(f, op, from, to);
        },
    }
}

proof fn lemma_operator_key_recorded(f: Field, c: char, op: Op)
    requires
        !f.insert,
        operator_key(f, c, op).text != f.text,
    ensures
        undoes_to(operator_key(f, c, op), f.text),
{
    if c == op.key() {
        let start = line_start(f.text, f.at);
        lemma_operated_recorded(Field { at: start, ..f }, op, start, line_end(f.text, f.at));
    } else if c == 'f' || c == 'F' || c == 't' || c == 'T' {
    } else if c == ';' || c == ',' {
        lemma_operated_to_recorded(f, op, repeat_motion(f, c));
    } else {
        lemma_operated_to_recorded(f, op, operator_motion(f, c, op));
    }
}

/// Texts typed one after another.
pub open spec fn typed_all(f: Field, texts: Seq<Seq<char>>) -> Field
    decreases texts.len(),
{
    if texts.len() == 0 {
        f
    } else {
        typed(typed_all(f, texts.drop_last()), texts.last())
    }
}

/// Everything typed in one insert session is one undo step: however much was
/// typed, leaving insert mode and pressing `u` restores the text from before it.
pub proof fn law_a_session_is_one_undo_step(
    f: Field,
    texts: Seq<Seq<char>>,
    keys: Keys,
    now: u64,
)
    requires
        in_text(f),
        f.insert,
        !f.saved,
        texts.len() > 0,
    ensures
        ({
            let esc = KeyEvent { code: KeyCode::Esc, control: false, alt: false };
            let g = pressed(typed_all(f, texts), esc, keys, now).0;
            &&& !g.insert
            &&& pressed(g, letter('u'), keys, now).0.text == f.text
            &&& g.history.len() <= f.history.len() + 1
        }),
{
    lemma_typed_all(f, texts);
}

proof fn lemma_typed_all(f: Field, texts: Seq<Seq<char>>)
    requires
        f.insert,
        !f.saved,
        texts.len() > 0,
    ensures
        undoes_to(typed_all(f, texts), f.text),
        typed_all(f, texts).insert,
        typed_all(f, texts).saved,
        typed_all(f, texts).history == remembered(
            f.history,
            Step { text: f.text, caret: crate::caret::offset(f.text, f.at) },
        ),
    decreases texts.len(),
{
    if texts.len() == 1 {
        assert(typed_all(f, texts.drop_last()) == f);
    } else {
        lemma_typed_all(f, texts.drop_last());
    }
}

/// The history never holds more steps than it may.
pub proof fn law_history_is_capped(f: Field, key: KeyEvent, keys: Keys, now: u64)
    requires
        f.history.len() <= MAX_UNDO,
    ensures
        pressed(f, key, keys, now).0.history.len() <= MAX_UNDO,
        pressed_multiline(f, key, keys, now).0.history.len() <= MAX_UNDO,
{
    let g = Field { pending: None, cmd: None, ..f };
    match (key.code, f.cmd) {
        (KeyCode::Char(c), Some(pending)) => {
            assert(completed(g, c, pending).history.len() <= MAX_UNDO) by {
                match pending {
                    Pending::Operator(op) => {
                        lemma_operator_key_history(g, c, op);
                    },
                    Pending::OperatorFind(op, kind) => {
                        let h = Field { last_find: Some((kind, c)), ..g };
                        lemma_operated_to_history(h, op, find_motion(g.text, g.at, kind, c));
                    },
                    _ => {},
                }
            }
        },
        _ => {},
    }
}

proof fn lemma_operated_to_history(f: Field, op: Op, motion: Option<(int, bool)>)
    requires
        f.history.len() <= MAX_UNDO,
    ensures
        operated_to(f, op, motion).history.len() <= MAX_UNDO,
{
}

proof fn lemma_operator_key_history(f: Field, c: char, op: Op)
    requires
        f.history.len() <= MAX_UNDO,
    ensures
        operator_key(f, c, op).history.len() <= MAX_UNDO,
{
    lemma_operated_to_history(f, op, repeat_motion(f, c));
    lemma_operated_to_history(f, op, operator_motion(f, c, op));
}

// ─── The escape sequence ──────────────────────────────────────────────────────

/// The escape sequence typed in time leaves insert mode and leaves the text as it
/// was; typed too late, its two characters are text.
pub proof fn law_the_sequence_untypes_itself(
    f: Field,
    keys: Keys,
    first: char,
    second: char,
    t1: u64,
    t2: u64,
)
    requires
        in_text(f),
        f.insert,
        keys.insert_escape == Some((first, second)),
        !escapes(f, keys, first, t1),
    ensures
        ({
            let g = pressed(f, letter(first), keys, t1).0;
            let h = pressed(g, letter(second), keys, t2).0;
            if t2 - t1 <= SEQUENCE_TIMEOUT {
                h.text == f.text && !h.insert
            } else {
                h.insert && h.text == f.text.take(f.at) + seq![first, second] + f.text.skip(f.at)
            }
        }),
{
    let g = pressed(f, letter(first), keys, t1).0;
    let h = pressed(g, letter(second), keys, t2).0;
    assert(g.text == f.text.take(f.at) + seq![first] + f.text.skip(f.at));
    assert(g.at == f.at + 1);
    assert(g.text[g.at - 1] == first);
    if t2 - t1 <= SEQUENCE_TIMEOUT {
        assert(escapes(g, keys, second, t2));
        assert(spliced(g.text, g.at - 1, g.at, Seq::empty()) =~= f.text);
    } else {
        assert(!escapes(g, keys, second, t2));
        assert(h.text =~= f.text.take(f.at) + seq![first, second] + f.text.skip(f.at));
    }
}

/// `u` stays in normal mode and is taken by the field: it restores the newest step of
/// the history, or changes nothing where there is none.
pub proof fn law_u_stays_in_normal_mode(f: Field, keys: Keys, now: u64)
    requires
        in_text(f),
        !f.insert,
        f.cmd is None,
    ensures
        ({
            let (g, r) = pressed(f, letter('u'), keys, now);
            &&& r == Applied::Yes
            &&& !g.insert
            &&& g.cmd is None
            &&& in_text(g)
            &&& if f.history.len() > 0 {
                g.text == f.history.last().text && g.history == f.history.drop_last()
            } else {
                g.text == f.text && g.at == f.at
            }
        }),
{
    if f.history.len() > 0 {
        let step = f.history.last();
        crate::caret::lemma_snap(step.text, step.caret);
        lemma_rested_rests(step.text, snap(step.text, step.caret));
    }
}

// ─── What changes text and what does not ──────────────────────────────────────

/// A yank takes text into the register and leaves the field's text alone.
pub proof fn law_a_yank_changes_no_text(f: Field, c: char, keys: Keys, now: u64)
    requires
        !f.insert,
        f.cmd == Some(Pending::Operator(Op::Yank)),
    ensures
        pressed(f, letter(c), keys, now).0.text == f.text,
        pressed(f, letter(c), keys, now).0.history == f.history,
{
}

/// A key with Control or Alt held is left to the pane: nothing of the field moves,
/// and what was half typed is dropped.
pub proof fn law_chords_are_left_to_the_pane(f: Field, key: KeyEvent, keys: Keys, now: u64)
    requires
        key.control || key.alt,
    ensures
        pressed(f, key, keys, now) == (Field { pending: None, cmd: None, ..f }, Applied::No),
        pressed_multiline(f, key, keys, now) == pressed(f, key, keys, now),
{
}

// ─── Where the caret rests ────────────────────────────────────────────────────

/// A normal-mode caret is on a character of its line, or on a line without any.
pub open spec fn resting(f: Field) -> bool {
    f.insert || rested(f.text, f.at, false) == f.at
}

proof fn lemma_rested_rests(s: Seq<char>, i: int)
    requires
        0 <= i <= s.len(),
    ensures
        rested(s, rested(s, i, false), false) == rested(s, i, false),
        0 <= rested(s, i, false) <= s.len(),
{
    lemma_line_start(s, i);
    if (i >= s.len() || s[i] == '\n') && i > line_start(s, i) {
        assert(s[i - 1] != '\n');
    }
}

proof fn lemma_at_rest(f: Field)
    requires
        in_text(f),
    ensures
        resting(at_rest(f)),
        in_text(at_rest(f)),
{
    lemma_rested_rests(f.text, f.at);
}

proof fn lemma_first_non_blank(s: Seq<char>, i: int)
    requires
        0 <= i <= s.len(),
    ensures
        0 <= first_non_blank(s, i) <= s.len(),
{
    lemma_line_start(s, i);
    lemma_char_from(s, '\n', i);
    lemma_non_white(s, line_start(s, i), line_end(s, i));
}

proof fn lemma_non_white(s: Seq<char>, i: int, end: int)
    requires
        0 <= i,
    ensures
        i <= end ==> i <= non_white_from(s, i, end) <= end,
    decreases end - i,
{
    if i < end && crate::text::white(s[i]) {
        lemma_non_white(s, i + 1, end);
    }
}

proof fn lemma_run_end(s: Seq<char>, i: int, words: crate::caret::Words, run: crate::caret::Class)
    ensures
        0 <= i <= s.len() ==> i <= crate::caret::run_end(s, i, words, run) <= s.len(),
    decreases s.len() - i,
{
    if i < s.len() {
        lemma_run_end(s, i + 1, words, run);
    }
}

proof fn lemma_run_start(s: Seq<char>, i: int, words: crate::caret::Words, run: crate::caret::Class)
    ensures
        0 <= i <= s.len() ==> 0 <= crate::caret::run_start(s, i, words, run) <= i,
    decreases i,
{
    if i > 0 {
        lemma_run_start(s, i - 1, words, run);
    }
}

/// A motion stays within the text.
pub proof fn law_motions_stay_in_the_text(s: Seq<char>, i: int, c: char)
    requires
        0 <= i <= s.len(),
    ensures
        simple_motion(s, i, c) matches Some(p) ==> 0 <= p.0 <= s.len(),
{
    lemma_line_start(s, i);
    lemma_char_from(s, '\n', i);
    lemma_first_non_blank(s, i);
    let words = if c == 'W' || c == 'B' || c == 'E' {
        crate::caret::Words::Big
    } else {
        crate::caret::Words::Small
    };
    let space = crate::caret::Class::Space;
    if i < s.len() {
        let run = crate::caret::class_of(s[i], words);
        lemma_run_end(s, i, words, run);
        lemma_run_end(s, i, words, space);
        lemma_run_end(s, crate::caret::run_end(s, i, words, run), words, space);
        lemma_run_end(s, i + 1, words, space);
        let k = crate::caret::run_end(s, i + 1, words, space);
        if k < s.len() {
            lemma_run_end(s, k + 1, words, crate::caret::class_of(s[k], words));
        }
    }
    lemma_run_start(s, i, words, space);
    let k = crate::caret::run_start(s, i, words, space);
    if k > 0 {
        lemma_run_start(s, k - 1, words, crate::caret::class_of(s[k - 1], words));
    }
}

proof fn lemma_find_in_text(s: Seq<char>, i: int, kind: crate::caret::FindKind, target: char)
    requires
        0 <= i <= s.len(),
    ensures
        find_motion(s, i, kind, target) matches Some(p) ==> 0 <= p.0 <= s.len(),
{
    lemma_line_start(s, i);
    lemma_char_from(s, '\n', i);
    let start = line_start(s, i);
    let end = line_end(s, i);
    let first = crate::caret::lesser(next_place(s, i), end);
    let from = if kind.till {
        crate::caret::lesser(next_place(s, first), end)
    } else {
        first
    };
    lemma_char_from(s, target, from);
    lemma_char_before(s, target, start, i);
}

proof fn lemma_char_before(s: Seq<char>, c: char, start: int, i: int)
    requires
        0 <= start,
    ensures
        start <= i ==> start - 1 <= char_before(s, c, start, i) < i || char_before(s, c, start, i)
            == start - 1,
    decreases i,
{
    if i > start && i > 0 && s[i - 1] != c {
        lemma_char_before(s, c, start, i - 1);
    }
}

proof fn lemma_operated_rests(f: Field, op: Op, from: int, to: int)
    requires
        in_text(f),
        resting(f),
        0 <= from <= f.text.len(),
        to <= f.text.len(),
    ensures
        resting(operated(f, op, from, to)),
{
    match op {
        Op::Yank => {
            if from < to {
                lemma_at_rest(Field { register: f.text.subrange(from, to), at: from, ..f });
            } else {
                lemma_at_rest(f);
            }
        },
        Op::Delete => {
            lemma_at_rest(cut(Field { at: from, ..f }, from, to));
        },
        Op::Change => {},
    }
}

proof fn lemma_operated_to_rests(f: Field, op: Op, motion: Option<(int, bool)>)
    requires
        in_text(f),
        resting(f),
        motion matches Some(m) ==> 0 <= m.0 <= f.text.len(),
    ensures
        resting(operated_to(f, op, motion)),
{
    match motion {
        None => {},
        Some((target, inclusive)) => {
            let (from, to) = op_span(f.text, f.at, target, inclusive);
            lemma_operated_rests(f, op, from, to);
        },
    }
}

proof fn lemma_operator_key_rests(f: Field, c: char, op: Op)
    requires
        in_text(f),
        resting(f),
        !f.insert,
    ensures
        resting(operator_key(f, c, op)),
{
    lemma_line_start(f.text, f.at);
    lemma_char_from(f.text, '\n', f.at);
    if c == op.key() {
        let start = line_start(f.text, f.at);
        let g = Field { at: start, ..f };
        assert(resting(g)) by {
            lemma_line_start(f.text, start);
            assert(line_start(f.text, start) == start) by {
                if start > 0 {
                    assert(f.text[start - 1] == '\n');
                }
            }
        }
        lemma_operated_rests(g, op, start, line_end(f.text, f.at));
    } else if c == 'f' || c == 'F' || c == 't' || c == 'T' {
    } else if c == ';' || c == ',' {
        match f.last_find {
            Some((kind, target)) => {
                lemma_find_in_text(f.text, f.at, kind, target);
                lemma_find_in_text(
                    f.text,
                    f.at,
                    crate::caret::FindKind { forward: !kind.forward, till: kind.till },
                    target,
                );
            },
            None => {},
        }
        lemma_operated_to_rests(f, op, repeat_motion(f, c));
    } else {
        law_motions_stay_in_the_text(f.text, f.at, c);
        if f.at < f.text.len() {
            let small = crate::caret::Words::Small;
            let big = crate::caret::Words::Big;
            lemma_run_end(f.text, f.at + 1, small, crate::caret::class_of(f.text[f.at], small));
            lemma_run_end(f.text, f.at + 1, big, crate::caret::class_of(f.text[f.at], big));
        }
        lemma_operated_to_rests(f, op, operator_motion(f, c, op));
    }
}

proof fn lemma_completed_rests(f: Field, c: char, pending: Pending)
    requires
        in_text(f),
        resting(f),
        !f.insert,
    ensures
        resting(completed(f, c, pending)),
{
    match pending {
        Pending::G => {
            lemma_first_non_blank(f.text, 0);
            lemma_at_rest(Field { at: first_non_blank(f.text, 0), ..f });
        },
        Pending::Replace => {
            if f.at < f.text.len() {
                lemma_at_rest(
                    Field { text: spliced(f.text, f.at, f.at + 1, seq![c]), ..recorded(f) },
                );
            }
            lemma_at_rest(f);
        },
        Pending::Find(kind) => {
            lemma_find_in_text(f.text, f.at, kind, c);
            let g = Field { last_find: Some((kind, c)), ..f };
            match find_motion(f.text, f.at, kind, c) {
                Some((to, _)) => {
                    lemma_at_rest(Field { at: to, ..g });
                },
                None => {},
            }
        },
        Pending::OperatorFind(op, kind) => {
            lemma_find_in_text(f.text, f.at, kind, c);
            lemma_operated_to_rests(
                Field { last_find: Some((kind, c)), ..f },
                op,
                find_motion(f.text, f.at, kind, c),
            );
        },
        Pending::Operator(op) => {
            lemma_operator_key_rests(f, c, op);
        },
    }
}

proof fn lemma_command_rests(f: Field, c: char)
    requires
        in_text(f),
        resting(f),
        !f.insert,
    ensures
        resting(normal_command(f, c)),
{
    let s = f.text;
    lemma_line_start(s, f.at);
    lemma_char_from(s, '\n', f.at);
    lemma_at_rest(f);
    if c == 'u' {
        if f.history.len() > 0 {
            let step = f.history.last();
            crate::caret::lemma_snap(step.text, step.caret);
            lemma_at_rest(
                Field {
                    text: step.text,
                    at: snap(step.text, step.caret),
                    history: f.history.drop_last(),
                    ..f
                },
            );
        }
    } else if c == 'G' {
        lemma_line_start(s, s.len() as int);
        lemma_first_non_blank(s, last_line_start(s));
        lemma_at_rest(Field { at: first_non_blank(s, last_line_start(s)), ..f });
    } else if c == 'p' || c == 'P' {
        if f.register.len() > 0 {
            let at = if c == 'p' {
                next_place(s, f.at)
            } else {
                f.at
            };
            lemma_at_rest(
                Field {
                    text: spliced(s, at, at, f.register),
                    at: at + f.register.len() - 1,
                    ..recorded(f)
                },
            );
        }
    } else if c == '~' {
        if f.at < s.len() && s[f.at] != '\n' {
            let by = crate::edit::case_swapped(s[f.at]);
            lemma_at_rest(
                Field {
                    text: spliced(s, f.at, f.at + 1, by),
                    at: f.at + by.len(),
                    ..recorded(f)
                },
            );
        }
    } else if c == ';' || c == ',' {
        match f.last_find {
            Some((kind, target)) => {
                lemma_find_in_text(s, f.at, kind, target);
                lemma_find_in_text(
                    s,
                    f.at,
                    crate::caret::FindKind { forward: !kind.forward, till: kind.till },
                    target,
                );
            },
            None => {},
        }
        match repeat_motion(f, c) {
            Some((to, _)) => {
                lemma_at_rest(Field { at: to, ..f });
            },
            None => {},
        }
    } else if c == 'x' {
        lemma_at_rest(cut(f, f.at, next_place(s, f.at)));
    } else if c == 'D' {
        lemma_at_rest(cut(f, f.at, line_end(s, f.at)));
    } else {
        law_motions_stay_in_the_text(s, f.at, c);
        match simple_motion(s, f.at, c) {
            Some((to, _)) => {
                lemma_at_rest(Field { at: to, ..f });
            },
            None => {},
        }
    }
}

proof fn lemma_lines_in_text(s: Seq<char>, i: int)
    requires
        0 <= i <= s.len(),
    ensures
        line_down(s, i) matches Some(j) ==> 0 <= j <= s.len(),
        line_up(s, i) matches Some(j) ==> 0 <= j <= s.len(),
{
    lemma_line_start(s, i);
    lemma_char_from(s, '\n', i);
    let end = line_end(s, i);
    if end < s.len() {
        lemma_char_from(s, '\n', end + 1);
    }
    let start = line_start(s, i);
    if start > 0 {
        lemma_line_start(s, start - 1);
        lemma_char_from(s, '\n', line_start(s, start - 1));
    }
}

proof fn lemma_lines_rest(f: Field)
    requires
        in_text(f),
    ensures
        line_down(f.text, f.at) matches Some(i) ==> resting(moved(f, i)) && resting(
            moved(f, first_non_blank(f.text, i)),
        ),
        line_up(f.text, f.at) matches Some(i) ==> resting(moved(f, i)),
{
    lemma_lines_in_text(f.text, f.at);
    match line_down(f.text, f.at) {
        Some(i) => {
            lemma_at_rest(Field { at: i, ..f });
            lemma_first_non_blank(f.text, i);
            lemma_at_rest(Field { at: first_non_blank(f.text, i), ..f });
        },
        None => {},
    }
    match line_up(f.text, f.at) {
        Some(i) => {
            lemma_at_rest(Field { at: i, ..f });
        },
        None => {},
    }
}

/// In normal mode the caret rests on a character, or on a line without any: no key
/// takes it onto a line break or past the end of a line.
pub proof fn law_a_normal_caret_rests_on_a_character(f: Field, key: KeyEvent, keys: Keys, now: u64)
    requires
        in_text(f),
        resting(f),
    ensures
        resting(pressed(f, key, keys, now).0),
        resting(pressed_multiline(f, key, keys, now).0),
{
    if !(key.control || key.alt) {
        lemma_lines_rest(Field { pending: None, cmd: None, ..f });
        let g = Field { pending: None, cmd: None, ..f };
        let n = f.text.len() as int;
        lemma_at_rest(g);
        lemma_at_rest(Field { insert: false, ..g });
        lemma_at_rest(Field { at: n, ..g });
        lemma_at_rest(Field { at: next_place(g.text, g.at), ..g });
        lemma_at_rest(Field { at: prev_place(g.at), ..g });
        match key.code {
            KeyCode::Backspace => {
                if g.at > 0 {
                    lemma_at_rest(
                        Field {
                            text: spliced(g.text, g.at - 1, g.at, Seq::empty()),
                            at: g.at - 1,
                            ..recorded(g)
                        },
                    );
                }
            },
            KeyCode::Delete => {
                if g.at < n {
                    lemma_at_rest(
                        Field {
                            text: spliced(g.text, g.at, g.at + 1, Seq::empty()),
                            ..recorded(g)
                        },
                    );
                }
            },
            KeyCode::Char(c) => {
                if f.insert {
                    if escapes(f, keys, c, now) {
                        lemma_at_rest(
                            Field {
                                text: spliced(g.text, g.at - 1, g.at, Seq::empty()),
                                at: g.at - 1,
                                insert: false,
                                ..g
                            },
                        );
                    }
                } else {
                    match f.cmd {
                        Some(pending) => {
                            lemma_completed_rests(g, c, pending);
                        },
                        None => {
                            lemma_command_rests(g, c);
                        },
                    }
                }
            },
            _ => {},
        }
    }
}

// ─── One line ─────────────────────────────────────────────────────────────────

/// On a text of one line the body field is a field like any other: but for Enter,
/// the vertical arrows, and `j` or `k` behind a half-typed command, a key does what it
/// does elsewhere.
pub proof fn law_a_one_line_body_is_a_field(f: Field, key: KeyEvent, keys: Keys, now: u64)
    requires
        in_text(f),
        !f.text.contains('\n'),
        f.cmd is Some && !f.insert ==> key.code != KeyCode::Char('j') && key.code != KeyCode::Char(
            'k',
        ),
        key.code != KeyCode::Enter,
        key.code != KeyCode::Up,
        key.code != KeyCode::Down,
    ensures
        pressed_multiline(f, key, keys, now) == pressed(f, key, keys, now),
{
    lemma_char_from(f.text, '\n', f.at);
    lemma_line_start(f.text, f.at);
    let end = line_end(f.text, f.at);
    if end < f.text.len() {
        assert(f.text.contains(f.text[end]));
    }
    let start = line_start(f.text, f.at);
    if start > 0 {
        assert(f.text.contains(f.text[start - 1]));
    }
}

} // verus!
