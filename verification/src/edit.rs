//! Text editing with vim motions, shared by every form field.
//!
//! Fields are plain strings. What lives here is the caret of the field that has
//! focus, with its mode, its undo history and a command that is half typed. A key
//! that does not reach the normal-mode table drops a half-typed command.
use vstd::prelude::*;
use vstd::string::*;

use crate::caret::{
    byte_length, find_kind, find_motion, first_non_blank, go_find, go_line_down, go_line_up, go_next, go_prev,
    go_simple, kind_of, last_line_start, line_down, line_end, line_start, line_up, next_place, offset,
    offset_of, op_span, prev_place, rest_on_char, rested, simple_motion, size, snap, snap_to, span_of,
    start_of_line, end_of_line, to_first_non_blank, FindKind, run_last, go_run_last,
};
use crate::config::Keys;
use crate::keys::{KeyCode, KeyEvent};
use crate::text::{chars_of, is_white, slice_string, str_eq, string_of, white};
use crate::unicode::{capitals, char_to_lowercase, char_to_uppercase, is_small, small, smalls};

pub use crate::caret::{word_back, word_end, word_forward, Words};

verus! {

/// How long the first key of the escape sequence stays armed, in milliseconds.
pub const SEQUENCE_TIMEOUT: u64 = 1000;

/// Undo steps kept for one field.
pub const MAX_UNDO: usize = 100;

// ─── The model ────────────────────────────────────────────────────────────────

/// What an operator does with the stretch its motion names.
#[derive(Debug, Clone, Copy, PartialEq, Eq, Structural)]
pub enum Op {
    Delete,
    Change,
    Yank,
}

impl Op {
    /// The key that types this operator.
    pub open spec fn key(self) -> char {
        match self {
            Op::Delete => 'd',
            Op::Change => 'c',
            Op::Yank => 'y',
        }
    }

    /// The key that types this operator.
    pub fn letter(self) -> (r: char)
        ensures
            r == self.key(),
    {
        match self {
            Op::Delete => 'd',
            Op::Change => 'c',
            Op::Yank => 'y',
        }
    }
}

/// A normal-mode command waiting for the key that finishes it.
#[derive(Debug, Clone, Copy, PartialEq, Eq, Structural)]
pub enum Pending {
    /// `d`, `c` or `y`, waiting for a motion.
    Operator(Op),
    /// The same behind `f`, `F`, `t` or `T`, waiting for the character to find.
    OperatorFind(Op, FindKind),
    /// `f`, `F`, `t` or `T`, waiting for the character to find.
    Find(FindKind),
    /// `r`, waiting for the character to write.
    Replace,
    /// `g`, waiting for the second one.
    G,
}

/// The field as it stood before one change.
#[derive(Debug, PartialEq, Eq)]
pub struct Snapshot {
    pub value: String,
    /// A byte offset.
    pub caret: usize,
}

/// The same, as text.
pub ghost struct Step {
    pub text: Seq<char>,
    pub caret: nat,
}

/// Where the caret is in the focused field, and whether letters type or move.
#[derive(Debug, PartialEq, Eq)]
pub struct Edit {
    /// Byte offset into the value. A stale one is healed by the next key.
    pub caret: usize,
    /// False in normal mode, where letters move the caret.
    pub insert: bool,
    /// The first key of the escape sequence and when it was typed, waiting for the
    /// second.
    pub pending: Option<(char, u64)>,
    /// Whether the insert session has recorded its undo step: the first change
    /// does, the rest join it.
    pub session_saved: bool,
    /// What `u` walks back through, oldest first.
    pub history: Vec<Snapshot>,
    /// A command typed but not completed.
    pub pending_cmd: Option<Pending>,
    /// The last search, for `;` and `,` to repeat.
    pub last_find: Option<(FindKind, char)>,
}

/// The undo history, as text.
pub open spec fn steps(history: Seq<Snapshot>) -> Seq<Step> {
    history.map_values(|s: Snapshot| Step { text: s.value@, caret: s.caret as nat })
}

/// An edit, as text.
pub ghost struct EditView {
    pub caret: nat,
    pub insert: bool,
    pub pending: Option<(char, u64)>,
    pub saved: bool,
    pub history: Seq<Step>,
    pub cmd: Option<Pending>,
    pub last_find: Option<(FindKind, char)>,
}

impl View for Edit {
    type V = EditView;

    open spec fn view(&self) -> EditView {
        EditView {
            caret: self.caret as nat,
            insert: self.insert,
            pending: self.pending,
            saved: self.session_saved,
            history: steps(self.history@),
            cmd: self.pending_cmd,
            last_find: self.last_find,
        }
    }
}

impl Clone for Edit {
    fn clone(&self) -> (r: Edit)
        ensures
            r@ == self@,
    {
        let mut history: Vec<Snapshot> = Vec::new();
        let mut i: usize = 0;
        while i < self.history.len()
            invariant
                i <= self.history.len(),
                steps(history@) == steps(self.history@).take(i as int),
            decreases self.history.len() - i,
        {
            let ghost before = steps(history@);
            let s = &self.history[i];
            history.push(Snapshot { value: s.value.clone(), caret: s.caret });
            proof {
                let step = steps(self.history@)[i as int];
                assert(steps(history@) =~= before.push(step));
                assert(steps(self.history@).take(i + 1) =~= before.push(step));
            }
            i = i + 1;
        }
        proof {
            assert(steps(self.history@).take(self.history@.len() as int) =~= steps(self.history@));
        }
        Edit {
            caret: self.caret,
            insert: self.insert,
            pending: self.pending,
            session_saved: self.session_saved,
            history,
            pending_cmd: self.pending_cmd,
            last_find: self.last_find,
        }
    }
}

/// An edit with the caret somewhere and nothing else to remember.
pub open spec fn edit_at(caret: nat, insert: bool) -> EditView {
    EditView {
        caret,
        insert,
        pending: None,
        saved: false,
        history: Seq::empty(),
        cmd: None,
        last_find: None,
    }
}

/// What opening a pane on a field gives.
pub open spec fn opened_on(value: Seq<char>) -> EditView {
    edit_at(size(value), true)
}

/// What a focus move lands with.
pub open spec fn landed_on(value: Seq<char>, insert: bool) -> EditView {
    edit_at(offset(value, rested(value, value.len() as int, insert)), insert)
}

/// A field with its caret, and the register that outlives it.
pub ghost struct Field {
    pub text: Seq<char>,
    /// The caret's place, in characters.
    pub at: int,
    pub insert: bool,
    pub pending: Option<(char, u64)>,
    pub saved: bool,
    pub history: Seq<Step>,
    pub cmd: Option<Pending>,
    pub last_find: Option<(FindKind, char)>,
    pub register: Seq<char>,
}

/// What the caller should do with a key.
#[derive(Debug, Clone, Copy, PartialEq, Eq, Structural)]
pub enum Applied {
    /// Consumed.
    Yes,
    /// `Esc` in normal mode: the field is done.
    Exit,
    /// `j` in normal mode: to the next row of the form.
    FocusNext,
    /// `k` in normal mode: to the previous row.
    FocusPrev,
    /// Not a text-editing key.
    No,
}

/// The field that an edit of a value shows.
pub open spec fn field_of(value: Seq<char>, edit: EditView, register: Seq<char>) -> Field {
    Field {
        text: value,
        at: snap(value, edit.caret),
        insert: edit.insert,
        pending: edit.pending,
        saved: edit.saved,
        history: edit.history,
        cmd: edit.cmd,
        last_find: edit.last_find,
        register,
    }
}

/// The edit of a field.
pub open spec fn edit_of(f: Field) -> EditView {
    EditView {
        caret: offset(f.text, f.at),
        insert: f.insert,
        pending: f.pending,
        saved: f.saved,
        history: f.history,
        cmd: f.cmd,
        last_find: f.last_find,
    }
}

/// An edit that a chord passed by: nothing moves, and what was half typed is dropped.
pub open spec fn passed_by(edit: EditView) -> EditView {
    EditView { pending: None, cmd: None, ..edit }
}

/// A caret at the start of a character of the text, or at its end.
pub open spec fn on_boundary(text: Seq<char>, caret: nat) -> bool {
    exists|i: int| 0 <= i <= text.len() && #[trigger] offset(text, i) == caret
}

/// What one key does to a value, its edit and the register. A chord is left to the
/// pane, and drops what was half typed.
pub open spec fn key_applied(
    value: Seq<char>,
    edit: EditView,
    register: Seq<char>,
    key: KeyEvent,
    keys: Keys,
    now: u64,
) -> (Seq<char>, EditView, Seq<char>, Applied) {
    if key.control || key.alt {
        (value, passed_by(edit), register, Applied::No)
    } else {
        let (f, r) = pressed(field_of(value, edit, register), key, keys, now);
        (f.text, edit_of(f), f.register, r)
    }
}

/// What one key does to a value of several lines.
pub open spec fn multiline_key_applied(
    value: Seq<char>,
    edit: EditView,
    register: Seq<char>,
    key: KeyEvent,
    keys: Keys,
    now: u64,
) -> (Seq<char>, EditView, Seq<char>, Applied) {
    if key.control || key.alt {
        (value, passed_by(edit), register, Applied::No)
    } else {
        let (f, r) = pressed_multiline(field_of(value, edit, register), key, keys, now);
        (f.text, edit_of(f), f.register, r)
    }
}

/// What a paste does to a value and its edit.
pub open spec fn pasted(value: Seq<char>, edit: EditView, text: Seq<char>) -> (Seq<char>, EditView) {
    let f = typed(Field { pending: None, ..field_of(value, edit, Seq::empty()) }, text);
    (f.text, edit_of(f))
}

/// The caret is within the text.
pub open spec fn in_text(f: Field) -> bool {
    0 <= f.at <= f.text.len()
}

/// The history with one more step, unless it would restore what is there; the
/// oldest step makes room.
pub open spec fn remembered(history: Seq<Step>, step: Step) -> Seq<Step> {
    if history.len() > 0 && history.last().text == step.text {
        history
    } else if history.len() == MAX_UNDO {
        history.drop_first().push(step)
    } else {
        history.push(step)
    }
}

/// The field before a change: an insert session records once, a normal-mode
/// command every time.
pub open spec fn recorded(f: Field) -> Field {
    if f.insert && f.saved {
        f
    } else {
        Field {
            saved: f.saved || f.insert,
            history: remembered(f.history, Step { text: f.text, caret: offset(f.text, f.at) }),
            ..f
        }
    }
}

/// The text with `from..to` replaced.
pub open spec fn spliced(s: Seq<char>, from: int, to: int, by: Seq<char>) -> Seq<char> {
    s.take(from) + by + s.skip(to)
}

/// The field with its caret rested.
pub open spec fn at_rest(f: Field) -> Field {
    Field { at: rested(f.text, f.at, f.insert), ..f }
}

/// The caret moved and rested.
pub open spec fn moved(f: Field, to: int) -> Field {
    at_rest(Field { at: to, ..f })
}

/// The field with text put in at the caret and the caret behind it.
pub open spec fn typed(f: Field, text: Seq<char>) -> Field {
    let g = recorded(f);
    Field { text: spliced(f.text, f.at, f.at, text), at: f.at + text.len(), ..g }
}

/// The field without `from..to`, which goes to the register. Cutting nothing is no
/// change.
pub open spec fn cut(f: Field, from: int, to: int) -> Field {
    if from >= to {
        f
    } else {
        let g = recorded(f);
        Field {
            text: spliced(f.text, from, to, Seq::empty()),
            register: f.text.subrange(from, to),
            ..g
        }
    }
}

/// The field in insert mode, in a session whose step is recorded.
pub open spec fn changing(f: Field) -> Field {
    Field { insert: true, saved: true, ..f }
}

/// An operator run over `from..to`.
pub open spec fn operated(f: Field, op: Op, from: int, to: int) -> Field {
    match op {
        Op::Yank => if from < to {
            at_rest(Field { register: f.text.subrange(from, to), at: from, ..f })
        } else {
            at_rest(f)
        },
        Op::Delete => at_rest(cut(Field { at: from, ..f }, from, to)),
        Op::Change => changing(cut(Field { at: from, ..f }, from, to)),
    }
}

/// An operator over the stretch that a motion names, or nothing where it goes
/// nowhere.
pub open spec fn operated_to(f: Field, op: Op, motion: Option<(int, bool)>) -> Field {
    match motion {
        None => f,
        Some((target, inclusive)) => {
            let (from, to) = op_span(f.text, f.at, target, inclusive);
            operated(f, op, from, to)
        },
    }
}

/// The last search repeated, forwards for `;` and backwards for `,`.
pub open spec fn repeat_motion(f: Field, c: char) -> Option<(int, bool)> {
    match f.last_find {
        None => None,
        Some((kind, target)) => find_motion(
            f.text,
            f.at,
            if c == ',' {
                FindKind { forward: !kind.forward, till: kind.till }
            } else {
                kind
            },
            target,
        ),
    }
}

/// Where the motion behind an operator leads. `cw` on a word goes to the end of that
/// word, so that changing it leaves the space behind it.
pub open spec fn operator_motion(f: Field, c: char, op: Op) -> Option<(int, bool)> {
    let on_word = op == Op::Change && 0 <= f.at < f.text.len() && !white(f.text[f.at]);
    if on_word && c == 'w' {
        Some((run_last(f.text, f.at, Words::Small), true))
    } else if on_word && c == 'W' {
        Some((run_last(f.text, f.at, Words::Big), true))
    } else {
        simple_motion(f.text, f.at, c)
    }
}

/// The key behind `d`, `c` or `y`. The operator doubled is its own line.
pub open spec fn operator_key(f: Field, c: char, op: Op) -> Field {
    if c == op.key() {
        let start = line_start(f.text, f.at);
        let end = line_end(f.text, f.at);
        operated(Field { at: start, ..f }, op, start, end)
    } else if c == 'f' || c == 'F' || c == 't' || c == 'T' {
        Field { cmd: Some(Pending::OperatorFind(op, kind_of(c))), ..f }
    } else if c == ';' || c == ',' {
        operated_to(f, op, repeat_motion(f, c))
    } else {
        operated_to(f, op, operator_motion(f, c, op))
    }
}

/// The key that finishes a half-typed command; one that cannot cancels it.
pub open spec fn completed(f: Field, c: char, pending: Pending) -> Field {
    match pending {
        Pending::G => if c == 'g' {
            moved(f, first_non_blank(f.text, 0))
        } else {
            f
        },
        Pending::Replace => if f.at < f.text.len() && f.text[f.at] != '\n' {
            at_rest(Field { text: spliced(f.text, f.at, f.at + 1, seq![c]), ..recorded(f) })
        } else {
            at_rest(f)
        },
        Pending::Find(kind) => {
            let g = Field { last_find: Some((kind, c)), ..f };
            match find_motion(f.text, f.at, kind, c) {
                Some((to, _)) => moved(g, to),
                None => g,
            }
        },
        Pending::OperatorFind(op, kind) => operated_to(
            Field { last_find: Some((kind, c)), ..f },
            op,
            find_motion(f.text, f.at, kind, c),
        ),
        Pending::Operator(op) => operator_key(f, c, op),
    }
}

/// A character with its case swapped.
pub open spec fn case_swapped(c: char) -> Seq<char> {
    if small(c) {
        capitals(c)
    } else {
        smalls(c)
    }
}

/// One normal-mode key without a half-typed command before it.
pub open spec fn normal_key(f: Field, c: char) -> (Field, Applied) {
    if c == 'j' {
        (f, Applied::FocusNext)
    } else if c == 'k' {
        (f, Applied::FocusPrev)
    } else {
        (normal_command(f, c), Applied::Yes)
    }
}

/// One normal-mode command.
pub open spec fn normal_command(f: Field, c: char) -> Field {
    let start = line_start(f.text, f.at);
    let end = line_end(f.text, f.at);
    let fresh = Field { saved: false, insert: true, ..f };
    if c == 'u' {
        if f.history.len() == 0 {
            f
        } else {
            let step = f.history.last();
            at_rest(
                Field {
                    text: step.text,
                    at: snap(step.text, step.caret),
                    history: f.history.drop_last(),
                    ..f
                },
            )
        }
    } else if c == 'd' {
        Field { cmd: Some(Pending::Operator(Op::Delete)), ..f }
    } else if c == 'c' {
        Field { cmd: Some(Pending::Operator(Op::Change)), ..f }
    } else if c == 'y' {
        Field { cmd: Some(Pending::Operator(Op::Yank)), ..f }
    } else if c == 'r' {
        Field { cmd: Some(Pending::Replace), ..f }
    } else if c == 'g' {
        Field { cmd: Some(Pending::G), ..f }
    } else if c == 'f' || c == 'F' || c == 't' || c == 'T' {
        Field { cmd: Some(Pending::Find(kind_of(c))), ..f }
    } else if c == 'Y' {
        if start < end {
            Field { register: f.text.subrange(start, end), ..f }
        } else {
            f
        }
    } else if c == 'G' {
        moved(f, first_non_blank(f.text, last_line_start(f.text)))
    } else if c == 'p' || c == 'P' {
        if f.register.len() == 0 {
            f
        } else {
            let at = if c == 'p' {
                next_place(f.text, f.at)
            } else {
                f.at
            };
            at_rest(
                Field {
                    text: spliced(f.text, at, at, f.register),
                    at: at + f.register.len() - 1,
                    ..recorded(f)
                },
            )
        }
    } else if c == '~' {
        if f.at < f.text.len() && f.text[f.at] != '\n' {
            let by = case_swapped(f.text[f.at]);
            at_rest(
                Field {
                    text: spliced(f.text, f.at, f.at + 1, by),
                    at: f.at + by.len(),
                    ..recorded(f)
                },
            )
        } else {
            at_rest(f)
        }
    } else if c == ';' || c == ',' {
        match repeat_motion(f, c) {
            Some((to, _)) => moved(f, to),
            None => f,
        }
    } else if c == 'i' {
        fresh
    } else if c == 'a' {
        Field { at: next_place(f.text, f.at), ..fresh }
    } else if c == 'I' {
        Field { at: first_non_blank(f.text, f.at), ..fresh }
    } else if c == 'A' {
        Field { at: end, ..fresh }
    } else if c == 'x' {
        at_rest(cut(f, f.at, next_place(f.text, f.at)))
    } else if c == 's' {
        changing(cut(f, f.at, next_place(f.text, f.at)))
    } else if c == 'D' {
        at_rest(cut(f, f.at, end))
    } else if c == 'C' {
        changing(cut(f, f.at, end))
    } else if c == 'S' {
        changing(cut(Field { at: start, ..f }, start, end))
    } else {
        match simple_motion(f.text, f.at, c) {
            Some((to, _)) => moved(f, to),
            None => f,
        }
    }
}

/// The second key of the escape sequence, typed in time behind the first.
pub open spec fn escapes(f: Field, keys: Keys, c: char, now: u64) -> bool {
    match (keys.insert_escape, f.pending) {
        (Some((first, second)), Some((armed, at))) => {
            &&& c == second
            &&& armed == first
            &&& now - at <= SEQUENCE_TIMEOUT
            &&& f.at > 0
            &&& f.text[f.at - 1] == first
        },
        _ => false,
    }
}

/// One key in a single-line field.
pub open spec fn pressed(f: Field, key: KeyEvent, keys: Keys, now: u64) -> (Field, Applied) {
    if key.control || key.alt {
        (Field { pending: None, cmd: None, ..f }, Applied::No)
    } else {
        let g = Field { pending: None, cmd: None, ..f };
        let n = f.text.len() as int;
        match key.code {
            KeyCode::Left => (moved(g, prev_place(g.at)), Applied::Yes),
            KeyCode::Right => (moved(g, next_place(g.text, g.at)), Applied::Yes),
            KeyCode::Home => (Field { at: 0, ..g }, Applied::Yes),
            KeyCode::End => (moved(g, n), Applied::Yes),
            KeyCode::Backspace => if g.at > 0 {
                (
                    at_rest(
                        Field {
                            text: spliced(g.text, g.at - 1, g.at, Seq::empty()),
                            at: g.at - 1,
                            ..recorded(g)
                        },
                    ),
                    Applied::Yes,
                )
            } else {
                (at_rest(g), Applied::Yes)
            },
            KeyCode::Delete => if g.at < n {
                (
                    at_rest(
                        Field {
                            text: spliced(g.text, g.at, g.at + 1, Seq::empty()),
                            ..recorded(g)
                        },
                    ),
                    Applied::Yes,
                )
            } else {
                (at_rest(g), Applied::Yes)
            },
            KeyCode::Esc => if f.insert {
                (at_rest(Field { insert: false, ..g }), Applied::Yes)
            } else {
                (g, Applied::Exit)
            },
            KeyCode::Char(c) => if f.insert {
                if escapes(f, keys, c, now) {
                    (
                        at_rest(
                            Field {
                                text: spliced(g.text, g.at - 1, g.at, Seq::empty()),
                                at: g.at - 1,
                                insert: false,
                                ..g
                            },
                        ),
                        Applied::Yes,
                    )
                } else {
                    (
                        Field {
                            pending: match keys.insert_escape {
                                Some((first, _)) if first == c => Some((c, now)),
                                _ => None,
                            },
                            ..typed(g, seq![c])
                        },
                        Applied::Yes,
                    )
                }
            } else {
                match f.cmd {
                    Some(pending) => (completed(g, c, pending), Applied::Yes),
                    None => normal_key(g, c),
                }
            },
            _ => (g, Applied::No),
        }
    }
}

/// One line down or up, or the row walk when there is no such line.
pub open spec fn line_walked(f: Field, down: bool) -> (Field, Applied) {
    let g = Field { pending: None, cmd: None, ..f };
    let to = if down {
        line_down(f.text, f.at)
    } else {
        line_up(f.text, f.at)
    };
    match to {
        Some(i) => (moved(g, i), Applied::Yes),
        None => (
            g,
            if down {
                Applied::FocusNext
            } else {
                Applied::FocusPrev
            },
        ),
    }
}

/// One key in a field that may hold newlines: Enter types one, and the vertical
/// keys move by line while there is a line to move to.
pub open spec fn pressed_multiline(f: Field, key: KeyEvent, keys: Keys, now: u64) -> (
    Field,
    Applied,
) {
    if key.control || key.alt {
        (Field { pending: None, cmd: None, ..f }, Applied::No)
    } else {
        let g = Field { pending: None, cmd: None, ..f };
        match key.code {
            KeyCode::Enter => if f.insert {
                (typed(g, seq!['\n']), Applied::Yes)
            } else {
                match line_down(f.text, f.at) {
                    Some(i) => (moved(g, first_non_blank(f.text, i)), Applied::Yes),
                    None => (g, Applied::Yes),
                }
            },
            KeyCode::Down => line_walked(f, true),
            KeyCode::Up => line_walked(f, false),
            KeyCode::Char(c) if !f.insert && c == 'j' => line_walked(f, true),
            KeyCode::Char(c) if !f.insert && c == 'k' => line_walked(f, false),
            _ => pressed(f, key, keys, now),
        }
    }
}

// ─── Working on a field ───────────────────────────────────────────────────────

/// A field taken apart into characters while a key is applied to it.
struct Work {
    text: Vec<char>,
    at: usize,
    insert: bool,
    pending: Option<(char, u64)>,
    saved: bool,
    history: Vec<Snapshot>,
    cmd: Option<Pending>,
    last_find: Option<(FindKind, char)>,
    register: String,
}

impl View for Work {
    type V = Field;

    closed spec fn view(&self) -> Field {
        Field {
            text: self.text@,
            at: self.at as int,
            insert: self.insert,
            pending: self.pending,
            saved: self.saved,
            history: steps(self.history@),
            cmd: self.cmd,
            last_find: self.last_find,
            register: self.register@,
        }
    }
}

impl Work {
    fn snapshot(&mut self)
        requires
            in_text(old(self)@),
        ensures
            final(self)@ == (Field {
                history: remembered(
                    old(self)@.history,
                    Step { text: old(self)@.text, caret: offset(old(self)@.text, old(self)@.at) },
                ),
                ..old(self)@
            }),
    {
        let value = string_of(&self.text);
        let n: usize = byte_length(value.as_str());
        let caret: usize = offset_of(&self.text, self.at);
        remember(&mut self.history, value.as_str(), caret);
    }

    fn record(&mut self)
        requires
            in_text(old(self)@),
        ensures
            final(self)@ == recorded(old(self)@),
    {
        if self.insert {
            if self.saved {
                return;
            }
            self.saved = true;
        }
        self.snapshot();
    }

    fn rest(&mut self)
        requires
            in_text(old(self)@),
        ensures
            final(self)@ == at_rest(old(self)@),
            in_text(final(self)@),
    {
        self.at = rest_on_char(&self.text, self.at, self.insert);
    }

    fn go(&mut self, to: usize)
        requires
            to <= old(self)@.text.len(),
        ensures
            final(self)@ == moved(old(self)@, to as int),
            in_text(final(self)@),
    {
        self.at = to;
        self.rest();
    }

    fn splice(&mut self, from: usize, to: usize, by: &Vec<char>)
        requires
            from <= to <= old(self)@.text.len(),
        ensures
            final(self)@ == (Field {
                text: spliced(old(self)@.text, from as int, to as int, by@),
                ..old(self)@
            }),
    {
        let ghost whole = spliced(self.text@, from as int, to as int, by@);
        let mut text: Vec<char> = Vec::new();
        let mut i: usize = 0;
        while i < from
            invariant
                i <= from <= to <= self.text.len(),
                text@ == self.text@.take(i as int),
            decreases from - i,
        {
            proof {
                assert(self.text@.take(i + 1) =~= self.text@.take(i as int).push(
                    self.text@[i as int],
                ));
            }
            text.push(self.text[i]);
            i = i + 1;
        }
        let mut k: usize = 0;
        proof {
            assert(text@ =~= self.text@.take(from as int) + by@.take(0));
        }
        while k < by.len()
            invariant
                k <= by.len(),
                text@ == self.text@.take(from as int) + by@.take(k as int),
            decreases by.len() - k,
        {
            text.push(by[k]);
            proof {
                assert(text@ =~= self.text@.take(from as int) + by@.take(k + 1));
            }
            k = k + 1;
        }
        let mut j: usize = to;
        proof {
            assert(text@ =~= self.text@.take(from as int) + by@ + self.text@.subrange(
                to as int,
                to as int,
            ));
        }
        while j < self.text.len()
            invariant
                from <= to <= j <= self.text.len(),
                text@ == self.text@.take(from as int) + by@ + self.text@.subrange(
                    to as int,
                    j as int,
                ),
            decreases self.text.len() - j,
        {
            text.push(self.text[j]);
            proof {
                assert(text@ =~= self.text@.take(from as int) + by@ + self.text@.subrange(
                    to as int,
                    j + 1,
                ));
            }
            j = j + 1;
        }
        proof {
            assert(text@ =~= whole);
        }
        self.text = text;
    }

    fn cut(&mut self, from: usize, to: usize)
        requires
            in_text(old(self)@),
            to <= old(self)@.text.len(),
            from <= old(self)@.at,
        ensures
            final(self)@ == cut(old(self)@, from as int, to as int),
            from == old(self)@.at ==> in_text(final(self)@),
    {
        if from >= to {
            return;
        }
        self.record();
        let taken = slice_string(&self.text, from, to);
        let none: Vec<char> = Vec::new();
        self.splice(from, to, &none);
        self.register = taken;
    }

    fn operate(&mut self, op: Op, from: usize, to: usize)
        requires
            in_text(old(self)@),
            from <= to <= old(self)@.text.len(),
        ensures
            final(self)@ == operated(old(self)@, op, from as int, to as int),
            in_text(final(self)@),
    {
        match op {
            Op::Yank => {
                if from < to {
                    self.register = slice_string(&self.text, from, to);
                    self.at = from;
                }
                self.rest();
            },
            Op::Delete => {
                self.at = from;
                self.cut(from, to);
                self.rest();
            },
            Op::Change => {
                self.at = from;
                self.cut(from, to);
                self.insert = true;
                self.saved = true;
            },
        }
    }

    fn operate_to(&mut self, op: Op, motion: Option<(usize, bool)>)
        requires
            in_text(old(self)@),
            motion matches Some(m) ==> m.0 <= old(self)@.text.len(),
        ensures
            final(self)@ == operated_to(
                old(self)@,
                op,
                match motion {
                    Some(m) => Some((m.0 as int, m.1)),
                    None => None,
                },
            ),
            in_text(final(self)@),
    {
        match motion {
            None => {},
            Some(m) => {
                let (from, to) = span_of(&self.text, self.at, m.0, m.1);
                self.operate(op, from, to);
            },
        }
    }

    fn repeat_search(&self, c: char) -> (r: Option<(usize, bool)>)
        requires
            in_text(self@),
        ensures
            r is Some <==> repeat_motion(self@, c) is Some,
            r matches Some(p) ==> repeat_motion(self@, c) == Some((p.0 as int, p.1)) && p.0
                <= self@.text.len(),
    {
        match self.last_find {
            None => None,
            Some((kind, target)) => {
                let kind = if c == ',' {
                    kind.reversed()
                } else {
                    kind
                };
                go_find(&self.text, self.at, kind, target)
            },
        }
    }

    fn operator_key(&mut self, c: char, op: Op)
        requires
            in_text(old(self)@),
        ensures
            final(self)@ == operator_key(old(self)@, c, op),
            in_text(final(self)@),
    {
        if c == op.letter() {
            let start: usize = start_of_line(&self.text, self.at);
            let end: usize = end_of_line(&self.text, self.at);
            self.at = start;
            self.operate(op, start, end);
            return;
        }
        if c == 'f' || c == 'F' || c == 't' || c == 'T' {
            self.cmd = Some(Pending::OperatorFind(op, find_kind(c)));
            return;
        }
        if c == ';' || c == ',' {
            let motion = self.repeat_search(c);
            self.operate_to(op, motion);
            return;
        }
        let on_word = op == Op::Change && self.at < self.text.len() && !is_white(
            self.text[self.at],
        );
        let motion = if on_word && c == 'w' {
            Some((go_run_last(&self.text, self.at, Words::Small), true))
        } else if on_word && c == 'W' {
            Some((go_run_last(&self.text, self.at, Words::Big), true))
        } else {
            go_simple(&self.text, self.at, c)
        };
        self.operate_to(op, motion);
    }

    fn complete(&mut self, c: char, pending: Pending)
        requires
            in_text(old(self)@),
        ensures
            final(self)@ == completed(old(self)@, c, pending),
            in_text(final(self)@),
    {
        match pending {
            Pending::G => {
                if c == 'g' {
                    let to: usize = to_first_non_blank(&self.text, 0);
                    self.go(to);
                }
            },
            Pending::Replace => {
                if self.at < self.text.len() && self.text[self.at] != '\n' {
                    self.record();
                    let mut by: Vec<char> = Vec::new();
                    by.push(c);
                    let at: usize = self.at;
                    self.splice(at, at + 1, &by);
                    proof {
                        assert(by@ =~= seq![c]);
                    }
                }
                self.rest();
            },
            Pending::Find(kind) => {
                self.last_find = Some((kind, c));
                match go_find(&self.text, self.at, kind, c) {
                    Some(p) => {
                        self.go(p.0);
                    },
                    None => {},
                }
            },
            Pending::OperatorFind(op, kind) => {
                self.last_find = Some((kind, c));
                let motion = go_find(&self.text, self.at, kind, c);
                self.operate_to(op, motion);
            },
            Pending::Operator(op) => {
                self.operator_key(c, op);
            },
        }
    }

    fn undo(&mut self)
        requires
            in_text(old(self)@),
        ensures
            final(self)@ == normal_command(old(self)@, 'u'),
            in_text(final(self)@),
    {
        let ghost before = steps(self.history@);
        match self.history.pop() {
            None => {},
            Some(previous) => {
                proof {
                    assert(steps(self.history@) =~= before.drop_last());
                    assert(before.last() == (Step {
                        text: previous.value@,
                        caret: previous.caret as nat,
                    }));
                }
                let n: usize = byte_length(previous.value.as_str());
                self.text = chars_of(previous.value.as_str());
                self.at = snap_to(&self.text, previous.caret);
                self.rest();
            },
        }
    }

    fn put(&mut self, c: char)
        requires
            in_text(old(self)@),
            c == 'p' || c == 'P',
        ensures
            final(self)@ == normal_command(old(self)@, c),
            in_text(final(self)@),
    {
        let by = chars_of(self.register.as_str());
        if by.len() == 0 {
            return;
        }
        let at: usize = if c == 'p' {
            go_next(&self.text, self.at)
        } else {
            self.at
        };
        self.record();
        self.splice(at, at, &by);
        self.at = self.text.len() - (self.text.len() - at - by.len()) - 1;
        self.rest();
    }

    fn swap_case(&mut self)
        requires
            in_text(old(self)@),
        ensures
            final(self)@ == normal_command(old(self)@, '~'),
            in_text(final(self)@),
    {
        if self.at < self.text.len() && self.text[self.at] != '\n' {
            let at: usize = self.at;
            let c = self.text[at];
            let by = if is_small(c) {
                char_to_uppercase(c)
            } else {
                char_to_lowercase(c)
            };
            self.record();
            self.splice(at, at + 1, &by);
            let behind: usize = self.text.len();
            self.at = behind - (behind - at - by.len());
        }
        self.rest();
    }

    fn normal(&mut self, c: char) -> (r: Applied)
        requires
            in_text(old(self)@),
        ensures
            (final(self)@, r) == normal_key(old(self)@, c),
            in_text(final(self)@),
    {
        if c == 'i' || c == 'a' || c == 'I' || c == 'A' {
            self.saved = false;
        }
        match c {
            'u' => {
                self.undo();
            },
            'd' => {
                self.cmd = Some(Pending::Operator(Op::Delete));
            },
            'c' => {
                self.cmd = Some(Pending::Operator(Op::Change));
            },
            'y' => {
                self.cmd = Some(Pending::Operator(Op::Yank));
            },
            'r' => {
                self.cmd = Some(Pending::Replace);
            },
            'g' => {
                self.cmd = Some(Pending::G);
            },
            'f' => {
                self.cmd = Some(Pending::Find(find_kind(c)));
            },
            'F' => {
                self.cmd = Some(Pending::Find(find_kind(c)));
            },
            't' => {
                self.cmd = Some(Pending::Find(find_kind(c)));
            },
            'T' => {
                self.cmd = Some(Pending::Find(find_kind(c)));
            },
            'Y' => {
                let start: usize = start_of_line(&self.text, self.at);
                let end: usize = end_of_line(&self.text, self.at);
                if start < end {
                    self.register = slice_string(&self.text, start, end);
                }
            },
            'G' => {
                let last: usize = start_of_line(&self.text, self.text.len());
                let to: usize = to_first_non_blank(&self.text, last);
                self.go(to);
            },
            'p' => {
                self.put(c);
            },
            'P' => {
                self.put(c);
            },
            '~' => {
                self.swap_case();
            },
            ';' => {
                match self.repeat_search(c) {
                    Some(p) => {
                        self.go(p.0);
                    },
                    None => {},
                }
            },
            ',' => {
                match self.repeat_search(c) {
                    Some(p) => {
                        self.go(p.0);
                    },
                    None => {},
                }
            },
            'j' => {
                return Applied::FocusNext;
            },
            'k' => {
                return Applied::FocusPrev;
            },
            'i' => {
                self.insert = true;
            },
            'a' => {
                self.at = go_next(&self.text, self.at);
                self.insert = true;
            },
            'I' => {
                self.at = to_first_non_blank(&self.text, self.at);
                self.insert = true;
            },
            'A' => {
                self.at = end_of_line(&self.text, self.at);
                self.insert = true;
            },
            'x' => {
                let to: usize = go_next(&self.text, self.at);
                self.cut(self.at, to);
                self.rest();
            },
            's' => {
                let to: usize = go_next(&self.text, self.at);
                self.cut(self.at, to);
                self.insert = true;
                self.saved = true;
            },
            'D' => {
                let to: usize = end_of_line(&self.text, self.at);
                self.cut(self.at, to);
                self.rest();
            },
            'C' => {
                let to: usize = end_of_line(&self.text, self.at);
                self.cut(self.at, to);
                self.insert = true;
                self.saved = true;
            },
            'S' => {
                let start: usize = start_of_line(&self.text, self.at);
                let end: usize = end_of_line(&self.text, self.at);
                self.at = start;
                self.cut(start, end);
                self.insert = true;
                self.saved = true;
            },
            _ => {
                match go_simple(&self.text, self.at, c) {
                    Some(p) => {
                        self.go(p.0);
                    },
                    None => {},
                }
            },
        }
        Applied::Yes
    }

    fn type_text(&mut self, by: &Vec<char>)
        requires
            in_text(old(self)@),
        ensures
            final(self)@ == typed(old(self)@, by@),
            in_text(final(self)@),
    {
        self.record();
        let at: usize = self.at;
        self.splice(at, at, by);
        let behind: usize = self.text.len();
        self.at = behind - (behind - at - by.len());
    }

    fn erase_before(&mut self)
        requires
            in_text(old(self)@),
            old(self)@.at > 0,
        ensures
            final(self)@ == (Field {
                text: spliced(old(self)@.text, old(self)@.at - 1, old(self)@.at, Seq::empty()),
                at: old(self)@.at - 1,
                ..old(self)@
            }),
            in_text(final(self)@),
    {
        let at: usize = self.at;
        let none: Vec<char> = Vec::new();
        self.splice(at - 1, at, &none);
        self.at = at - 1;
    }

    fn type_char(&mut self, c: char, pending: Option<(char, u64)>, keys: Keys, now: u64)
        requires
            in_text(old(self)@),
            old(self)@.insert,
            old(self)@.pending is None,
            old(self)@.cmd is None,
        ensures
            ({
                let f = Field { pending, ..old(self)@ };
                let key = KeyEvent { code: KeyCode::Char(c), control: false, alt: false };
                final(self)@ == pressed(f, key, keys, now).0
            }),
            in_text(final(self)@),
    {
        let ghost f = Field { pending, ..self@ };
        let mut escaping = false;
        match keys.insert_escape {
            Some((first, second)) => match pending {
                Some((armed, at)) => {
                    let in_time = now <= at || now - at <= SEQUENCE_TIMEOUT;
                    escaping = c == second && armed == first && in_time && self.at > 0
                        && self.text[self.at - 1] == first;
                },
                None => {},
            },
            None => {},
        }
        proof {
            assert(escaping == escapes(f, keys, c, now));
        }
        if escaping {
            self.erase_before();
            self.insert = false;
            self.rest();
            return;
        }
        let mut by: Vec<char> = Vec::new();
        by.push(c);
        proof {
            assert(by@ =~= seq![c]);
        }
        self.type_text(&by);
        match keys.insert_escape {
            Some((first, _)) => {
                if first == c {
                    self.pending = Some((c, now));
                }
            },
            None => {},
        }
    }

    fn press(&mut self, key: KeyEvent, keys: Keys, now: u64) -> (r: Applied)
        requires
            in_text(old(self)@),
        ensures
            (final(self)@, r) == pressed(old(self)@, key, keys, now),
            in_text(final(self)@),
    {
        if key.control || key.alt {
            self.pending = None;
            self.cmd = None;
            return Applied::No;
        }
        let pending = self.pending;
        let cmd = self.cmd;
        self.pending = None;
        self.cmd = None;
        match key.code {
            KeyCode::Left => {
                let to: usize = go_prev(self.at);
                self.go(to);
            },
            KeyCode::Right => {
                let to: usize = go_next(&self.text, self.at);
                self.go(to);
            },
            KeyCode::Home => {
                self.at = 0;
            },
            KeyCode::End => {
                let to: usize = self.text.len();
                self.go(to);
            },
            KeyCode::Backspace => {
                if self.at > 0 {
                    self.record();
                    self.erase_before();
                }
                self.rest();
            },
            KeyCode::Delete => {
                if self.at < self.text.len() {
                    self.record();
                    let at: usize = self.at;
                    let none: Vec<char> = Vec::new();
                    self.splice(at, at + 1, &none);
                }
                self.rest();
            },
            KeyCode::Esc => {
                if !self.insert {
                    return Applied::Exit;
                }
                self.insert = false;
                self.rest();
            },
            KeyCode::Char(c) => {
                if self.insert {
                    self.type_char(c, pending, keys, now);
                } else {
                    match cmd {
                        Some(half) => {
                            self.complete(c, half);
                        },
                        None => {
                            return self.normal(c);
                        },
                    }
                }
            },
            _ => {
                return Applied::No;
            },
        }
        Applied::Yes
    }

    fn walk_line(&mut self, down: bool) -> (r: Applied)
        requires
            in_text(old(self)@),
        ensures
            (final(self)@, r) == line_walked(old(self)@, down),
            in_text(final(self)@),
    {
        self.pending = None;
        self.cmd = None;
        let to = if down {
            go_line_down(&self.text, self.at)
        } else {
            go_line_up(&self.text, self.at)
        };
        match to {
            Some(i) => {
                self.go(i);
                Applied::Yes
            },
            None => {
                if down {
                    Applied::FocusNext
                } else {
                    Applied::FocusPrev
                }
            },
        }
    }

    fn press_multiline(&mut self, key: KeyEvent, keys: Keys, now: u64) -> (r: Applied)
        requires
            in_text(old(self)@),
        ensures
            (final(self)@, r) == pressed_multiline(old(self)@, key, keys, now),
            in_text(final(self)@),
    {
        if key.control || key.alt {
            self.pending = None;
            self.cmd = None;
            return Applied::No;
        }
        match key.code {
            KeyCode::Enter => {
                self.pending = None;
                self.cmd = None;
                if self.insert {
                    let mut by: Vec<char> = Vec::new();
                    by.push('\n');
                    proof {
                        assert(by@ =~= seq!['\n']);
                    }
                    self.type_text(&by);
                } else {
                    match go_line_down(&self.text, self.at) {
                        Some(i) => {
                            let to: usize = to_first_non_blank(&self.text, i);
                            self.go(to);
                        },
                        None => {},
                    }
                }
                Applied::Yes
            },
            KeyCode::Down => self.walk_line(true),
            KeyCode::Up => self.walk_line(false),
            KeyCode::Char(c) => {
                if !self.insert && c == 'j' {
                    self.walk_line(true)
                } else if !self.insert && c == 'k' {
                    self.walk_line(false)
                } else {
                    self.press(key, keys, now)
                }
            },
            _ => self.press(key, keys, now),
        }
    }
}

/// Adds a step to an undo history.
fn remember(history: &mut Vec<Snapshot>, value: &str, caret: usize)
    ensures
        steps(final(history)@) == remembered(
            steps(old(history)@),
            Step { text: value@, caret: caret as nat },
        ),
{
    let ghost before = steps(history@);
    let ghost step = Step { text: value@, caret: caret as nat };
    let n: usize = history.len();
    if n > 0 {
        proof {
            assert(before.last() == (Step {
                text: history@[n - 1].value@,
                caret: history@[n - 1].caret as nat,
            }));
        }
        if str_eq(history[n - 1].value.as_str(), value) {
            return;
        }
    }
    if n == MAX_UNDO {
        history.remove(0);
        proof {
            assert(steps(history@) =~= before.drop_first());
        }
    }
    let ghost kept = steps(history@);
    history.push(Snapshot { value: value.to_owned(), caret });
    proof {
        assert(steps(history@) =~= kept.push(step));
    }
}

/// Takes a field apart.
fn open_field(value: &String, edit: &mut Edit, register: &String) -> (r: Work)
    ensures
        r@ == field_of(value@, old(edit)@, register@),
        in_text(r@),
{
    let n: usize = byte_length(value.as_str());
    let text = chars_of(value.as_str());
    let at: usize = snap_to(&text, edit.caret);
    let mut history: Vec<Snapshot> = Vec::new();
    core::mem::swap(&mut history, &mut edit.history);
    Work {
        text,
        at,
        insert: edit.insert,
        pending: edit.pending,
        saved: edit.session_saved,
        history,
        cmd: edit.pending_cmd,
        last_find: edit.last_find,
        register: register.clone(),
    }
}

/// What a worked-on field comes to: its text, its caret and its register.
fn close_field(work: Work, edit: &mut Edit) -> (r: (String, String))
    requires
        in_text(work@),
    ensures
        r.0@ == work@.text,
        r.1@ == work@.register,
        final(edit)@ == edit_of(work@),
        on_boundary(r.0@, final(edit)@.caret),
{
    let value = string_of(&work.text);
    let n: usize = byte_length(value.as_str());
    let caret: usize = offset_of(&work.text, work.at);
    *edit = Edit {
        caret,
        insert: work.insert,
        pending: work.pending,
        session_saved: work.saved,
        history: work.history,
        pending_cmd: work.cmd,
        last_find: work.last_find,
    };
    (value, work.register)
}

impl Default for Edit {
    /// An empty field, ready to type into.
    fn default() -> (r: Edit)
        ensures
            r@ == opened_on(Seq::empty()),
    {
        proof {
            reveal_strlit("");
            assert(""@ =~= Seq::<char>::empty());
        }
        Edit::at_end("")
    }
}

impl Edit {
    /// The caret past the last character, in insert mode: what opening a pane on a
    /// field gives.
    pub fn at_end(value: &str) -> (r: Edit)
        ensures
            r@ == opened_on(value@),
    {
        let r = Edit {
            caret: byte_length(value),
            insert: true,
            pending: None,
            session_saved: false,
            history: Vec::new(),
            pending_cmd: None,
            last_find: None,
        };
        proof {
            assert(r@.history =~= Seq::empty());
        }
        r
    }

    /// What a focus move lands with: the caret at the end in insert mode, or resting
    /// on the last character in normal mode. The mode is the user's until they
    /// change it.
    pub fn landing(value: &str, insert: bool) -> (r: Edit)
        ensures
            r@ == landed_on(value@, insert),
    {
        let mut edit = Edit::at_end(value);
        proof {
            assert(value@.take(value@.len() as int) =~= value@);
        }
        if !insert {
            let v = chars_of(value);
            edit.insert = false;
            let at: usize = rest_on_char(&v, v.len(), false);
            edit.caret = offset_of(&v, at);
        }
        edit
    }

    /// Records the field as it stands.
    pub fn snapshot(&mut self, value: &str)
        ensures
            final(self)@ == (EditView {
                history: remembered(
                    old(self)@.history,
                    Step { text: value@, caret: old(self)@.caret },
                ),
                ..old(self)@
            }),
    {
        remember(&mut self.history, value, self.caret);
    }
}

/// What one normal-mode letter does to a value, its edit and the register. Where a
/// command is half typed, the letter completes it.
pub open spec fn normal_applied(
    value: Seq<char>,
    edit: EditView,
    register: Seq<char>,
    c: char,
    pending_cmd: Option<Pending>,
) -> (Seq<char>, EditView, Seq<char>, Applied) {
    let f = field_of(value, edit, register);
    let (g, r) = match pending_cmd {
        Some(pending) => (completed(f, c, pending), Applied::Yes),
        None => normal_key(f, c),
    };
    (g.text, edit_of(g), g.register, r)
}

/// One normal-mode letter. `pending_cmd` is the half-typed command that it might
/// complete, as the `d` of a `dw`. Letters that mean nothing are swallowed: in normal
/// mode a stray one is a mistyped motion.
pub fn normal(
    value: &mut String,
    edit: &mut Edit,
    c: char,
    pending_cmd: Option<Pending>,
    register: &mut String,
) -> (r: Applied)
    ensures
        (final(value)@, final(edit)@, final(register)@, r) == normal_applied(
            old(value)@,
            old(edit)@,
            old(register)@,
            c,
            pending_cmd,
        ),
        on_boundary(final(value)@, final(edit)@.caret),
{
    let mut work = open_field(value, edit, register);
    let r = match pending_cmd {
        Some(pending) => {
            work.complete(c, pending);
            Applied::Yes
        },
        None => work.normal(c),
    };
    let (text, held) = close_field(work, edit);
    *value = text;
    *register = held;
    r
}

/// Applies one key to a field at its caret. `now` is when it was pressed, in
/// milliseconds. A caret that the value has moved away under is healed first.
pub fn apply(
    value: &mut String,
    edit: &mut Edit,
    key: KeyEvent,
    keys: Keys,
    register: &mut String,
    now: u64,
) -> (r: Applied)
    ensures
        (final(value)@, final(edit)@, final(register)@, r) == key_applied(
            old(value)@,
            old(edit)@,
            old(register)@,
            key,
            keys,
            now,
        ),
        !(key.control || key.alt) || on_boundary(old(value)@, old(edit)@.caret) ==> on_boundary(
            final(value)@,
            final(edit)@.caret,
        ),
{
    if key.control || key.alt {
        edit.pending = None;
        edit.pending_cmd = None;
        return Applied::No;
    }
    let mut work = open_field(value, edit, register);
    let r = work.press(key, keys, now);
    let (text, held) = close_field(work, edit);
    *value = text;
    *register = held;
    r
}

/// Applies one key to a field that may hold newlines, which is the request body.
pub fn apply_multiline(
    value: &mut String,
    edit: &mut Edit,
    key: KeyEvent,
    keys: Keys,
    register: &mut String,
    now: u64,
) -> (r: Applied)
    ensures
        (final(value)@, final(edit)@, final(register)@, r) == multiline_key_applied(
            old(value)@,
            old(edit)@,
            old(register)@,
            key,
            keys,
            now,
        ),
        !(key.control || key.alt) || on_boundary(old(value)@, old(edit)@.caret) ==> on_boundary(
            final(value)@,
            final(edit)@.caret,
        ),
{
    if key.control || key.alt {
        edit.pending = None;
        edit.pending_cmd = None;
        return Applied::No;
    }
    let mut work = open_field(value, edit, register);
    let r = work.press_multiline(key, keys, now);
    let (text, held) = close_field(work, edit);
    *value = text;
    *register = held;
    r
}

/// Inserts text at the caret and leaves the caret behind it: the paste path. It
/// disarms the escape sequence like any other key that does not complete it.
pub fn insert_str(value: &mut String, edit: &mut Edit, text: &str)
    ensures
        (final(value)@, final(edit)@) == pasted(old(value)@, old(edit)@, text@),
        on_boundary(final(value)@, final(edit)@.caret),
{
    let none = String::new();
    let mut work = open_field(value, edit, &none);
    work.pending = None;
    let by = chars_of(text);
    work.type_text(&by);
    let (after, _) = close_field(work, edit);
    *value = after;
}

} // verus!
