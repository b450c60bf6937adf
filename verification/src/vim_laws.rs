//! What each key of a text field is for.
//!
//! Places are counted in characters. The line that a place is on is what stands between
//! the newlines around it.
use vstd::prelude::*;

use crate::caret::{
    char_before, class_of, find_motion, first_non_blank, lemma_line_start, line_down, line_end, line_start,
    line_up, non_white_from, offset, run_end, run_last, run_start, simple_motion, size, snap, Class, FindKind,
    Words,
};
use crate::config::Keys;
use crate::edit::{
    escapes, in_text, key_applied, multiline_key_applied, pasted, pressed, pressed_multiline, Applied,
    EditView, Field, Op, Pending,
};
use crate::edit_laws::letter;
use crate::keys::{KeyCode, KeyEvent};
use crate::text::{char_from, lemma_char_from, white};
use crate::unicode::{alphanumeric, capitals, small, smalls};

verus! {

// ─── Lines, words and rest ────────────────────────────────────────────────────

/// The line of the place `i` ends at `e`: at the next newline, or at the end.
pub open spec fn line_ends_at(s: Seq<char>, i: int, e: int) -> bool {
    &&& 0 <= i <= e <= s.len()
    &&& e == s.len() || s[e] == '\n'
    &&& forall|k: int| i <= k < e ==> #[trigger] s[k] != '\n'
}

/// The line of the place `i` begins at `b`: behind the newline before it, or at the
/// start.
pub open spec fn line_begins_at(s: Seq<char>, i: int, b: int) -> bool {
    &&& 0 <= b <= i <= s.len()
    &&& b == 0 || s[b - 1] == '\n'
    &&& forall|k: int| b <= k < i ==> #[trigger] s[k] != '\n'
}

/// Where a caret put at `i` rests in normal mode: on a character, so one back from the
/// end of a line that holds any.
pub open spec fn rest_of(s: Seq<char>, i: int) -> int {
    if (i < s.len() && s[i] != '\n') || i <= 0 || s[i - 1] == '\n' {
        i
    } else {
        i - 1
    }
}

/// White space, a character of a word, or another one. Big words are told apart by
/// white space alone.
pub open spec fn sort_of(c: char, big: bool) -> int {
    if white(c) {
        0
    } else if big || alphanumeric(c) || c == '_' {
        1
    } else {
        2
    }
}

/// The characters from `i` to before `j` are of one sort.
pub open spec fn all_sort(s: Seq<char>, i: int, j: int, sort: int, big: bool) -> bool {
    forall|k: int| i <= k < j ==> sort_of(#[trigger] s[k], big) == sort
}

/// A field in normal mode with nothing half typed.
pub open spec fn idle(f: Field) -> bool {
    in_text(f) && !f.insert && f.cmd is None
}

/// The field after a letter.
pub open spec fn after(f: Field, c: char, keys: Keys, now: u64) -> Field {
    pressed(f, letter(c), keys, now).0
}

/// The field after two letters.
pub open spec fn after_two(f: Field, a: char, b: char, keys: Keys, now: u64) -> Field {
    after(after(f, a, keys, now), b, keys, now)
}

proof fn lemma_line_ends(s: Seq<char>, i: int, e: int)
    requires
        line_ends_at(s, i, e),
    ensures
        line_end(s, i) == e,
{
    lemma_char_from(s, '\n', i);
    let k = line_end(s, i);
    if k < e {
        assert(s[k] != '\n');
    }
    if e < k {
        assert(s[e] != '\n');
    }
}

proof fn lemma_line_begins(s: Seq<char>, i: int, b: int)
    requires
        line_begins_at(s, i, b),
    ensures
        line_start(s, i) == b,
{
    lemma_line_start(s, i);
    let k = line_start(s, i);
    if k < b {
        assert(s[b - 1] != '\n');
    }
    if b < k {
        assert(s[k - 1] != '\n');
    }
}

proof fn lemma_rest(s: Seq<char>, i: int)
    requires
        0 <= i <= s.len(),
    ensures
        crate::caret::rested(s, i, false) == rest_of(s, i),
        crate::caret::rested(s, i, true) == i,
{
    lemma_line_start(s, i);
    if i > 0 && s[i - 1] == '\n' {
        assert(line_start(s, i) == i);
    }
    if i > 0 && s[i - 1] != '\n' {
        lemma_line_start(s, i - 1);
        assert(line_start(s, i) == line_start(s, i - 1));
    }
}

// ─── Deleting and changing ────────────────────────────────────────────────────

/// `C` changes to the end of the line: what stood between the caret and the end of its
/// line is gone and in the register, the caret stays, and insert mode is on. `D` does
/// the same and stays in normal mode; `c$` and `d$` are longer spellings of the two.
#[verifier::rlimit(40)]
pub proof fn law_to_the_end_of_the_line(f: Field, e: int, keys: Keys, now: u64)
    requires
        idle(f),
        line_ends_at(f.text, f.at, e),
    ensures
        ({
            let left = f.text.take(f.at) + f.text.skip(e);
            let held = if f.at < e {
                f.text.subrange(f.at, e)
            } else {
                f.register
            };
            let changed = after(f, 'C', keys, now);
            let deleted = after(f, 'D', keys, now);
            let spelled = after_two(f, 'c', '$', keys, now);
            let spelled_out = after_two(f, 'd', '$', keys, now);
            &&& changed.text == left && changed.register == held
            &&& changed.insert && changed.at == f.at && changed.cmd is None
            &&& deleted.text == left && deleted.register == held
            &&& !deleted.insert && deleted.at == rest_of(left, f.at) && deleted.cmd is None
            &&& spelled.text == left && spelled.register == held
            &&& spelled.insert && spelled.at == f.at && spelled.cmd is None
            &&& spelled_out.text == left && spelled_out.register == held
            &&& !spelled_out.insert && spelled_out.at == rest_of(left, f.at)
            &&& pressed(f, letter('C'), keys, now).1 == Applied::Yes
            &&& pressed(f, letter('D'), keys, now).1 == Applied::Yes
        }),
{
    lemma_line_ends(f.text, f.at, e);
    let left = f.text.take(f.at) + f.text.skip(e);
    assert(f.text.take(f.at) + Seq::empty() + f.text.skip(e) =~= left);
    lemma_rest(left, f.at);
    lemma_rest(f.text, f.at);
    if f.at == e {
        assert(left =~= f.text);
    }
}

proof fn lemma_line_changed(f: Field, b: int, e: int, keys: Keys, now: u64)
    requires
        idle(f),
        line_begins_at(f.text, f.at, b),
        line_ends_at(f.text, f.at, e),
    ensures
        ({
            let left = f.text.take(b) + f.text.skip(e);
            let held = if b < e {
                f.text.subrange(b, e)
            } else {
                f.register
            };
            let g = after(f, 'S', keys, now);
            &&& g.text == left && g.register == held && g.insert && g.at == b
        }),
{
    lemma_line_ends(f.text, f.at, e);
    lemma_line_begins(f.text, f.at, b);
    let left = f.text.take(b) + f.text.skip(e);
    assert(f.text.take(b) + Seq::empty() + f.text.skip(e) =~= left);
    lemma_rest(left, b);
    lemma_rest(f.text, b);
    if b == e {
        assert(left =~= f.text);
    }
}

proof fn lemma_line_changed_twice(f: Field, b: int, e: int, keys: Keys, now: u64)
    requires
        idle(f),
        line_begins_at(f.text, f.at, b),
        line_ends_at(f.text, f.at, e),
    ensures
        ({
            let left = f.text.take(b) + f.text.skip(e);
            let held = if b < e {
                f.text.subrange(b, e)
            } else {
                f.register
            };
            let g = after_two(f, 'c', 'c', keys, now);
            &&& g.text == left && g.register == held && g.insert && g.at == b
        }),
{
    lemma_line_ends(f.text, f.at, e);
    lemma_line_begins(f.text, f.at, b);
    let left = f.text.take(b) + f.text.skip(e);
    assert(f.text.take(b) + Seq::empty() + f.text.skip(e) =~= left);
    lemma_rest(left, b);
    lemma_rest(f.text, b);
    if b == e {
        assert(left =~= f.text);
    }
}

proof fn lemma_line_deleted(f: Field, b: int, e: int, keys: Keys, now: u64)
    requires
        idle(f),
        line_begins_at(f.text, f.at, b),
        line_ends_at(f.text, f.at, e),
    ensures
        ({
            let left = f.text.take(b) + f.text.skip(e);
            let held = if b < e {
                f.text.subrange(b, e)
            } else {
                f.register
            };
            let g = after_two(f, 'd', 'd', keys, now);
            &&& g.text == left && g.register == held && !g.insert && g.at == rest_of(left, b)
        }),
{
    lemma_line_ends(f.text, f.at, e);
    lemma_line_begins(f.text, f.at, b);
    let left = f.text.take(b) + f.text.skip(e);
    assert(f.text.take(b) + Seq::empty() + f.text.skip(e) =~= left);
    lemma_rest(left, b);
    lemma_rest(f.text, b);
    if b == e {
        assert(left =~= f.text);
    }
}

proof fn lemma_line_copied(f: Field, b: int, e: int, keys: Keys, now: u64)
    requires
        idle(f),
        line_begins_at(f.text, f.at, b),
        line_ends_at(f.text, f.at, e),
    ensures
        ({
            let left = f.text.take(b) + f.text.skip(e);
            let held = if b < e {
                f.text.subrange(b, e)
            } else {
                f.register
            };
            let g = after_two(f, 'y', 'y', keys, now);
            &&& g.text == f.text && g.register == held && !g.insert && g.history == f.history
            &&& g.at == rest_of(f.text, b)
        }),
{
    lemma_line_ends(f.text, f.at, e);
    lemma_line_begins(f.text, f.at, b);
    let left = f.text.take(b) + f.text.skip(e);
    assert(f.text.take(b) + Seq::empty() + f.text.skip(e) =~= left);
    lemma_rest(left, b);
    lemma_rest(f.text, b);
    if b == e {
        assert(left =~= f.text);
    }
}

proof fn lemma_line_yanked(f: Field, b: int, e: int, keys: Keys, now: u64)
    requires
        idle(f),
        line_begins_at(f.text, f.at, b),
        line_ends_at(f.text, f.at, e),
    ensures
        ({
            let left = f.text.take(b) + f.text.skip(e);
            let held = if b < e {
                f.text.subrange(b, e)
            } else {
                f.register
            };
            let g = after(f, 'Y', keys, now);
            &&& g.text == f.text && g.register == held && !g.insert && g.at == f.at && g.history == f.history
        }),
{
    lemma_line_ends(f.text, f.at, e);
    lemma_line_begins(f.text, f.at, b);
    let left = f.text.take(b) + f.text.skip(e);
    assert(f.text.take(b) + Seq::empty() + f.text.skip(e) =~= left);
    lemma_rest(left, b);
    lemma_rest(f.text, b);
    if b == e {
        assert(left =~= f.text);
    }
}

/// `S` and `cc` change the line: all of it is gone and in the register, the caret is
/// where the line began, and insert mode is on. `dd` does the same and stays in normal
/// mode. The newlines around the line stay.
#[verifier::rlimit(40)]
pub proof fn law_the_whole_line(f: Field, b: int, e: int, keys: Keys, now: u64)
    requires
        idle(f),
        line_begins_at(f.text, f.at, b),
        line_ends_at(f.text, f.at, e),
    ensures
        ({
            let left = f.text.take(b) + f.text.skip(e);
            let held = if b < e {
                f.text.subrange(b, e)
            } else {
                f.register
            };
            let changed = after(f, 'S', keys, now);
            let doubled = after_two(f, 'c', 'c', keys, now);
            let deleted = after_two(f, 'd', 'd', keys, now);
            let copied = after_two(f, 'y', 'y', keys, now);
            let yanked = after(f, 'Y', keys, now);
            &&& changed.text == left && changed.register == held && changed.insert && changed.at == b
            &&& doubled.text == left && doubled.register == held && doubled.insert && doubled.at == b
            &&& deleted.text == left && deleted.register == held && !deleted.insert
            &&& deleted.at == rest_of(left, b)
            &&& copied.text == f.text && copied.register == held && !copied.insert
            &&& copied.at == rest_of(f.text, b)
            &&& yanked.text == f.text && yanked.register == held && !yanked.insert && yanked.at == f.at
            &&& copied.history == f.history && yanked.history == f.history
        }),
{
    lemma_line_changed(f, b, e, keys, now);
    lemma_line_changed_twice(f, b, e, keys, now);
    lemma_line_deleted(f, b, e, keys, now);
    lemma_line_copied(f, b, e, keys, now);
    lemma_line_yanked(f, b, e, keys, now);
}

/// `x` deletes the character under the caret, `s` changes it; the register has it. At
/// the end of the text there is none.
#[verifier::rlimit(40)]
pub proof fn law_one_character(f: Field, keys: Keys, now: u64)
    requires
        idle(f),
    ensures
        ({
            let x = after(f, 'x', keys, now);
            let s = after(f, 's', keys, now);
            let delete = pressed(
                f,
                KeyEvent { code: KeyCode::Delete, control: false, alt: false },
                keys,
                now,
            ).0;
            &&& !x.insert && s.insert && s.at == f.at
            &&& f.at < f.text.len() ==> {
                let left = f.text.take(f.at) + f.text.skip(f.at + 1);
                &&& x.text == left && x.register == seq![f.text[f.at]] && x.at == rest_of(left, f.at)
                &&& s.text == left && s.register == seq![f.text[f.at]]
                &&& delete.text == left && delete.register == f.register && !delete.insert
            }
            &&& f.at == f.text.len() ==> {
                &&& x.text == f.text && x.register == f.register
                &&& s.text == f.text && s.register == f.register
                &&& delete.text == f.text && delete.register == f.register
            }
        }),
{
    if f.at < f.text.len() {
        let left = f.text.take(f.at) + f.text.skip(f.at + 1);
        assert(f.text.take(f.at) + Seq::empty() + f.text.skip(f.at + 1) =~= left);
        assert(f.text.subrange(f.at, f.at + 1) =~= seq![f.text[f.at]]);
        lemma_rest(left, f.at);
    }
}

/// `p` puts the register behind the character under the caret, `P` before it: all of
/// it, once, with the rest of the text around it. The register stays, and the caret is
/// on the last character put. An empty register puts nothing.
#[verifier::rlimit(40)]
pub proof fn law_putting_the_register(f: Field, keys: Keys, now: u64)
    requires
        idle(f),
    ensures
        ({
            let behind = after(f, 'p', keys, now);
            let before = after(f, 'P', keys, now);
            let k = if f.at < f.text.len() {
                f.at + 1
            } else {
                f.at
            };
            &&& behind.text == f.text.take(k) + f.register + f.text.skip(k)
            &&& before.text == f.text.take(f.at) + f.register + f.text.skip(f.at)
            &&& behind.register == f.register && before.register == f.register
            &&& !behind.insert && !before.insert
            &&& f.register.len() > 0 ==> behind.at == rest_of(
                behind.text,
                k + f.register.len() - 1,
            ) && before.at == rest_of(before.text, f.at + f.register.len() - 1)
            &&& f.register.len() == 0 ==> behind.at == f.at && before.at == f.at
        }),
{
    let k = if f.at < f.text.len() {
        f.at + 1
    } else {
        f.at
    };
    if f.register.len() == 0 {
        assert(f.text.take(k) + f.register + f.text.skip(k) =~= f.text);
        assert(f.text.take(f.at) + f.register + f.text.skip(f.at) =~= f.text);
    } else {
        lemma_rest(f.text.take(k) + f.register + f.text.skip(k), k + f.register.len() - 1);
        lemma_rest(
            f.text.take(f.at) + f.register + f.text.skip(f.at),
            f.at + f.register.len() - 1,
        );
    }
}

/// `~` swaps the case of the character under the caret and steps past it; `r` and a
/// character put that character in its place. Neither writes over a newline.
#[verifier::rlimit(40)]
pub proof fn law_one_character_replaced(f: Field, c: char, keys: Keys, now: u64)
    requires
        idle(f),
    ensures
        ({
            let swapped = after(f, '~', keys, now);
            let replaced = after_two(f, 'r', c, keys, now);
            &&& swapped.register == f.register && replaced.register == f.register
            &&& !swapped.insert && !replaced.insert
            &&& f.at < f.text.len() && f.text[f.at] != '\n' ==> {
                let by = if small(f.text[f.at]) {
                    capitals(f.text[f.at])
                } else {
                    smalls(f.text[f.at])
                };
                &&& swapped.text == f.text.take(f.at) + by + f.text.skip(f.at + 1)
                &&& swapped.at == rest_of(swapped.text, f.at + by.len())
                &&& replaced.text == f.text.update(f.at, c)
                &&& replaced.at == rest_of(replaced.text, f.at)
            }
            &&& !(f.at < f.text.len() && f.text[f.at] != '\n') ==> swapped.text == f.text
                && replaced.text == f.text
        }),
{
    if f.at < f.text.len() && f.text[f.at] != '\n' {
        let by = if small(f.text[f.at]) {
            capitals(f.text[f.at])
        } else {
            smalls(f.text[f.at])
        };
        lemma_rest(f.text.take(f.at) + by + f.text.skip(f.at + 1), f.at + by.len());
        assert(f.text.take(f.at) + seq![c] + f.text.skip(f.at + 1) =~= f.text.update(f.at, c));
        lemma_rest(f.text.update(f.at, c), f.at);
    }
}

// ─── Inserting ────────────────────────────────────────────────────────────────

/// `i`, `a`, `I` and `A` open insert mode and change nothing else: before the caret,
/// behind the character under it, at the first non-blank of its line, and at the end of
/// its line.
#[verifier::rlimit(40)]
pub proof fn law_where_inserting_begins(f: Field, b: int, e: int, keys: Keys, now: u64)
    requires
        idle(f),
        line_begins_at(f.text, f.at, b),
        line_ends_at(f.text, f.at, e),
    ensures
        ({
            let i = after(f, 'i', keys, now);
            let a = after(f, 'a', keys, now);
            let first = after(f, 'I', keys, now);
            let last = after(f, 'A', keys, now);
            &&& i.insert && i.text == f.text && i.at == f.at
            &&& a.insert && a.text == f.text && a.at == if f.at < f.text.len() {
                f.at + 1
            } else {
                f.at
            }
            &&& first.insert && first.text == f.text && is_first_non_blank(f.text, b, e, first.at)
            &&& last.insert && last.text == f.text && last.at == e
            &&& i.register == f.register && a.register == f.register
            &&& first.register == f.register && last.register == f.register
            &&& i.history == f.history && a.history == f.history
            &&& first.history == f.history && last.history == f.history
            &&& !i.saved && !a.saved && !first.saved && !last.saved
        }),
{
    lemma_line_ends(f.text, f.at, e);
    lemma_line_begins(f.text, f.at, b);
    lemma_blanks(f.text, b, e);
}

/// `k` is the first character of the line from `b` to `e` that is no white space, or
/// the line's start where there is none.
pub open spec fn is_first_non_blank(s: Seq<char>, b: int, e: int, k: int) -> bool {
    ||| b <= k < e && !white(s[k]) && forall|j: int| b <= j < k ==> white(#[trigger] s[j])
    ||| k == b && forall|j: int| b <= j < e ==> white(#[trigger] s[j])
}

proof fn lemma_blanks(s: Seq<char>, i: int, end: int)
    requires
        0 <= i <= end <= s.len(),
    ensures
        i <= non_white_from(s, i, end) <= end,
        non_white_from(s, i, end) < end ==> !white(s[non_white_from(s, i, end)]),
        forall|j: int| i <= j < non_white_from(s, i, end) ==> white(#[trigger] s[j]),
    decreases end - i,
{
    if i < end && white(s[i]) {
        lemma_blanks(s, i + 1, end);
    }
}

/// A letter typed in insert mode stands before the caret, which follows it; nothing
/// else of the text changes. Backspace takes back the character before the caret, Delete
/// the one behind it.
#[verifier::rlimit(40)]
pub proof fn law_typing(f: Field, c: char, keys: Keys, now: u64)
    requires
        in_text(f),
        f.insert,
    ensures
        !escapes(f, keys, c, now) ==> {
            let g = after(f, c, keys, now);
            &&& g.text == f.text.take(f.at) + seq![c] + f.text.skip(f.at)
            &&& g.at == f.at + 1 && g.insert && g.register == f.register
            &&& pressed(f, letter(c), keys, now).1 == Applied::Yes
        },
        ({
            let back = pressed(
                f,
                KeyEvent { code: KeyCode::Backspace, control: false, alt: false },
                keys,
                now,
            ).0;
            let delete = pressed(
                f,
                KeyEvent { code: KeyCode::Delete, control: false, alt: false },
                keys,
                now,
            ).0;
            &&& back.insert && delete.insert
            &&& back.register == f.register && delete.register == f.register
            &&& f.at > 0 ==> back.text == f.text.take(f.at - 1) + f.text.skip(f.at) && back.at
                == f.at - 1
            &&& f.at == 0 ==> back.text == f.text && back.at == 0
            &&& f.at < f.text.len() ==> delete.text == f.text.take(f.at) + f.text.skip(f.at + 1)
                && delete.at == f.at
            &&& f.at == f.text.len() ==> delete.text == f.text && delete.at == f.at
        }),
{
    if f.at > 0 {
        assert(f.text.take(f.at - 1) + Seq::empty() + f.text.skip(f.at) =~= f.text.take(f.at - 1)
            + f.text.skip(f.at));
    }
    if f.at < f.text.len() {
        assert(f.text.take(f.at) + Seq::empty() + f.text.skip(f.at + 1) =~= f.text.take(f.at)
            + f.text.skip(f.at + 1));
    }
}

/// Backspace in normal mode takes away the character before the caret.
pub proof fn law_backspace_in_normal_mode(f: Field, keys: Keys, now: u64)
    requires
        in_text(f),
        !f.insert,
    ensures
        ({
            let g = pressed(
                f,
                KeyEvent { code: KeyCode::Backspace, control: false, alt: false },
                keys,
                now,
            ).0;
            &&& !g.insert && g.register == f.register && g.cmd is None
            &&& f.at > 0 ==> g.text == f.text.take(f.at - 1) + f.text.skip(f.at) && g.at == rest_of(
                g.text,
                f.at - 1,
            )
            &&& f.at == 0 ==> g.text == f.text
        }),
{
    if f.at > 0 {
        let left = f.text.take(f.at - 1) + f.text.skip(f.at);
        assert(f.text.take(f.at - 1) + Seq::empty() + f.text.skip(f.at) =~= left);
        lemma_rest(left, f.at - 1);
    }
}

/// Escape leaves insert mode with the text as it is, and leaves the field from normal
/// mode; it takes back nothing.
pub proof fn law_escape(f: Field, keys: Keys, now: u64)
    requires
        in_text(f),
    ensures
        ({
            let (g, r) = pressed(
                f,
                KeyEvent { code: KeyCode::Esc, control: false, alt: false },
                keys,
                now,
            );
            &&& g.text == f.text && g.register == f.register && g.history == f.history
            &&& !g.insert && g.cmd is None && g.pending is None
            &&& f.insert ==> r == Applied::Yes && g.at == rest_of(f.text, f.at)
            &&& !f.insert ==> r == Applied::Exit && g.at == f.at
        }),
{
    lemma_rest(f.text, f.at);
}

/// The arrows, Home and End move the caret and change nothing else.
#[verifier::rlimit(40)]
pub proof fn law_the_arrows_move_the_caret(f: Field, keys: Keys, now: u64)
    requires
        in_text(f),
    ensures
        ({
            let left = pressed(
                f,
                KeyEvent { code: KeyCode::Left, control: false, alt: false },
                keys,
                now,
            ).0;
            let right = pressed(
                f,
                KeyEvent { code: KeyCode::Right, control: false, alt: false },
                keys,
                now,
            ).0;
            let home = pressed(
                f,
                KeyEvent { code: KeyCode::Home, control: false, alt: false },
                keys,
                now,
            ).0;
            let end = pressed(
                f,
                KeyEvent { code: KeyCode::End, control: false, alt: false },
                keys,
                now,
            ).0;
            let back = if f.at > 0 {
                f.at - 1
            } else {
                0
            };
            let on = if f.at < f.text.len() {
                f.at + 1
            } else {
                f.at
            };
            let n = f.text.len() as int;
            &&& only_moved(f, left) && only_moved(f, right) && only_moved(f, home) && only_moved(f, end)
            &&& left.at == if f.insert {
                back
            } else {
                rest_of(f.text, back)
            }
            &&& right.at == if f.insert {
                on
            } else {
                rest_of(f.text, on)
            }
            &&& home.at == 0
            &&& end.at == if f.insert {
                n
            } else {
                rest_of(f.text, n)
            }
        }),
{
    lemma_rest(f.text, if f.at > 0 {
        f.at - 1
    } else {
        0
    });
    lemma_rest(f.text, if f.at < f.text.len() {
        f.at + 1
    } else {
        f.at
    });
    lemma_rest(f.text, f.text.len() as int);
}

/// Nothing but the caret and what was half typed has changed.
pub open spec fn only_moved(f: Field, g: Field) -> bool {
    &&& g.text == f.text
    &&& g.register == f.register
    &&& g.history == f.history
    &&& g.insert == f.insert
    &&& g.saved == f.saved
    &&& g.last_find == f.last_find
}

// ─── Motions ──────────────────────────────────────────────────────────────────

/// `h`, `l`, `0`, `$`, `^` and `_` stay on the caret's line: one back, one on, its start,
/// its end and its first non-blank. An operator takes the stretch up to there.
pub proof fn law_motions_on_the_line(s: Seq<char>, i: int, b: int, e: int)
    requires
        line_begins_at(s, i, b),
        line_ends_at(s, i, e),
    ensures
        simple_motion(s, i, 'h') == Some((if b < i {
            i - 1
        } else {
            i
        }, false)),
        simple_motion(s, i, 'l') == Some((if i < e {
            i + 1
        } else {
            i
        }, false)),
        simple_motion(s, i, '0') == Some((b, false)),
        simple_motion(s, i, '$') == Some((e, false)),
        simple_motion(s, i, '^') matches Some(p) && is_first_non_blank(s, b, e, p.0) && !p.1,
        simple_motion(s, i, '_') == simple_motion(s, i, '^'),
{
    lemma_line_ends(s, i, e);
    lemma_line_begins(s, i, b);
    lemma_blanks(s, b, e);
}

proof fn lemma_run_ahead(s: Seq<char>, i: int, words: Words, run: Class)
    requires
        0 <= i <= s.len(),
    ensures
        i <= run_end(s, i, words, run) <= s.len(),
        run_end(s, i, words, run) < s.len() ==> class_of(s[run_end(s, i, words, run)], words)
            != run,
        forall|k: int|
            i <= k < run_end(s, i, words, run) ==> class_of(#[trigger] s[k], words) == run,
    decreases s.len() - i,
{
    if i < s.len() && class_of(s[i], words) == run {
        lemma_run_ahead(s, i + 1, words, run);
    }
}

proof fn lemma_run_behind(s: Seq<char>, i: int, words: Words, run: Class)
    requires
        0 <= i <= s.len(),
    ensures
        0 <= run_start(s, i, words, run) <= i,
        run_start(s, i, words, run) > 0 ==> class_of(s[run_start(s, i, words, run) - 1], words)
            != run,
        forall|k: int|
            run_start(s, i, words, run) <= k < i ==> class_of(#[trigger] s[k], words) == run,
    decreases i,
{
    if i > 0 && class_of(s[i - 1], words) == run {
        lemma_run_behind(s, i - 1, words, run);
    }
}

proof fn lemma_sorts(big: bool)
    ensures
        forall|a: char, b: char|
            (class_of(
                a,
                if big {
                    Words::Big
                } else {
                    Words::Small
                },
            ) == class_of(
                b,
                if big {
                    Words::Big
                } else {
                    Words::Small
                },
            )) == (#[trigger] sort_of(a, big) == #[trigger] sort_of(b, big)),
        forall|a: char|
            (class_of(
                a,
                if big {
                    Words::Big
                } else {
                    Words::Small
                },
            ) == Class::Space) == (#[trigger] sort_of(a, big) == 0),
{
}

/// `w` goes to where the next word begins: past the rest of the word or the signs under
/// the caret, past the white space behind it, and no further. `W` tells words apart by
/// white space alone. At the end both stay.
pub proof fn law_a_word_on(s: Seq<char>, i: int, c: char, big: bool)
    requires
        0 <= i <= s.len(),
        c == if big {
            'W'
        } else {
            'w'
        },
    ensures
            simple_motion(s, i, c) matches Some((to, inclusive)) && !inclusive && i <= to <= s.len()
                && (i < s.len() ==> i < to) && (to < s.len() ==> !white(s[to])) && exists|m: int|
                i <= m <= to && (i < s.len() ==> all_sort(s, i, m, sort_of(s[i], big), big))
                    && #[trigger] all_sort(s, m, to, 0, big) && (i < s.len() && m < s.len()
                    && sort_of(s[i], big) != 0 ==> sort_of(s[m], big) != sort_of(s[i], big)),
{
    let words = if big {
        Words::Big
    } else {
        Words::Small
    };
    lemma_sorts(big);
    if i < s.len() {
        let run = class_of(s[i], words);
        lemma_run_ahead(s, i, words, run);
        lemma_run_ahead(s, i + 1, words, run);
        let m = if run == Class::Space {
            i
        } else {
            run_end(s, i, words, run)
        };
        lemma_run_ahead(s, m, words, Class::Space);
        let to = run_end(s, m, words, Class::Space);
        assert forall|k: int| i <= k < m implies sort_of(#[trigger] s[k], big) == sort_of(
            s[i],
            big,
        ) by {
            assert(class_of(s[k], words) == run);
        }
        assert forall|k: int| m <= k < to implies sort_of(#[trigger] s[k], big) == 0 by {
            assert(class_of(s[k], words) == Class::Space);
        }
        assert(all_sort(s, i, m, sort_of(s[i], big), big));
        assert(all_sort(s, m, to, 0, big));
        if m < s.len() && run != Class::Space {
            assert(class_of(s[m], words) != run);
            assert(sort_of(s[m], big) != sort_of(s[i], big));
        }
        assert(simple_motion(s, i, c) == Some((to, false)));
        assert(i < to);
        assert(to < s.len() ==> !white(s[to]));
        assert(sort_of(s[i], big) != 0 ==> run != Class::Space);
    } else {
        assert(all_sort(s, i, i, 0, big));
    }
}

/// `e` goes to where the next word ends: past the white space behind the caret, and to
/// the last character of the word or the signs that begin there. Where only white space
/// follows it goes to the last character. `E` tells words apart by white space alone.
pub proof fn law_to_the_end_of_a_word(s: Seq<char>, i: int, c: char, big: bool)
    requires
        0 <= i < s.len(),
        c == if big {
            'E'
        } else {
            'e'
        },
    ensures
            simple_motion(s, i, c) matches Some((to, inclusive)) && inclusive && (
            all_sort(s, i + 1, s.len() as int, 0, big) && to == s.len() - 1 || exists|m: int|
                i < m <= to < s.len() && #[trigger] all_sort(s, i + 1, m, 0, big) && sort_of(
                    s[m],
                    big,
                ) != 0 && all_sort(s, m, to + 1, sort_of(s[m], big), big) && (to + 1 < s.len()
                    ==> sort_of(s[to + 1], big) != sort_of(s[m], big))),
{
    let words = if big {
        Words::Big
    } else {
        Words::Small
    };
    lemma_sorts(big);
    lemma_run_ahead(s, i + 1, words, Class::Space);
    let m = run_end(s, i + 1, words, Class::Space);
    assert forall|k: int| i + 1 <= k < m implies sort_of(#[trigger] s[k], big) == 0 by {
        assert(class_of(s[k], words) == Class::Space);
    }
    assert(all_sort(s, i + 1, m, 0, big));
    if m < s.len() {
        let run = class_of(s[m], words);
        lemma_run_ahead(s, m + 1, words, run);
        let to = run_end(s, m + 1, words, run) - 1;
        assert forall|k: int| m <= k < to + 1 implies sort_of(#[trigger] s[k], big) == sort_of(
            s[m],
            big,
        ) by {
            assert(class_of(s[k], words) == run);
        }
        assert(all_sort(s, m, to + 1, sort_of(s[m], big), big));
        if to + 1 < s.len() {
            assert(class_of(s[to + 1], words) != run);
        }
    }
}

/// `b` goes back to where a word begins: over the white space before the caret, and to
/// the first character of the word or the signs there. Where only white space stands
/// before, it goes to the start. `B` tells words apart by white space alone.
pub proof fn law_a_word_back(s: Seq<char>, i: int, c: char, big: bool)
    requires
        0 <= i <= s.len(),
        c == if big {
            'B'
        } else {
            'b'
        },
    ensures
            simple_motion(s, i, c) matches Some((to, inclusive)) && !inclusive && (all_sort(
                s,
                0,
                i,
                0,
                big,
            ) && to == 0 || exists|m: int|
                0 <= to <= m < i && #[trigger] all_sort(s, m + 1, i, 0, big) && sort_of(s[m], big)
                    != 0 && all_sort(s, to, m + 1, sort_of(s[m], big), big) && (to > 0 ==> sort_of(
                    s[to - 1],
                    big,
                ) != sort_of(s[m], big))),
{
    let words = if big {
        Words::Big
    } else {
        Words::Small
    };
    lemma_sorts(big);
    lemma_run_behind(s, i, words, Class::Space);
    let k = run_start(s, i, words, Class::Space);
    assert forall|j: int| k <= j < i implies sort_of(#[trigger] s[j], big) == 0 by {
        assert(class_of(s[j], words) == Class::Space);
    }
    if k > 0 {
        let m = k - 1;
        assert(all_sort(s, m + 1, i, 0, big));
        let run = class_of(s[m], words);
        lemma_run_behind(s, m, words, run);
        let to = run_start(s, m, words, run);
        assert forall|j: int| to <= j < m + 1 implies sort_of(#[trigger] s[j], big) == sort_of(
            s[m],
            big,
        ) by {
            assert(class_of(s[j], words) == run);
        }
        assert(all_sort(s, to, m + 1, sort_of(s[m], big), big));
        if to > 0 {
            assert(class_of(s[to - 1], words) != run);
        }
    }
}

/// A motion in normal mode moves the caret to where it leads and changes nothing else.
#[verifier::rlimit(40)]
pub proof fn law_a_motion_only_moves(f: Field, c: char, keys: Keys, now: u64)
    requires
        idle(f),
        c == 'h' || c == 'l' || c == 'w' || c == 'W' || c == 'b' || c == 'B' || c == 'e' || c == 'E'
            || c == '0' || c == '^' || c == '_' || c == '$',
    ensures
        simple_motion(f.text, f.at, c) is Some,
        only_moved(f, after(f, c, keys, now)),
        after(f, c, keys, now).cmd is None,
        after(f, c, keys, now).at == rest_of(f.text, (simple_motion(f.text, f.at, c)->0).0),
        pressed(f, letter(c), keys, now).1 == Applied::Yes,
{
    crate::edit_laws::law_motions_stay_in_the_text(f.text, f.at, c);
    lemma_rest(f.text, (simple_motion(f.text, f.at, c)->0).0);
}

/// `gg` goes to the first non-blank of the first line, `G` to that of the last.
#[verifier::rlimit(40)]
pub proof fn law_the_first_and_the_last_line(f: Field, b: int, e: int, keys: Keys, now: u64)
    requires
        idle(f),
    ensures
        only_moved(f, after_two(f, 'g', 'g', keys, now)),
        only_moved(f, after(f, 'G', keys, now)),
        line_ends_at(f.text, 0, e) ==> exists|k: int| #[trigger]
            is_first_non_blank(f.text, 0, e, k) && after_two(f, 'g', 'g', keys, now).at == rest_of(
                f.text,
                k,
            ),
        line_begins_at(f.text, f.text.len() as int, b) ==> exists|k: int| #[trigger]
            is_first_non_blank(f.text, b, f.text.len() as int, k) && after(f, 'G', keys, now).at
                == rest_of(f.text, k),
{
    let n = f.text.len() as int;
    if line_ends_at(f.text, 0, e) {
        lemma_line_ends(f.text, 0, e);
        lemma_line_begins(f.text, 0, 0);
        lemma_blanks(f.text, 0, e);
        let k = first_non_blank(f.text, 0);
        assert(is_first_non_blank(f.text, 0, e, k));
        lemma_rest(f.text, k);
    }
    if line_begins_at(f.text, n, b) {
        lemma_line_begins(f.text, n, b);
        lemma_line_begins(f.text, b, b);
        lemma_line_ends(f.text, b, n);
        lemma_blanks(f.text, b, n);
        let k = first_non_blank(f.text, b);
        assert(is_first_non_blank(f.text, b, n, k));
        lemma_rest(f.text, k);
    }
}

// ─── Searching a line ─────────────────────────────────────────────────────────

/// `f` and a character go to where that character next stands behind the caret on its
/// line; `t` stops one short of it, and so looks from two places on. An operator takes
/// in the character they land on.
pub proof fn law_searching_on(s: Seq<char>, i: int, e: int, target: char, till: bool, to: int)
    requires
        0 <= i < s.len(),
        s[i] != '\n',
        line_ends_at(s, i, e),
    ensures
        ({
            let found = find_motion(s, i, FindKind { forward: true, till }, target);
            let first = if till {
                i + 2
            } else {
                i + 1
            };
            let stop = if till {
                to + 1
            } else {
                to
            };
            found == Some((to, true)) <==> first <= stop < e && s[stop] == target && forall|k: int|
                first <= k < stop ==> #[trigger] s[k] != target
        }),
        find_motion(s, i, FindKind { forward: true, till }, target) matches Some(p) ==> p.1,
{
    lemma_line_ends(s, i, e);
    let end = e;
    let first = crate::caret::lesser(i + 1, end);
    let from = if till {
        crate::caret::lesser(crate::caret::next_place(s, first), end)
    } else {
        first
    };
    lemma_char_from(s, target, from);
    let at = char_from(s, target, from);
    let stop = if till {
        to + 1
    } else {
        to
    };
    let start = if till {
        i + 2
    } else {
        i + 1
    };
    if start <= stop < e && s[stop] == target && forall|k: int|
        start <= k < stop ==> #[trigger] s[k] != target {
        assert(from == start);
        if at < stop {
            assert(s[at] != target);
        }
        if at > stop {
            assert(s[stop] != target);
        }
    }
}

/// `F` and a character go back to where that character last stood before the caret on
/// its line; `T` stops one short of it.
pub proof fn law_searching_back(s: Seq<char>, i: int, b: int, target: char, till: bool, to: int)
    requires
        line_begins_at(s, i, b),
    ensures
        ({
            let found = find_motion(s, i, FindKind { forward: false, till }, target);
            let stop = if till {
                to - 1
            } else {
                to
            };
            found == Some((to, false)) <==> b <= stop < i && s[stop] == target && forall|k: int|
                stop < k < i ==> #[trigger] s[k] != target
        }),
        find_motion(s, i, FindKind { forward: false, till }, target) matches Some(p) ==> !p.1,
{
    lemma_line_begins(s, i, b);
    lemma_before(s, target, b, i);
    let at = char_before(s, target, b, i);
    let stop = if till {
        to - 1
    } else {
        to
    };
    if b <= stop < i && s[stop] == target && forall|k: int|
        stop < k < i ==> #[trigger] s[k] != target {
        if at < stop {
            assert(s[stop] != target);
        }
        if at > stop {
            assert(s[at] != target);
        }
    }
}

proof fn lemma_before(s: Seq<char>, c: char, start: int, i: int)
    requires
        0 <= start <= i <= s.len(),
    ensures
        start - 1 <= char_before(s, c, start, i) < i || char_before(s, c, start, i) == start - 1,
        char_before(s, c, start, i) >= start ==> s[char_before(s, c, start, i)] == c,
        forall|k: int|
            start <= k < i && k > char_before(s, c, start, i) ==> #[trigger] s[k] != c,
    decreases i,
{
    if i > start && s[i - 1] != c {
        lemma_before(s, c, start, i - 1);
    }
}

/// `f`, `F`, `t` and `T` with a character move the caret to what they find and change
/// nothing else. `;` looks the same way again, `,` the other way.
#[verifier::rlimit(40)]
pub proof fn law_searches_repeat(f: Field, c: char, target: char, keys: Keys, now: u64)
    requires
        idle(f),
        c == 'f' || c == 'F' || c == 't' || c == 'T',
    ensures
        ({
            let kind = FindKind { forward: c == 'f' || c == 't', till: c == 't' || c == 'T' };
            let other = FindKind { forward: !kind.forward, ..kind };
            let g = after_two(f, c, target, keys, now);
            let again = after(g, ';', keys, now);
            let back = after(g, ',', keys, now);
            &&& g.text == f.text && g.register == f.register && g.history == f.history && !g.insert
            &&& g.at == match find_motion(f.text, f.at, kind, target) {
                Some(p) => rest_of(f.text, p.0),
                None => f.at,
            }
            &&& again.text == f.text && back.text == f.text
            &&& again.at == match find_motion(f.text, g.at, kind, target) {
                Some(p) => rest_of(f.text, p.0),
                None => g.at,
            }
            &&& back.at == match find_motion(f.text, g.at, other, target) {
                Some(p) => rest_of(f.text, p.0),
                None => g.at,
            }
        }),
{
    let kind = FindKind { forward: c == 'f' || c == 't', till: c == 't' || c == 'T' };
    let other = FindKind { forward: !kind.forward, ..kind };
    lemma_found_in_text(f.text, f.at, kind, target);
    match find_motion(f.text, f.at, kind, target) {
        Some(p) => {
            lemma_rest(f.text, p.0);
        },
        None => {},
    }
    let g = after_two(f, c, target, keys, now);
    lemma_found_in_text(f.text, g.at, kind, target);
    lemma_found_in_text(f.text, g.at, other, target);
    match find_motion(f.text, g.at, kind, target) {
        Some(p) => {
            lemma_rest(f.text, p.0);
        },
        None => {},
    }
    match find_motion(f.text, g.at, other, target) {
        Some(p) => {
            lemma_rest(f.text, p.0);
        },
        None => {},
    }
}

proof fn lemma_found_in_text(s: Seq<char>, i: int, kind: FindKind, target: char)
    requires
        0 <= i <= s.len(),
    ensures
        find_motion(s, i, kind, target) matches Some(p) ==> 0 <= p.0 <= s.len(),
{
    lemma_line_start(s, i);
    lemma_char_from(s, '\n', i);
    if kind.forward {
        let first = crate::caret::lesser(crate::caret::next_place(s, i), line_end(s, i));
        lemma_char_from(s, target, first);
        let second = crate::caret::lesser(crate::caret::next_place(s, first), line_end(s, i));
        lemma_char_from(s, target, second);
    } else {
        lemma_before(s, target, line_start(s, i), i);
    }
}

// ─── Operators ────────────────────────────────────────────────────────────────

/// The stretch between a caret and where a motion leads, with the character there where
/// the motion takes it in.
pub open spec fn stretch(s: Seq<char>, i: int, to: int, inclusive: bool) -> (int, int) {
    if to < i {
        (to, i)
    } else if inclusive && to < s.len() {
        (i, to + 1)
    } else {
        (i, to)
    }
}

/// An operator has run over the stretch from `a` to `b`: `d` and `c` leave the text
/// around it, `y` leaves all of it; the stretch is in the register unless it is empty,
/// the caret is where it began, and only `c` inserts.
pub open spec fn ran_over(f: Field, g: Field, op: Op, a: int, b: int) -> bool {
    &&& g.text == if op == Op::Yank {
        f.text
    } else {
        f.text.take(a) + f.text.skip(b)
    }
    &&& g.register == if a < b {
        f.text.subrange(a, b)
    } else {
        f.register
    }
    &&& g.insert == (op == Op::Change)
    &&& g.at == if op == Op::Change {
        a
    } else {
        rest_of(g.text, a)
    }
    &&& g.cmd is None
    &&& op == Op::Yank ==> g.history == f.history
}

proof fn lemma_ran_over(f: Field, op: Op, to: int, inclusive: bool)
    requires
        in_text(f),
        !f.insert,
        f.cmd is None,
        0 <= to <= f.text.len(),
    ensures
        ({
            let (a, b) = stretch(f.text, f.at, to, inclusive);
            ran_over(f, crate::edit::operated_to(f, op, Some((to, inclusive))), op, a, b)
        }),
{
    let (a, b) = stretch(f.text, f.at, to, inclusive);
    let left = f.text.take(a) + f.text.skip(b);
    assert(f.text.take(a) + Seq::empty() + f.text.skip(b) =~= left);
    lemma_rest(left, a);
    lemma_rest(f.text, a);
    if a == b {
        assert(left =~= f.text);
    }
}

/// `d`, `c` and `y` before a motion run over the stretch between the caret and where the
/// motion leads. `cw` and `cW` are told apart below.
#[verifier::rlimit(40)]
pub proof fn law_an_operator_runs_over_its_motion(f: Field, op: Op, c: char, keys: Keys, now: u64)
    requires
        idle(f),
        c == 'h' || c == 'l' || c == 'w' || c == 'W' || c == 'b' || c == 'B' || c == 'e' || c == 'E'
            || c == '0' || c == '^' || c == '_' || c == '$',
        op == Op::Change && (c == 'w' || c == 'W') ==> f.at == f.text.len() || white(f.text[f.at]),
    ensures
        ({
            let key = match op {
                Op::Delete => 'd',
                Op::Change => 'c',
                Op::Yank => 'y',
            };
            let p = simple_motion(f.text, f.at, c)->0;
            let (a, b) = stretch(f.text, f.at, p.0, p.1);
            ran_over(f, after_two(f, key, c, keys, now), op, a, b)
        }),
{
    crate::edit_laws::law_motions_stay_in_the_text(f.text, f.at, c);
    let p = simple_motion(f.text, f.at, c)->0;
    let g = Field { pending: None, cmd: None, ..f };
    lemma_ran_over(g, op, p.0, p.1);
}

/// `cw` on a word changes that word and leaves the white space behind it: it runs from
/// the caret over every character of the same sort.
#[verifier::rlimit(40)]
pub proof fn law_changing_a_word(f: Field, big: bool, to: int, keys: Keys, now: u64)
    requires
        idle(f),
        f.at < to <= f.text.len(),
        !white(f.text[f.at]),
        all_sort(f.text, f.at, to, sort_of(f.text[f.at], big), big),
        to < f.text.len() ==> sort_of(f.text[to], big) != sort_of(f.text[f.at], big),
    ensures
        ran_over(
            f,
            after_two(
                f,
                'c',
                if big {
                    'W'
                } else {
                    'w'
                },
                keys,
                now,
            ),
            Op::Change,
            f.at,
            to,
        ),
{
    let words = if big {
        Words::Big
    } else {
        Words::Small
    };
    lemma_sorts(big);
    let s = f.text;
    let run = class_of(s[f.at], words);
    lemma_run_ahead(s, f.at, words, run);
    let k = run_end(s, f.at, words, run);
    assert(k == to) by {
        if k < to {
            assert(sort_of(s[k], big) == sort_of(s[f.at], big));
        }
        if to < k {
            assert(class_of(s[to], words) == run);
            assert(sort_of(s[to], big) == sort_of(s[f.at], big));
        }
    }
    let g = Field { pending: None, cmd: None, ..f };
    assert(run_last(s, f.at, words) == to - 1);
    lemma_ran_over(g, Op::Change, to - 1, true);
}

/// An operator before `f`, `F`, `t` or `T` runs over the stretch up to what is found,
/// and over nothing where nothing is. Before `;` and `,` it uses the last search.
#[verifier::rlimit(40)]
pub proof fn law_an_operator_runs_over_a_search(
    f: Field,
    op: Op,
    c: char,
    target: char,
    keys: Keys,
    now: u64,
)
    requires
        idle(f),
        c == 'f' || c == 'F' || c == 't' || c == 'T',
    ensures
        ({
            let key = match op {
                Op::Delete => 'd',
                Op::Change => 'c',
                Op::Yank => 'y',
            };
            let kind = FindKind { forward: c == 'f' || c == 't', till: c == 't' || c == 'T' };
            let g = after(after_two(f, key, c, keys, now), target, keys, now);
            match find_motion(f.text, f.at, kind, target) {
                Some(p) => {
                    let (a, b) = stretch(f.text, f.at, p.0, p.1);
                    ran_over(f, g, op, a, b)
                },
                None => g.text == f.text && g.register == f.register && g.at == f.at && !g.insert,
            }
        }),
        f.last_find matches Some((kind, sought)) ==> {
            let key = match op {
                Op::Delete => 'd',
                Op::Change => 'c',
                Op::Yank => 'y',
            };
            let g = after_two(f, key, ';', keys, now);
            match find_motion(f.text, f.at, kind, sought) {
                Some(p) => {
                    let (a, b) = stretch(f.text, f.at, p.0, p.1);
                    ran_over(f, g, op, a, b)
                },
                None => g.text == f.text && g.register == f.register && g.at == f.at && !g.insert,
            }
        },
{
    let kind = FindKind { forward: c == 'f' || c == 't', till: c == 't' || c == 'T' };
    let h = Field { pending: None, cmd: None, last_find: Some((kind, target)), ..f };
    lemma_found_in_text(f.text, f.at, kind, target);
    match find_motion(f.text, f.at, kind, target) {
        Some(p) => {
            lemma_ran_over(h, op, p.0, p.1);
        },
        None => {},
    }
    match f.last_find {
        Some((kind, sought)) => {
            lemma_found_in_text(f.text, f.at, kind, sought);
            match find_motion(f.text, f.at, kind, sought) {
                Some(p) => {
                    lemma_ran_over(Field { pending: None, cmd: None, ..f }, op, p.0, p.1);
                },
                None => {},
            }
        },
        None => {},
    }
}

/// A key that means nothing in normal mode is swallowed: the field stays as it is. So
/// does a key that cannot finish what is half typed.
#[verifier::rlimit(40)]
pub proof fn law_a_stray_key_does_nothing(f: Field, c: char, keys: Keys, now: u64)
    requires
        in_text(f),
        !f.insert,
        !"hlwWbBeE0^_$udcyrgfFtTYGpP~;,jkiaIAxsDCS"@.contains(c),
    ensures
        f.cmd is None ==> pressed(f, letter(c), keys, now) == (
            Field { pending: None, ..f },
            Applied::Yes,
        ),
        f.cmd matches Some(Pending::Operator(_)) ==> pressed(f, letter(c), keys, now) == (
            Field { pending: None, cmd: None, ..f },
            Applied::Yes,
        ),
        f.cmd == Some(Pending::G) ==> pressed(f, letter(c), keys, now) == (
            Field { pending: None, cmd: None, ..f },
            Applied::Yes,
        ),
{
    let table = "hlwWbBeE0^_$udcyrgfFtTYGpP~;,jkiaIAxsDCS"@;
    reveal_strlit("hlwWbBeE0^_$udcyrgfFtTYGpP~;,jkiaIAxsDCS");
    assert forall|k: int| 0 <= k < table.len() implies #[trigger] table[k] != c by {
        assert(table.contains(table[k]));
    }
    assert(table[0] != c && table[1] != c && table[2] != c && table[3] != c && table[4] != c
        && table[5] != c && table[6] != c && table[7] != c && table[8] != c && table[9] != c);
    assert(table[10] != c && table[11] != c && table[12] != c && table[13] != c && table[14] != c
        && table[15] != c && table[16] != c && table[17] != c && table[18] != c && table[19] != c);
    assert(table[20] != c && table[21] != c && table[22] != c && table[23] != c && table[24] != c
        && table[25] != c && table[26] != c && table[27] != c && table[28] != c && table[29] != c);
    assert(table[30] != c && table[31] != c && table[32] != c && table[33] != c && table[34] != c
        && table[35] != c && table[36] != c && table[37] != c && table[38] != c && table[39] != c);
}

/// `j` and `k` in normal mode leave a one-line field for the next and the previous row,
/// with nothing in it changed.
#[verifier::rlimit(40)]
pub proof fn law_j_and_k_leave_for_other_rows(f: Field, keys: Keys, now: u64)
    requires
        idle(f),
    ensures
        pressed(f, letter('j'), keys, now) == (Field { pending: None, ..f }, Applied::FocusNext),
        pressed(f, letter('k'), keys, now) == (Field { pending: None, ..f }, Applied::FocusPrev),
{
}

// ─── Several lines ────────────────────────────────────────────────────────────

/// Enter types a newline in the body.
pub proof fn law_enter_types_a_newline(f: Field, keys: Keys, now: u64)
    requires
        in_text(f),
        f.insert,
    ensures
        ({
            let (g, r) = pressed_multiline(
                f,
                KeyEvent { code: KeyCode::Enter, control: false, alt: false },
                keys,
                now,
            );
            &&& g.text == f.text.take(f.at) + seq!['\n'] + f.text.skip(f.at)
            &&& g.at == f.at + 1 && g.insert && r == Applied::Yes && g.register == f.register
        }),
{
}

/// In normal mode Enter goes to the first non-blank of the next line, and nowhere from the
/// last. Nothing but the caret changes.
pub proof fn law_enter_goes_to_the_next_line(f: Field, e: int, below: int, keys: Keys, now: u64)
    requires
        in_text(f),
        !f.insert,
        line_ends_at(f.text, f.at, e),
        e < f.text.len() ==> line_ends_at(f.text, e + 1, below),
    ensures
        ({
            let (g, r) = pressed_multiline(
                f,
                KeyEvent { code: KeyCode::Enter, control: false, alt: false },
                keys,
                now,
            );
            &&& only_moved(f, g) && r == Applied::Yes
            &&& e == f.text.len() ==> g.at == f.at
            &&& e < f.text.len() ==> exists|k: int| #[trigger]
                is_first_non_blank(f.text, e + 1, below, k) && g.at == rest_of(f.text, k)
        }),
{
    let s = f.text;
    lemma_line_ends(s, f.at, e);
    if e < s.len() {
        lemma_line_ends(s, e + 1, below);
        let to = line_down(s, f.at)->0;
        crate::caret::lemma_line_start(s, f.at);
        assert(e + 1 <= to <= below);
        assert(line_begins_at(s, to, e + 1));
        assert(line_ends_at(s, to, below));
        lemma_line_begins(s, to, e + 1);
        lemma_line_ends(s, to, below);
        lemma_blanks(s, e + 1, below);
        let k = first_non_blank(s, to);
        assert(is_first_non_blank(s, e + 1, below, k));
        lemma_rest(s, k);
    }
}

/// A place one line down or up keeps its column, or is at the end of a line too short
/// for it.
pub open spec fn same_column(s: Seq<char>, i: int, b: int, start: int, end: int, to: int) -> bool {
    to == if start + (i - b) < end {
        start + (i - b)
    } else {
        end
    }
}

/// Down, and `j` in normal mode, go to the same column of the next line; Up and `k` to
/// that of the line before. On the last and on the first line they leave for the next
/// and the previous row. Nothing but the caret changes.
#[verifier::rlimit(40)]
pub proof fn law_moving_by_line(
    f: Field,
    b: int,
    e: int,
    below: int,
    above: int,
    keys: Keys,
    now: u64,
)
    requires
        in_text(f),
        line_begins_at(f.text, f.at, b),
        line_ends_at(f.text, f.at, e),
    ensures
        ({
            let (down, went_down) = pressed_multiline(
                f,
                KeyEvent { code: KeyCode::Down, control: false, alt: false },
                keys,
                now,
            );
            let (up, went_up) = pressed_multiline(
                f,
                KeyEvent { code: KeyCode::Up, control: false, alt: false },
                keys,
                now,
            );
            &&& only_moved(f, down) && only_moved(f, up)
            &&& e == f.text.len() ==> went_down == Applied::FocusNext && down.at == f.at
            &&& e < f.text.len() && line_ends_at(f.text, e + 1, below) ==> went_down == Applied::Yes
                && exists|to: int| #[trigger]
                same_column(f.text, f.at, b, e + 1, below, to) && down.at == if f.insert {
                    to
                } else {
                    rest_of(f.text, to)
                }
            &&& b == 0 ==> went_up == Applied::FocusPrev && up.at == f.at
            &&& b > 0 && line_begins_at(f.text, b - 1, above) ==> went_up == Applied::Yes
                && exists|to: int| #[trigger]
                same_column(f.text, f.at, b, above, b - 1, to) && up.at == if f.insert {
                    to
                } else {
                    rest_of(f.text, to)
                }
            &&& !f.insert ==> pressed_multiline(f, letter('j'), keys, now) == (down, went_down)
            &&& !f.insert ==> pressed_multiline(f, letter('k'), keys, now) == (up, went_up)
        }),
{
    let s = f.text;
    lemma_line_ends(s, f.at, e);
    lemma_line_begins(s, f.at, b);
    if e < s.len() && line_ends_at(s, e + 1, below) {
        lemma_line_ends(s, e + 1, below);
        let to = line_down(s, f.at)->0;
        assert(same_column(s, f.at, b, e + 1, below, to));
        lemma_rest(s, to);
    }
    if b > 0 && line_begins_at(s, b - 1, above) {
        lemma_line_begins(s, b - 1, above);
        assert(line_ends_at(s, above, b - 1));
        lemma_line_ends(s, above, b - 1);
        let to = line_up(s, f.at)->0;
        assert(same_column(s, f.at, b, above, b - 1, to));
        lemma_rest(s, to);
    }
}

// ─── Values and their carets ──────────────────────────────────────────────────

/// A caret kept in bytes is at the character it was left at.
pub proof fn law_the_caret_is_where_it_was_left(s: Seq<char>, i: int)
    requires
        0 <= i <= s.len(),
    ensures
        snap(s, offset(s, i)) == i,
{
    crate::caret::lemma_snap(s, offset(s, i));
    let k = snap(s, offset(s, i));
    if k < i {
        assert(offset(s, i) > offset(s, i));
    }
    if i < k {
        lemma_offsets_rise(s, i, k);
    }
}

proof fn lemma_offsets_rise(s: Seq<char>, i: int, k: int)
    requires
        0 <= i < k <= s.len(),
    ensures
        offset(s, i) < offset(s, k),
    decreases k,
{
    assert(s.take(k).drop_last() =~= s.take(k - 1));
    assert(size(s.take(k)) == size(s.take(k - 1)) + crate::text::width(s[k - 1]));
    if i < k - 1 {
        lemma_offsets_rise(s, i, k - 1);
    }
}

/// A key does to a value and its edit what it does to the field that they show: the text,
/// the caret, the mode, the history, what is half typed and the register all go in, and
/// all come out.
#[verifier::rlimit(40)]
pub proof fn law_a_key_goes_to_the_value_and_its_edit(
    value: Seq<char>,
    edit: EditView,
    i: int,
    register: Seq<char>,
    key: KeyEvent,
    keys: Keys,
    now: u64,
)
    requires
        0 <= i <= value.len(),
        edit.caret == offset(value, i),
        !key.control && !key.alt,
    ensures
        ({
            let f = Field {
                text: value,
                at: i,
                insert: edit.insert,
                pending: edit.pending,
                saved: edit.saved,
                history: edit.history,
                cmd: edit.cmd,
                last_find: edit.last_find,
                register,
            };
            let (g, r) = pressed(f, key, keys, now);
            let (text, e, held, s) = key_applied(value, edit, register, key, keys, now);
            let (h, t) = pressed_multiline(f, key, keys, now);
            let (body, m, kept, u) = multiline_key_applied(value, edit, register, key, keys, now);
            &&& text == g.text && held == g.register && s == r
            &&& e.caret == offset(g.text, g.at) && e.insert == g.insert && e.pending == g.pending
            &&& e.saved == g.saved && e.history == g.history && e.cmd == g.cmd
            &&& e.last_find == g.last_find
            &&& body == h.text && kept == h.register && u == t
            &&& m.caret == offset(h.text, h.at) && m.insert == h.insert && m.pending == h.pending
            &&& m.saved == h.saved && m.history == h.history && m.cmd == h.cmd
            &&& m.last_find == h.last_find
        }),
{
    law_the_caret_is_where_it_was_left(value, i);
}

/// A paste stands whole at the caret, which follows it; the text around it stays.
pub proof fn law_a_paste_is_put_at_the_caret(value: Seq<char>, edit: EditView, i: int, text: Seq<char>)
    requires
        0 <= i <= value.len(),
        edit.caret == offset(value, i),
    ensures
        ({
            let (after, e) = pasted(value, edit, text);
            &&& after == value.take(i) + text + value.skip(i)
            &&& e.caret == offset(after, i + text.len())
            &&& e.insert == edit.insert && e.pending is None
        }),
{
    law_the_caret_is_where_it_was_left(value, i);
}

} // verus!
