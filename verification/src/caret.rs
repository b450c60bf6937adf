//! Where a caret can be in a text, and where motions take it.
//!
//! Places are counted in characters: `0` is before the first, `s.len()` behind the
//! last. Carets are kept in bytes; [`offset`] and [`snap`] go between the two.
use vstd::prelude::*;
use vstd::string::*;
use vstd::utf8::*;

use crate::text::{char_from, char_width, chars_of, find_char, is_white, white, width};
use crate::unicode::{alphanumeric, is_alphanumeric};

verus! {

// ─── Bytes and characters ─────────────────────────────────────────────────────

/// The bytes a text takes in UTF-8.
pub open spec fn size(s: Seq<char>) -> nat
    decreases s.len(),
{
    if s.len() == 0 {
        0
    } else {
        size(s.drop_last()) + width(s.last())
    }
}

/// The byte offset of the place `i` in `s`.
pub open spec fn offset(s: Seq<char>, i: int) -> nat {
    size(s.take(i))
}

/// The last place in `s` whose offset is not beyond `caret`.
pub open spec fn snap(s: Seq<char>, caret: nat) -> int
    decreases s.len(),
{
    if s.len() == 0 {
        0
    } else if size(s) <= caret {
        s.len() as int
    } else {
        snap(s.drop_last(), caret)
    }
}

/// The character that begins exactly at `caret`.
pub open spec fn place_of(s: Seq<char>, caret: nat) -> Option<int> {
    let i = snap(s, caret);
    if i < s.len() && offset(s, i) == caret {
        Some(i)
    } else {
        None
    }
}

pub proof fn lemma_snap(s: Seq<char>, caret: nat)
    ensures
        0 <= snap(s, caret) <= s.len(),
        offset(s, snap(s, caret)) <= caret,
        forall|j: int| snap(s, caret) < j <= s.len() ==> #[trigger] offset(s, j) > caret,
    decreases s.len(),
{
    if s.len() == 0 {
        assert(s.take(0) =~= s);
    } else if size(s) <= caret {
        assert(s.take(s.len() as int) =~= s);
    } else {
        let front = s.drop_last();
        lemma_snap(front, caret);
        let i = snap(front, caret);
        assert(front.take(i) =~= s.take(i));
        assert forall|j: int| i < j <= s.len() implies #[trigger] offset(s, j) > caret by {
            if j < s.len() {
                assert(front.take(j) =~= s.take(j));
                assert(offset(front, j) > caret);
            } else {
                assert(s.take(j) =~= s);
            }
        }
    }
}

/// Offsets grow with places.
pub proof fn lemma_offset_grows(s: Seq<char>, i: int, j: int)
    requires
        0 <= i <= j <= s.len(),
    ensures
        offset(s, i) + (j - i) <= offset(s, j),
        offset(s, j) <= size(s),
    decreases j - i, s.len() - j,
{
    if i < j {
        lemma_offset_grows(s, i, j - 1);
        lemma_offset_grows(s, j, j);
        assert(s.take(j).drop_last() =~= s.take(j - 1));
    } else if j < s.len() {
        lemma_offset_grows(s, j + 1, j + 1);
        assert(s.take(j + 1).drop_last() =~= s.take(j));
    } else {
        assert(s.take(j) =~= s);
    }
}

proof fn lemma_size_concat(a: Seq<char>, b: Seq<char>)
    ensures
        size(a + b) == size(a) + size(b),
    decreases b.len(),
{
    if b.len() == 0 {
        assert(a + b =~= a);
    } else {
        assert((a + b).drop_last() =~= a + b.drop_last());
        lemma_size_concat(a, b.drop_last());
    }
}

proof fn lemma_size_is_utf8(s: Seq<char>)
    ensures
        size(s) == encode_utf8(s).len(),
    decreases s.len(),
{
    if s.len() > 0 {
        let first = s.take(1);
        let rest = s.drop_first();
        assert(s =~= first + rest);
        lemma_size_concat(first, rest);
        lemma_size_is_utf8(rest);
        assert(first.drop_last() =~= Seq::empty());
        assert(size(first.drop_last()) == 0);
        assert(size(first) == width(s[0]));
        char_is_scalar(s[0]);
        assert(encode_scalar(s[0] as u32).len() == width(s[0]));
    }
}

/// The bytes a string takes.
pub fn byte_length(s: &str) -> (n: usize)
    ensures
        n == size(s@),
{
    proof {
        lemma_size_is_utf8(s@);
    }
    s.as_bytes().len()
}

/// The byte offset of a place.
pub(crate) fn offset_of(v: &Vec<char>, i: usize) -> (n: usize)
    requires
        i <= v.len(),
        size(v@) <= usize::MAX,
    ensures
        n == offset(v@, i as int),
{
    let mut n: usize = 0;
    let mut k: usize = 0;
    proof {
        assert(v@.take(0).len() == 0);
    }
    while k < i
        invariant
            k <= i <= v.len(),
            size(v@) <= usize::MAX,
            n == offset(v@, k as int),
        decreases i - k,
    {
        proof {
            assert(v@.take(k + 1).drop_last() =~= v@.take(k as int));
            lemma_offset_grows(v@, k + 1, k + 1);
        }
        n = n + char_width(v[k]);
        k = k + 1;
    }
    n
}

/// The last place whose offset is not beyond a caret.
pub(crate) fn snap_to(v: &Vec<char>, caret: usize) -> (i: usize)
    requires
        size(v@) <= usize::MAX,
    ensures
        i == snap(v@, caret as nat),
        i <= v.len(),
{
    let mut n: usize = 0;
    let mut i: usize = 0;
    proof {
        assert(v@.take(0).len() == 0);
    }
    while i < v.len()
        invariant_except_break
            true,
        invariant
            i <= v.len(),
            size(v@) <= usize::MAX,
            n == offset(v@, i as int),
            n <= caret,
        ensures
            i < v.len() ==> offset(v@, i + 1) > caret,
        decreases v.len() - i,
    {
        let w: usize = char_width(v[i]);
        proof {
            assert(v@.take(i + 1).drop_last() =~= v@.take(i as int));
            lemma_offset_grows(v@, i + 1, i + 1);
        }
        if w > caret - n {
            break;
        }
        n = n + w;
        i = i + 1;
    }
    proof {
        lemma_snap(v@, caret as nat);
        let k = snap(v@, caret as nat);
        if k < i {
            assert(offset(v@, i as int) > caret);
        } else if k > i {
            lemma_offset_grows(v@, i + 1, k);
        }
    }
    i
}

// ─── Lines ────────────────────────────────────────────────────────────────────

/// The place behind the last newline before `i`, or the start.
pub open spec fn line_start(s: Seq<char>, i: int) -> int
    decreases i,
{
    if i <= 0 {
        0
    } else if s[i - 1] == '\n' {
        i
    } else {
        line_start(s, i - 1)
    }
}

/// The place of the next newline at or after `i`, or the end.
pub open spec fn line_end(s: Seq<char>, i: int) -> int {
    char_from(s, '\n', i)
}

pub proof fn lemma_line_start(s: Seq<char>, i: int)
    requires
        0 <= i <= s.len(),
    ensures
        0 <= line_start(s, i) <= i,
        line_start(s, i) > 0 ==> s[line_start(s, i) - 1] == '\n',
        forall|j: int| line_start(s, i) <= j < i ==> #[trigger] s[j] != '\n',
    decreases i,
{
    if i > 0 && s[i - 1] != '\n' {
        lemma_line_start(s, i - 1);
    }
}

pub fn start_of_line(v: &Vec<char>, i: usize) -> (r: usize)
    requires
        i <= v.len(),
    ensures
        r == line_start(v@, i as int),
        r <= i,
        r > 0 ==> v@[r - 1] == '\n',
{
    let mut k: usize = i;
    while k > 0 && v[k - 1] != '\n'
        invariant
            k <= i <= v.len(),
            line_start(v@, k as int) == line_start(v@, i as int),
        decreases k,
    {
        k = k - 1;
    }
    k
}

pub fn end_of_line(v: &Vec<char>, i: usize) -> (r: usize)
    requires
        i <= v.len(),
    ensures
        r == line_end(v@, i as int),
        i <= r <= v.len(),
{
    find_char(v, '\n', i)
}

/// The first place from `i` on, before `end`, that is not whitespace, or `end`.
pub open spec fn non_white_from(s: Seq<char>, i: int, end: int) -> int
    decreases end - i,
{
    if i >= end {
        end
    } else if !white(s[i]) {
        i
    } else {
        non_white_from(s, i + 1, end)
    }
}

/// The first non-blank of the line `i` is on, or the line's start when it is all
/// blanks.
pub open spec fn first_non_blank(s: Seq<char>, i: int) -> int {
    let start = line_start(s, i);
    let end = line_end(s, i);
    let k = non_white_from(s, start, end);
    if k < end {
        k
    } else {
        start
    }
}

pub fn to_first_non_blank(v: &Vec<char>, i: usize) -> (r: usize)
    requires
        i <= v.len(),
    ensures
        r == first_non_blank(v@, i as int),
        r <= v.len(),
{
    let start: usize = start_of_line(v, i);
    let end: usize = end_of_line(v, i);
    let mut k: usize = start;
    while k < end && is_white(v[k])
        invariant
            start <= k <= end <= v.len(),
            non_white_from(v@, k as int, end as int) == non_white_from(
                v@,
                start as int,
                end as int,
            ),
        decreases end - k,
    {
        k = k + 1;
    }
    if k < end {
        k
    } else {
        start
    }
}

/// The start of the last line.
pub open spec fn last_line_start(s: Seq<char>) -> int {
    line_start(s, s.len() as int)
}

/// The place `column` characters into the line that starts at `start`, or that
/// line's end when it is shorter.
pub open spec fn at_column(s: Seq<char>, start: int, column: int) -> int {
    let end = line_end(s, start);
    if start + column < end {
        start + column
    } else {
        end
    }
}

/// The same column one line down; none on the last line.
pub open spec fn line_down(s: Seq<char>, i: int) -> Option<int> {
    let end = line_end(s, i);
    if end >= s.len() {
        None
    } else {
        Some(at_column(s, end + 1, i - line_start(s, i)))
    }
}

/// The same column one line up; none on the first line.
pub open spec fn line_up(s: Seq<char>, i: int) -> Option<int> {
    let start = line_start(s, i);
    if start == 0 {
        None
    } else {
        Some(at_column(s, line_start(s, start - 1), i - start))
    }
}

fn to_column(v: &Vec<char>, start: usize, column: usize) -> (r: usize)
    requires
        start <= v.len(),
    ensures
        r == at_column(v@, start as int, column as int),
        r <= v.len(),
{
    let end: usize = end_of_line(v, start);
    if column < end - start {
        start + column
    } else {
        end
    }
}

pub fn go_line_down(v: &Vec<char>, i: usize) -> (r: Option<usize>)
    requires
        i <= v.len(),
    ensures
        r is Some <==> line_down(v@, i as int) is Some,
        r matches Some(k) ==> line_down(v@, i as int) == Some(k as int) && k <= v.len(),
{
    let end: usize = end_of_line(v, i);
    if end == v.len() {
        return None;
    }
    let column: usize = i - start_of_line(v, i);
    Some(to_column(v, end + 1, column))
}

pub fn go_line_up(v: &Vec<char>, i: usize) -> (r: Option<usize>)
    requires
        i <= v.len(),
    ensures
        r is Some <==> line_up(v@, i as int) is Some,
        r matches Some(k) ==> line_up(v@, i as int) == Some(k as int) && k <= v.len(),
{
    let start: usize = start_of_line(v, i);
    if start == 0 {
        return None;
    }
    let column: usize = i - start;
    Some(to_column(v, start_of_line(v, start - 1), column))
}

/// A normal-mode caret pulled back off the end of its line, where it never rests.
/// Insert mode has no such rule, and an empty line leaves it where it is.
pub open spec fn rested(s: Seq<char>, i: int, insert: bool) -> int {
    if !insert && (i >= s.len() || s[i] == '\n') && i > line_start(s, i) {
        i - 1
    } else {
        i
    }
}

pub fn rest_on_char(v: &Vec<char>, i: usize, insert: bool) -> (r: usize)
    requires
        i <= v.len(),
    ensures
        r == rested(v@, i as int, insert),
        r <= v.len(),
{
    if insert {
        return i;
    }
    if (i == v.len() || v[i] == '\n') && i > start_of_line(v, i) {
        i - 1
    } else {
        i
    }
}

// ─── Words ────────────────────────────────────────────────────────────────────

/// Which of vim's two word shapes a motion uses: `w` treats a run of punctuation
/// as a word of its own, `W` breaks on whitespace alone.
#[derive(Debug, Clone, Copy, PartialEq, Eq, Structural)]
pub enum Words {
    Small,
    Big,
}

/// What a character is to a word motion.
#[derive(Debug, Clone, Copy, PartialEq, Eq, Structural)]
pub enum Class {
    Space,
    Word,
    Punct,
}

/// What a character is to a word motion.
pub open spec fn class_of(c: char, words: Words) -> Class {
    if white(c) {
        Class::Space
    } else if words == Words::Big || alphanumeric(c) || c == '_' {
        Class::Word
    } else {
        Class::Punct
    }
}

pub fn class(c: char, words: Words) -> (r: Class)
    ensures
        r == class_of(c, words),
{
    if is_white(c) {
        Class::Space
    } else if words == Words::Big || is_alphanumeric(c) || c == '_' {
        Class::Word
    } else {
        Class::Punct
    }
}

/// The first place from `i` on whose character is not of the class.
pub open spec fn run_end(s: Seq<char>, i: int, words: Words, run: Class) -> int
    decreases s.len() - i,
{
    if i >= s.len() {
        s.len() as int
    } else if class_of(s[i], words) != run {
        i
    } else {
        run_end(s, i + 1, words, run)
    }
}

/// The first place of the run of the class that ends before `i`.
pub open spec fn run_start(s: Seq<char>, i: int, words: Words, run: Class) -> int
    decreases i,
{
    if i <= 0 {
        0
    } else if class_of(s[i - 1], words) != run {
        i
    } else {
        run_start(s, i - 1, words, run)
    }
}

fn skip_run(v: &Vec<char>, i: usize, words: Words, run: Class) -> (r: usize)
    requires
        i <= v.len(),
    ensures
        r == run_end(v@, i as int, words, run),
        i <= r <= v.len(),
{
    let mut k: usize = i;
    while k < v.len() && class(v[k], words) == run
        invariant
            i <= k <= v.len(),
            run_end(v@, k as int, words, run) == run_end(v@, i as int, words, run),
        decreases v.len() - k,
    {
        k = k + 1;
    }
    k
}

fn skip_run_back(v: &Vec<char>, i: usize, words: Words, run: Class) -> (r: usize)
    requires
        i <= v.len(),
    ensures
        r == run_start(v@, i as int, words, run),
        r <= i,
{
    let mut k: usize = i;
    while k > 0 && class(v[k - 1], words) == run
        invariant
            k <= i <= v.len(),
            run_start(v@, k as int, words, run) == run_start(v@, i as int, words, run),
        decreases k,
    {
        k = k - 1;
    }
    k
}

/// `w`: past the current run, then past any whitespace; the end when there is no
/// next word.
pub open spec fn forward_word(s: Seq<char>, i: int, words: Words) -> int {
    if i >= s.len() {
        s.len() as int
    } else {
        let run = class_of(s[i], words);
        run_end(
            s,
            if run == Class::Space {
                i
            } else {
                run_end(s, i, words, run)
            },
            words,
            Class::Space,
        )
    }
}

/// `e`: the last character of the run that begins behind `i` and any whitespace
/// there; the last character of all when there is none; the end from there.
pub open spec fn end_word(s: Seq<char>, i: int, words: Words) -> int {
    if i >= s.len() {
        s.len() as int
    } else {
        let k = run_end(s, i + 1, words, Class::Space);
        if k >= s.len() {
            s.len() - 1
        } else {
            run_end(s, k + 1, words, class_of(s[k], words)) - 1
        }
    }
}

/// The last character of the run that `i` is on.
pub open spec fn run_last(s: Seq<char>, i: int, words: Words) -> int {
    run_end(s, i, words, class_of(s[i], words)) - 1
}

/// The last character of the run that a place is on.
pub fn go_run_last(v: &Vec<char>, i: usize, words: Words) -> (r: usize)
    requires
        i < v.len(),
    ensures
        r == run_last(v@, i as int, words),
        i <= r < v.len(),
{
    let run = class(v[i], words);
    let end: usize = skip_run(v, i + 1, words, run);
    end - 1
}

/// `b`: back over any whitespace, then to the start of the run there.
pub open spec fn back_word(s: Seq<char>, i: int, words: Words) -> int {
    let from = if i < s.len() {
        i
    } else {
        s.len() as int
    };
    let k = run_start(s, from, words, Class::Space);
    if k == 0 {
        0
    } else {
        run_start(s, k - 1, words, class_of(s[k - 1], words))
    }
}

pub fn go_forward_word(v: &Vec<char>, i: usize, words: Words) -> (r: usize)
    requires
        i <= v.len(),
    ensures
        r == forward_word(v@, i as int, words),
        i <= r <= v.len(),
{
    if i >= v.len() {
        return v.len();
    }
    let run = class(v[i], words);
    let mut k: usize = i;
    if run != Class::Space {
        k = skip_run(v, i, words, run);
    }
    skip_run(v, k, words, Class::Space)
}

pub fn go_end_word(v: &Vec<char>, i: usize, words: Words) -> (r: usize)
    requires
        i <= v.len(),
    ensures
        r == end_word(v@, i as int, words),
        i <= r <= v.len(),
{
    if i >= v.len() {
        return v.len();
    }
    let k: usize = skip_run(v, i + 1, words, Class::Space);
    if k >= v.len() {
        return v.len() - 1;
    }
    let run = class(v[k], words);
    skip_run(v, k + 1, words, run) - 1
}

pub fn go_back_word(v: &Vec<char>, i: usize, words: Words) -> (r: usize)
    requires
        i <= v.len(),
    ensures
        r == back_word(v@, i as int, words),
        r <= i,
{
    let k: usize = skip_run_back(v, i, words, Class::Space);
    if k == 0 {
        return 0;
    }
    let run = class(v[k - 1], words);
    skip_run_back(v, k - 1, words, run)
}

/// Where a motion takes a byte caret: from the character that begins there, and
/// from nowhere else.
pub open spec fn moved_caret(s: Seq<char>, from: Option<int>, to: int) -> nat {
    match from {
        Some(_) => offset(s, to),
        None => size(s),
    }
}

/// `w` on a byte caret. A caret on no character goes to the end.
pub fn word_forward(value: &str, caret: usize, words: Words) -> (r: usize)
    ensures
        r == moved_caret(
            value@,
            place_of(value@, caret as nat),
            forward_word(value@, snap(value@, caret as nat), words),
        ),
{
    let v = chars_of(value);
    let n: usize = byte_length(value);
    let i: usize = snap_to(&v, caret);
    if i < v.len() && offset_of(&v, i) == caret {
        offset_of(&v, go_forward_word(&v, i, words))
    } else {
        n
    }
}

/// `e` on a byte caret. A caret on no character goes to the end.
pub fn word_end(value: &str, caret: usize, words: Words) -> (r: usize)
    ensures
        r == moved_caret(
            value@,
            place_of(value@, caret as nat),
            end_word(value@, snap(value@, caret as nat), words),
        ),
{
    let v = chars_of(value);
    let n: usize = byte_length(value);
    let i: usize = snap_to(&v, caret);
    if i < v.len() && offset_of(&v, i) == caret {
        offset_of(&v, go_end_word(&v, i, words))
    } else {
        n
    }
}

/// `b` on a byte caret. A caret on no character walks back from the last one.
pub fn word_back(value: &str, caret: usize, words: Words) -> (r: usize)
    ensures
        r == offset(
            value@,
            back_word(
                value@,
                match place_of(value@, caret as nat) {
                    Some(i) => i,
                    None => value@.len() as int,
                },
                words,
            ),
        ),
{
    let v = chars_of(value);
    let n: usize = byte_length(value);
    let i: usize = snap_to(&v, caret);
    let from: usize = if i < v.len() && offset_of(&v, i) == caret {
        i
    } else {
        v.len()
    };
    offset_of(&v, go_back_word(&v, from, words))
}

// ─── Searching a line ─────────────────────────────────────────────────────────

/// Which way an `f`-family motion searches, and whether it stops on its target or
/// one short of it.
#[derive(Debug, Clone, Copy, PartialEq, Eq, Structural)]
pub struct FindKind {
    pub forward: bool,
    pub till: bool,
}

impl FindKind {
    /// What `,` searches: the same character the other way.
    pub fn reversed(self) -> (r: FindKind)
        ensures
            r == (FindKind { forward: !self.forward, till: self.till }),
    {
        FindKind { forward: !self.forward, till: self.till }
    }
}

/// What `f`, `F`, `t` and `T` search for.
pub open spec fn kind_of(c: char) -> FindKind {
    FindKind { forward: c == 'f' || c == 't', till: c == 't' || c == 'T' }
}

pub fn find_kind(c: char) -> (r: FindKind)
    ensures
        r == kind_of(c),
{
    FindKind { forward: c == 'f' || c == 't', till: c == 't' || c == 'T' }
}

/// The last place of `c` from `start` on before `i`, or `start - 1`.
pub open spec fn char_before(s: Seq<char>, c: char, start: int, i: int) -> int
    decreases i,
{
    if i <= start || i <= 0 {
        start - 1
    } else if s[i - 1] == c {
        i - 1
    } else {
        char_before(s, c, start, i - 1)
    }
}

/// One place on, within the text.
pub open spec fn next_place(s: Seq<char>, i: int) -> int {
    if i < s.len() {
        i + 1
    } else {
        i
    }
}

/// One place back, within the text.
pub open spec fn prev_place(i: int) -> int {
    if i > 0 {
        i - 1
    } else {
        i
    }
}

pub open spec fn lesser(a: int, b: int) -> int {
    if a < b {
        a
    } else {
        b
    }
}

pub open spec fn greater(a: int, b: int) -> int {
    if a < b {
        b
    } else {
        a
    }
}

/// Where `f`, `F`, `t` and `T` land on the line of `i`, and whether an operator
/// takes in the character they land on; none when the character is not there.
pub open spec fn find_motion(s: Seq<char>, i: int, kind: FindKind, target: char) -> Option<
    (int, bool),
> {
    let start = line_start(s, i);
    let end = line_end(s, i);
    if kind.forward {
        let first = lesser(next_place(s, i), end);
        let from = if kind.till {
            lesser(next_place(s, first), end)
        } else {
            first
        };
        let at = char_from(s, target, from);
        if at < end {
            Some(
                (
                    if kind.till {
                        prev_place(at)
                    } else {
                        at
                    },
                    true,
                ),
            )
        } else {
            None
        }
    } else {
        let at = char_before(s, target, start, i);
        if at >= start {
            Some(
                (
                    if kind.till {
                        next_place(s, at)
                    } else {
                        at
                    },
                    false,
                ),
            )
        } else {
            None
        }
    }
}

pub fn go_next(v: &Vec<char>, i: usize) -> (r: usize)
    requires
        i <= v.len(),
    ensures
        r == next_place(v@, i as int),
        i <= r <= v.len(),
{
    if i < v.len() {
        i + 1
    } else {
        i
    }
}

pub fn go_prev(i: usize) -> (r: usize)
    ensures
        r == prev_place(i as int),
        r <= i,
{
    if i > 0 {
        i - 1
    } else {
        i
    }
}

fn least_of(a: usize, b: usize) -> (r: usize)
    ensures
        r == lesser(a as int, b as int),
{
    if a < b {
        a
    } else {
        b
    }
}

pub fn go_find(v: &Vec<char>, i: usize, kind: FindKind, target: char) -> (r: Option<(usize, bool)>)
    requires
        i <= v.len(),
    ensures
        r is Some <==> find_motion(v@, i as int, kind, target) is Some,
        r matches Some(p) ==> find_motion(v@, i as int, kind, target) == Some((p.0 as int, p.1))
            && p.0 <= v.len(),
{
    let start: usize = start_of_line(v, i);
    let end: usize = end_of_line(v, i);
    if kind.forward {
        let mut from: usize = least_of(go_next(v, i), end);
        if kind.till {
            from = least_of(go_next(v, from), end);
        }
        let at: usize = find_char(v, target, from);
        if at < end {
            Some(
                (
                    if kind.till {
                        go_prev(at)
                    } else {
                        at
                    },
                    true,
                ),
            )
        } else {
            None
        }
    } else {
        let mut k: usize = i;
        while k > start && v[k - 1] != target
            invariant
                start <= k <= i <= v.len(),
                char_before(v@, target, start as int, k as int) == char_before(
                    v@,
                    target,
                    start as int,
                    i as int,
                ),
            decreases k,
        {
            k = k - 1;
        }
        if k > start {
            Some(
                (
                    if kind.till {
                        go_next(v, k - 1)
                    } else {
                        k - 1
                    },
                    false,
                ),
            )
        } else {
            None
        }
    }
}

// ─── Motions that need nothing but their key ──────────────────────────────────

/// Where a motion that needs nothing but its own key lands, and whether an operator
/// takes in the character it lands on; none when the key is no motion.
pub open spec fn simple_motion(s: Seq<char>, i: int, c: char) -> Option<(int, bool)> {
    if c == 'h' {
        Some((greater(prev_place(i), line_start(s, i)), false))
    } else if c == 'l' {
        Some((lesser(next_place(s, i), line_end(s, i)), false))
    } else if c == 'w' {
        Some((forward_word(s, i, Words::Small), false))
    } else if c == 'W' {
        Some((forward_word(s, i, Words::Big), false))
    } else if c == 'b' {
        Some((back_word(s, i, Words::Small), false))
    } else if c == 'B' {
        Some((back_word(s, i, Words::Big), false))
    } else if c == 'e' {
        Some((end_word(s, i, Words::Small), true))
    } else if c == 'E' {
        Some((end_word(s, i, Words::Big), true))
    } else if c == '0' {
        Some((line_start(s, i), false))
    } else if c == '^' || c == '_' {
        Some((first_non_blank(s, i), false))
    } else if c == '$' {
        Some((line_end(s, i), false))
    } else {
        None
    }
}

pub fn go_simple(v: &Vec<char>, i: usize, c: char) -> (r: Option<(usize, bool)>)
    requires
        i <= v.len(),
    ensures
        r is Some <==> simple_motion(v@, i as int, c) is Some,
        r matches Some(p) ==> simple_motion(v@, i as int, c) == Some((p.0 as int, p.1)) && p.0
            <= v.len(),
{
    match c {
        'h' => {
            let back: usize = go_prev(i);
            let start: usize = start_of_line(v, i);
            Some(
                (
                    if back < start {
                        start
                    } else {
                        back
                    },
                    false,
                ),
            )
        },
        'l' => Some((least_of(go_next(v, i), end_of_line(v, i)), false)),
        'w' => Some((go_forward_word(v, i, Words::Small), false)),
        'W' => Some((go_forward_word(v, i, Words::Big), false)),
        'b' => Some((go_back_word(v, i, Words::Small), false)),
        'B' => Some((go_back_word(v, i, Words::Big), false)),
        'e' => Some((go_end_word(v, i, Words::Small), true)),
        'E' => Some((go_end_word(v, i, Words::Big), true)),
        '0' => Some((start_of_line(v, i), false)),
        '^' => Some((to_first_non_blank(v, i), false)),
        '_' => Some((to_first_non_blank(v, i), false)),
        '$' => Some((end_of_line(v, i), false)),
        _ => None,
    }
}

/// The stretch an operator covers when its motion goes from `i` to `target`.
/// Backward motions leave out the character they start on.
pub open spec fn op_span(s: Seq<char>, i: int, target: int, inclusive: bool) -> (int, int) {
    if target >= i {
        let end = if inclusive {
            next_place(s, target)
        } else {
            target
        };
        (i, greater(end, i))
    } else {
        (target, i)
    }
}

pub fn span_of(v: &Vec<char>, i: usize, target: usize, inclusive: bool) -> (r: (usize, usize))
    requires
        i <= v.len(),
        target <= v.len(),
    ensures
        (r.0 as int, r.1 as int) == op_span(v@, i as int, target as int, inclusive),
        r.0 <= r.1 <= v.len(),
{
    if target >= i {
        let end: usize = if inclusive {
            go_next(v, target)
        } else {
            target
        };
        (
            i,
            if end < i {
                i
            } else {
                end
            },
        )
    } else {
        (target, i)
    }
}

} // verus!
