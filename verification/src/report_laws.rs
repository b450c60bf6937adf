//! What holds of the report of a load test, and of the line that stands for an image.
use vstd::prelude::*;
use vstd::string::*;

use crate::media::{bare_type, double_step, nearest, nearest_double, size_text, summary_text};
use crate::tester::{
    bar_cells, graph_range, graph_row, greatest, label_width, least, ms_text, repeated, right_aligned,
    row_dots, row_label, row_ms, tally, total, Sample,
};
use crate::text::{char_from, decimal, digit, trimmed};

verus! {

// ─── Samples ──────────────────────────────────────────────────────────────────

/// Each sample counts once under its own status and adds its own time, wherever in the
/// test it stands.
pub proof fn law_each_sample_counts_once(a: Seq<Sample>, x: Sample, b: Seq<Sample>, status: u16)
    ensures
        tally(a + seq![x] + b, status) == tally(a, status) + tally(b, status) + if x.status == status {
            1nat
        } else {
            0
        },
        total(a + seq![x] + b) == total(a) + x.nanos + total(b),
        tally(Seq::empty(), status) == 0,
        total(Seq::empty()) == 0,
{
    lemma_tally_joins(a + seq![x], b, status);
    assert((a + seq![x]).drop_last() =~= a);
    assert((a + seq![x]).last() == x);
}

proof fn lemma_tally_joins(a: Seq<Sample>, b: Seq<Sample>, status: u16)
    ensures
        tally(a + b, status) == tally(a, status) + tally(b, status),
        total(a + b) == total(a) + total(b),
    decreases b.len(),
{
    if b.len() == 0 {
        assert(a + b =~= a);
    } else {
        lemma_tally_joins(a, b.drop_last(), status);
        assert((a + b).drop_last() =~= a + b.drop_last());
        assert((a + b).last() == b.last());
    }
}

// ─── Bars ─────────────────────────────────────────────────────────────────────

/// The bar of the largest count is full. Any other is as much of the thirty cells as its
/// share, rounded down, but never none; and a larger count has no shorter bar.
pub proof fn law_a_bar_shows_its_share(count: nat, more: nat, max: nat)
    requires
        0 < count <= more <= max,
    ensures
        bar_cells(max, max) == 30,
        bar_cells(count, max) <= bar_cells(more, max),
        1 <= bar_cells(count, max) <= 30,
        bar_cells(count, max) > 1 ==> bar_cells(count, max) * max <= 30 * count,
        30 * count < (bar_cells(count, max) + 1) * max,
{
    let q = count * 30 / max;
    let r = more * 30 / max;
    assert(max * 30 / max == 30) by (nonlinear_arith)
        requires
            max > 0,
    ;
    assert(q * max <= count * 30 < (q + 1) * max) by (nonlinear_arith)
        requires
            q == count * 30 / max,
            max > 0,
    ;
    assert(q <= r) by (nonlinear_arith)
        requires
            q == count * 30 / max,
            r == more * 30 / max,
            count <= more,
            max > 0,
    ;
    assert(r <= 30) by (nonlinear_arith)
        requires
            r == more * 30 / max,
            more <= max,
            max > 0,
    ;
    if q == 0 {
        assert((0 + 1) * max <= (1 + 1) * max) by (nonlinear_arith);
    }
}

// ─── The graph ────────────────────────────────────────────────────────────────

/// The least time is one of the times and no time is less; so with the greatest.
pub proof fn law_the_extremes_of_the_times(t: Seq<u64>, i: int)
    requires
        0 <= i < t.len(),
    ensures
        least(t) <= t[i] <= greatest(t),
        t.contains(least(t)),
        t.contains(greatest(t)),
    decreases t.len(),
{
    if t.len() == 1 {
        assert(t[0] == t[i]);
    } else {
        let front = t.drop_last();
        if i < front.len() {
            law_the_extremes_of_the_times(front, i);
            assert(front[i] == t[i]);
        } else {
            law_the_extremes_of_the_times(front, 0);
        }
        let low = choose|k: int| 0 <= k < front.len() && front[k] == least(front);
        let high = choose|k: int| 0 <= k < front.len() && front[k] == greatest(front);
        assert(t[low] == least(front));
        assert(t[high] == greatest(front));
        assert(t[t.len() - 1] == t.last());
    }
}

/// Every column of the graph has exactly one dot, on one of its eight rows: on the top
/// one where its time is the greatest, on the bottom one where it is the least, and no
/// lower than a column of a lesser time.
pub proof fn law_every_column_has_its_dot(t: Seq<u64>, col: int, other: int, row: int)
    requires
        t.len() > 0,
        0 <= col < 60,
        0 <= other < 60,
        0 <= row < 8,
    ensures
        ({
            let at = t[col * t.len() / 60];
            let than = t[other * t.len() / 60];
            &&& 0 <= graph_row(t, col) < 8
            &&& row_dots(t, row).len() == 60
            &&& row_dots(t, row)[col] == (if row == graph_row(t, col) {
                '•'
            } else {
                ' '
            })
            &&& at == least(t) ==> graph_row(t, col) == 7
            &&& at == greatest(t) && greatest(t) > least(t) ==> graph_row(t, col) == 0
            &&& at >= than ==> graph_row(t, col) <= graph_row(t, other)
        }),
{
    let n = t.len() as int;
    let a = col * n / 60;
    let b = other * n / 60;
    assert(0 <= a < n) by (nonlinear_arith)
        requires
            a == col * n / 60,
            0 <= col < 60,
            n > 0,
    ;
    assert(0 <= b < n) by (nonlinear_arith)
        requires
            b == other * n / 60,
            0 <= other < 60,
            n > 0,
    ;
    law_the_extremes_of_the_times(t, a);
    law_the_extremes_of_the_times(t, b);
    let range = graph_range(t);
    let x = t[a] - least(t);
    let y = t[b] - least(t);
    let p = x * 7 / range;
    let q = y * 7 / range;
    assert(0 <= p <= 7) by (nonlinear_arith)
        requires
            p == x * 7 / range,
            0 <= x <= range,
            range > 0,
    ;
    if x >= y {
        assert(q <= p) by (nonlinear_arith)
            requires
                p == x * 7 / range,
                q == y * 7 / range,
                x >= y,
                range > 0,
        ;
    }
    if x == range {
        assert(p == 7) by (nonlinear_arith)
            requires
                p == x * 7 / range,
                x == range,
                range > 0,
        ;
    }
    if x == 0 {
        assert(p == 0) by (nonlinear_arith)
            requires
                p == x * 7 / range,
                x == 0,
                range > 0,
        ;
    }
}

/// Where there are sixty times, each has a column of its own, in the order they came.
pub proof fn law_sixty_times_fill_the_graph(t: Seq<u64>, col: int)
    requires
        t.len() == 60,
        0 <= col < 60,
    ensures
        t[col] == least(t) ==> graph_row(t, col) == 7,
        t[col] == greatest(t) && greatest(t) > least(t) ==> graph_row(t, col) == 0,
{
    assert(col * 60 / 60 == col);
    law_every_column_has_its_dot(t, col, col, 0);
}

/// The top row is labelled with the greatest time and the bottom one with the least; the
/// labels of all rows are as wide as each other.
pub proof fn law_the_labels_of_the_graph(t: Seq<u64>, row: int)
    requires
        t.len() > 0,
        0 <= row < 8,
    ensures
        row_ms(t, 0) == greatest(t),
        greatest(t) > least(t) ==> row_ms(t, 7) == least(t),
        label_width(t) >= 5,
        label_width(t) >= (decimal(greatest(t) as nat) + seq!['m', 's']).len(),
        row != 0 && row != 4 && row != 7 ==> row_label(t, row) == repeated(' ', label_width(t)),
        row == 0 ==> exists|pad: nat|
            row_label(t, row) == #[trigger] repeated(' ', pad) + decimal(greatest(t) as nat) + seq![
                'm',
                's',
            ] && row_label(t, row).len() == label_width(t),
{
    law_the_extremes_of_the_times(t, 0);
    let range = graph_range(t);
    assert(0 * range / 7 == 0);
    assert(7 * range / 7 == range);
    reveal_strlit("ms");
    assert("ms"@ =~= seq!['m', 's']);
    let text = ms_text(greatest(t) as nat);
    let w = label_width(t);
    if row == 0 {
        let pad = (w - text.len()) as nat;
        assert(right_aligned(text, w) =~= repeated(' ', pad) + decimal(greatest(t) as nat) + seq![
            'm',
            's',
        ]);
    }
}

// ─── Sizes ────────────────────────────────────────────────────────────────────

proof fn lemma_nearest(n: nat, unit: nat)
    requires
        unit > 0,
    ensures
        ({
            let q = nearest(n, unit) as int;
            &&& 2 * (q * unit - n) <= unit
            &&& 2 * (n - q * unit) <= unit
            &&& n % unit == 0 ==> q * unit == n
        }),
{
    let q = n as int / unit as int;
    let r = n as int % unit as int;
    assert(n == q * unit + r && 0 <= r < unit) by (nonlinear_arith)
        requires
            q == n as int / unit as int,
            r == n as int % unit as int,
            unit > 0,
    ;
    assert((q + 1) * unit == q * unit + unit) by (nonlinear_arith);
}

/// Rounding moves a number by at most half a unit, and a whole number of units not at all.
pub proof fn law_rounding_moves_by_half_at_most(n: nat, unit: nat)
    requires
        unit > 0,
    ensures
        2 * (nearest(n, unit) * unit - n) <= unit,
        2 * (n - nearest(n, unit) * unit) <= unit,
        n % unit == 0 ==> nearest(n, unit) * unit == n,
        n < 0x20_0000_0000_0000 ==> nearest_double(n) == n,
{
    lemma_nearest(n, unit);
    if n < 0x20_0000_0000_0000 {
        assert(double_step(n) == 1);
        lemma_nearest(n, 1);
        assert(nearest(n, 1) * 1 == nearest(n, 1)) by (nonlinear_arith);
        assert(n % 1 == 0);
    }
}

/// Below a kilobyte the bytes themselves are shown; up to a megabyte kilobytes and from
/// there megabytes, with one digit behind the point. A whole number of either is shown as
/// that number.
pub proof fn law_sizes_for_people(n: nat)
    ensures
        n < 1024 ==> size_text(n) == decimal(n) + seq![' ', 'B'],
        1 <= n < 1024 ==> size_text(1024 * n) == decimal(n) + seq!['.', '0', ' ', 'K', 'B'],
        1 <= n < 1024 ==> size_text(1048576 * n) == decimal(n) + seq!['.', '0', ' ', 'M', 'B'],
        1024 <= n < 1048576 ==> exists|tenths: nat|
            -51200 <= 100 * (#[trigger] (tenths * 1024) - 10 * n) <= 51200 && size_text(n) == decimal(
                tenths / 10,
            ) + seq!['.', digit(tenths % 10), ' ', 'K', 'B'],
{
    reveal_strlit(" B");
    reveal_strlit(" KB");
    reveal_strlit(" MB");
    reveal_strlit(".");
    assert(" B"@ =~= seq![' ', 'B']);
    assert(" KB"@ =~= seq![' ', 'K', 'B']);
    assert(" MB"@ =~= seq![' ', 'M', 'B']);
    assert("."@ =~= seq!['.']);
    if 1 <= n < 1024 {
        let kb = 1024 * n;
        lemma_nearest(10 * kb, 1024);
        assert((10 * kb) % 1024 == 0) by (nonlinear_arith)
            requires
                kb == 1024 * n,
        ;
        let tenths = nearest(10 * kb, 1024);
        assert(tenths == 10 * n) by (nonlinear_arith)
            requires
                tenths * 1024 == 10 * kb,
                kb == 1024 * n,
        ;
        assert(tenths / 10 == n && tenths % 10 == 0);
        assert(size_text(kb) =~= decimal(n) + seq!['.', '0', ' ', 'K', 'B']);
        let mb = 1048576 * n;
        law_rounding_moves_by_half_at_most(mb, 1);
        lemma_nearest(10 * mb, 1048576);
        assert((10 * mb) % 1048576 == 0) by (nonlinear_arith)
            requires
                mb == 1048576 * n,
        ;
        let big = nearest(10 * mb, 1048576);
        assert(big == 10 * n) by (nonlinear_arith)
            requires
                big * 1048576 == 10 * mb,
                mb == 1048576 * n,
        ;
        assert(big / 10 == n && big % 10 == 0);
        assert(size_text(mb) =~= decimal(n) + seq!['.', '0', ' ', 'M', 'B']);
    }
    if 1024 <= n < 1048576 {
        lemma_nearest(10 * n, 1024);
        let tenths = nearest(10 * n, 1024);
        assert(-51200 <= 100 * (tenths * 1024 - 10 * n) <= 51200);
        assert(size_text(n) =~= decimal(tenths / 10) + seq!['.', digit(tenths % 10), ' ', 'K', 'B']);
    }
}

/// What stands behind a semicolon says nothing of the type, nor does the space around it.
pub proof fn law_parameters_are_no_part_of_a_type(kind: Seq<char>, rest: Seq<char>)
    requires
        !kind.contains(';'),
    ensures
        bare_type(kind + seq![';'] + rest) == trimmed(kind),
        bare_type(kind) == trimmed(kind),
{
    let s = kind + seq![';'] + rest;
    crate::text::lemma_char_from(s, ';', 0);
    crate::text::lemma_char_from(kind, ';', 0);
    let at = char_from(s, ';', 0);
    assert(s[kind.len() as int] == ';');
    if at < kind.len() {
        assert(kind[at] == ';');
    }
    assert(s.take(at) =~= kind);
    assert(kind.take(char_from(kind, ';', 0)) =~= kind) by {
        let k = char_from(kind, ';', 0);
        if k < kind.len() {
            assert(kind[k] == ';');
        }
    }
}

/// The line for an image names its type, its width and height where they are known, in
/// that order, and its size.
pub proof fn law_the_line_for_an_image(kind: Seq<char>, bytes: nat, w: u32, h: u32)
    requires
        !kind.contains(';'),
        trimmed(kind) == kind,
    ensures
        summary_text(kind, bytes, None) == kind + seq![' ', '·', ' '] + size_text(bytes),
        summary_text(kind, bytes, Some((w, h))) == kind + seq![' ', '·', ' '] + decimal(w as nat) + seq![
            '×',
        ] + decimal(h as nat) + seq![' ', '·', ' '] + size_text(bytes),
{
    law_parameters_are_no_part_of_a_type(kind, Seq::empty());
    reveal_strlit(" · ");
    reveal_strlit("×");
    assert(" · "@ =~= seq![' ', '·', ' ']);
    assert("×"@ =~= seq!['×']);
    assert(summary_text(kind, bytes, None) =~= kind + seq![' ', '·', ' '] + size_text(bytes));
    assert(summary_text(kind, bytes, Some((w, h))) =~= kind + seq![' ', '·', ' '] + decimal(w as nat)
        + seq!['×'] + decimal(h as nat) + seq![' ', '·', ' '] + size_text(bytes));
}

} // verus!
