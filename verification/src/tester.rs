//! Load tests: what a run of samples adds up to, and how it is drawn.
use vstd::prelude::*;
use vstd::string::*;

use crate::text::{decimal, decimal_string};

verus! {

// ─── Outside calls ────────────────────────────────────────────────────────────

/// The reason phrase HTTP gives a status code.
pub uninterp spec fn reason_phrase(status: u16) -> Option<Seq<char>>;

/// How `{:.2?}` writes a duration of so many nanoseconds.
pub uninterp spec fn duration_form(nanos: u64) -> Seq<char>;

/// `StatusCode::from_u16`, then `canonical_reason()`.
#[verifier::external_body]
fn canonical_reason(status: u16) -> (r: Option<String>)
    ensures
        r is Some <==> reason_phrase(status) is Some,
        r matches Some(s) ==> reason_phrase(status) == Some(s@),
{
    let code = reqwest::StatusCode::from_u16(status).ok()?;
    code.canonical_reason().map(str::to_string)
}

/// `format!("{:.2?}")` of a `Duration`.
#[verifier::external_body]
pub(crate) fn duration_string(nanos: u64) -> (r: String)
    ensures
        r@ == duration_form(nanos),
{
    format!("{:.2?}", std::time::Duration::from_nanos(nanos))
}

// ─── Samples ──────────────────────────────────────────────────────────────────

/// One request of a test: how it was answered, and how long that took.
#[derive(Debug, Clone, Copy, PartialEq, Eq)]
pub struct Sample {
    pub status: u16,
    pub nanos: u64,
}

/// How often a status came back.
#[derive(Debug, Clone, Copy, PartialEq, Eq)]
pub struct StatusCount {
    pub status: u16,
    pub count: usize,
}

/// What a test came to. Durations are in nanoseconds, `timings` in milliseconds,
/// one for each request in turn.
#[derive(Debug, PartialEq, Eq)]
pub struct TestResults {
    pub statuses: Vec<StatusCount>,
    pub avg: u64,
    pub min: u64,
    pub max: u64,
    pub timings: Vec<u64>,
}

/// How many of the samples came back with `status`.
pub open spec fn tally(samples: Seq<Sample>, status: u16) -> nat
    decreases samples.len(),
{
    if samples.len() == 0 {
        0
    } else {
        tally(samples.drop_last(), status) + if samples.last().status == status {
            1nat
        } else {
            0
        }
    }
}

/// How long the samples took together.
pub open spec fn total(samples: Seq<Sample>) -> nat
    decreases samples.len(),
{
    if samples.len() == 0 {
        0
    } else {
        total(samples.drop_last()) + samples.last().nanos as nat
    }
}

/// The counts name every status that came back, each once, in rising order, with
/// how often it did.
pub open spec fn counts_are(counts: Seq<StatusCount>, samples: Seq<Sample>) -> bool {
    &&& forall|i: int, j: int| 0 <= i < j < counts.len() ==> counts[i].status < counts[j].status
    &&& forall|i: int|
        0 <= i < counts.len() ==> (#[trigger] counts[i]).count == tally(samples, counts[i].status)
            && counts[i].count > 0
    &&& forall|s: u16|
        tally(samples, s) > 0 ==> exists|i: int|
            0 <= i < counts.len() && (#[trigger] counts[i]).status == s
}

proof fn lemma_tally(samples: Seq<Sample>, status: u16)
    ensures
        tally(samples, status) <= samples.len(),
    decreases samples.len(),
{
    if samples.len() > 0 {
        lemma_tally(samples.drop_last(), status);
    }
}

fn count_status(counts: &mut Vec<StatusCount>, sample: Sample, seen: Ghost<Seq<Sample>>)
    requires
        counts_are(old(counts)@, seen@),
        seen@.len() < usize::MAX,
    ensures
        counts_are(final(counts)@, seen@.push(sample)),
{
    let ghost before = counts@;
    let ghost after = seen@.push(sample);
    let status: u16 = sample.status;
    proof {
        assert(after.drop_last() =~= seen@);
        assert(forall|s: u16|
            tally(after, s) == tally(seen@, s) + if s == status {
                1nat
            } else {
                0
            });
        lemma_tally(seen@, status);
    }
    let mut i: usize = 0;
    while i < counts.len() && counts[i].status < status
        invariant
            i <= counts.len(),
            counts@ == before,
            forall|j: int| 0 <= j < i ==> (#[trigger] before[j]).status < status,
        decreases counts.len() - i,
    {
        i = i + 1;
    }
    if i < counts.len() && counts[i].status == status {
        let n: usize = counts[i].count;
        counts.set(i, StatusCount { status, count: n + 1 });
        proof {
            assert forall|s: u16| tally(after, s) > 0 implies exists|k: int|
                0 <= k < counts@.len() && (#[trigger] counts@[k]).status == s by {
                if s == status {
                    assert(counts@[i as int].status == s);
                } else {
                    let k = choose|k: int| 0 <= k < before.len() && (#[trigger] before[k]).status == s;
                    assert(counts@[k].status == s);
                }
            }
        }
    } else {
        counts.insert(i, StatusCount { status, count: 1 });
        proof {
            assert(tally(seen@, status) == 0) by {
                if tally(seen@, status) > 0 {
                    let k = choose|k: int|
                        0 <= k < before.len() && (#[trigger] before[k]).status == status;
                    if i < k {
                        assert(before[i as int].status < before[k].status);
                    }
                }
            }
            assert forall|a: int, b: int| 0 <= a < b < counts@.len() implies counts@[a].status
                < counts@[b].status by {
                let a0 = if a < i {
                    a
                } else {
                    a - 1
                };
                let b0 = if b < i {
                    b
                } else {
                    b - 1
                };
                if a == i {
                    assert(counts@[b] == before[b0]);
                    if i < b0 {
                        assert(before[i as int].status < before[b0].status);
                    }
                } else if b == i {
                    assert(counts@[a] == before[a0]);
                } else {
                    assert(counts@[a] == before[a0]);
                    assert(counts@[b] == before[b0]);
                    assert(before[a0].status < before[b0].status);
                }
            }
            assert forall|a: int| 0 <= a < counts@.len() implies (#[trigger] counts@[a]).count
                == tally(after, counts@[a].status) && counts@[a].count > 0 by {
                let a0 = if a < i {
                    a
                } else {
                    a - 1
                };
                if a != i {
                    assert(counts@[a] == before[a0]);
                    if i < a0 {
                        assert(before[i as int].status < before[a0].status);
                    }
                }
            }
            assert forall|s: u16| tally(after, s) > 0 implies exists|k: int|
                0 <= k < counts@.len() && (#[trigger] counts@[k]).status == s by {
                if s == status {
                    assert(counts@[i as int].status == s);
                } else {
                    let k = choose|k: int| 0 <= k < before.len() && (#[trigger] before[k]).status == s;
                    if k < i {
                        assert(counts@[k].status == s);
                    } else {
                        assert(counts@[k + 1].status == s);
                    }
                }
            }
        }
    }
}

proof fn lemma_total_bounds(samples: Seq<Sample>, low: int, high: int)
    requires
        forall|i: int| 0 <= i < samples.len() ==> low <= (#[trigger] samples[i]).nanos <= high,
    ensures
        low * samples.len() <= total(samples) <= high * samples.len(),
    decreases samples.len(),
{
    if samples.len() > 0 {
        let front = samples.drop_last();
        assert forall|i: int| 0 <= i < front.len() implies low <= (#[trigger] front[i]).nanos
            <= high by {
            assert(front[i] == samples[i]);
        }
        lemma_total_bounds(front, low, high);
        assert(samples[samples.len() - 1] == samples.last());
        assert(low * samples.len() == low * front.len() + low) by (nonlinear_arith)
            requires
                samples.len() == front.len() + 1,
        ;
        assert(high * samples.len() == high * front.len() + high) by (nonlinear_arith)
            requires
                samples.len() == front.len() + 1,
        ;
    }
}

/// Adds up the samples of a test: the statuses in rising order with their counts,
/// the shortest, the longest and the average time, and every time in turn.
pub fn collect_test_results(samples: &Vec<Sample>) -> (r: TestResults)
    requires
        0 < samples.len() <= u32::MAX,
    ensures
        counts_are(r.statuses@, samples@),
        counted(r.statuses@) == samples@.len(),
        forall|i: int| 0 <= i < samples@.len() ==> r.min <= (#[trigger] samples@[i]).nanos <= r.max,
        exists|i: int| 0 <= i < samples@.len() && (#[trigger] samples@[i]).nanos == r.min,
        exists|i: int| 0 <= i < samples@.len() && (#[trigger] samples@[i]).nanos == r.max,
        r.avg as nat == total(samples@) / samples@.len(),
        r.min <= r.avg <= r.max,
        r.timings@.len() == samples@.len(),
        forall|i: int|
            0 <= i < samples@.len() ==> #[trigger] r.timings@[i] == samples@[i].nanos / 1000000,
{
    let mut statuses: Vec<StatusCount> = Vec::new();
    let mut timings: Vec<u64> = Vec::new();
    let mut min: u64 = samples[0].nanos;
    let mut max: u64 = samples[0].nanos;
    let mut sum: u128 = 0;
    let mut i: usize = 0;
    while i < samples.len()
        invariant
            0 < samples.len() <= u32::MAX,
            i <= samples.len(),
            counts_are(statuses@, samples@.take(i as int)),
            timings@.len() == i,
            forall|k: int| 0 <= k < i ==> #[trigger] timings@[k] == samples@[k].nanos / 1000000,
            forall|k: int| 0 <= k < i ==> min <= (#[trigger] samples@[k]).nanos <= max,
            exists|k: int| 0 <= k < samples@.len() && (#[trigger] samples@[k]).nanos == min,
            exists|k: int| 0 <= k < samples@.len() && (#[trigger] samples@[k]).nanos == max,
            sum == total(samples@.take(i as int)),
            sum <= i * 0xffff_ffff_ffff_ffff,
        decreases samples.len() - i,
    {
        let sample = samples[i];
        proof {
            assert(samples@.take(i + 1) =~= samples@.take(i as int).push(sample));
            assert(samples@.take(i + 1).drop_last() =~= samples@.take(i as int));
            assert(samples@[i as int].nanos == sample.nanos);
            assert(i * 0xffff_ffff_ffff_ffff <= 0xffff_ffff * 0xffff_ffff_ffff_ffff)
                by (nonlinear_arith)
                requires
                    i <= 0xffff_ffff,
            ;
        }
        count_status(&mut statuses, sample, Ghost(samples@.take(i as int)));
        timings.push(sample.nanos / 1000000);
        if sample.nanos < min {
            min = sample.nanos;
        }
        if sample.nanos > max {
            max = sample.nanos;
        }
        sum = sum + sample.nanos as u128;
        i = i + 1;
    }
    let n: u128 = samples.len() as u128;
    let avg: u128 = sum / n;
    proof {
        assert(samples@.take(samples@.len() as int) =~= samples@);
        lemma_total_bounds(samples@, min as int, max as int);
        law_every_sample_is_counted(statuses@, samples@);
        assert(min as u128 <= avg && avg <= max as u128) by (nonlinear_arith)
            requires
                n > 0,
                avg == sum / n,
                min * n <= sum,
                sum <= max * n,
        ;
    }
    TestResults { statuses, avg: avg as u64, min, max, timings }
}

// ─── Drawing ──────────────────────────────────────────────────────────────────

/// `c` so many times.
pub open spec fn repeated(c: char, n: nat) -> Seq<char> {
    Seq::new(n, |i: int| c)
}

/// A string of one character so many times.
pub fn repeat(c: char, n: usize) -> (r: String)
    ensures
        r@ == repeated(c, n as nat),
{
    let mut r = String::new();
    let mut i: usize = 0;
    while i < n
        invariant
            i <= n,
            r@ == repeated(c, i as nat),
        decreases n - i,
    {
        r.push(c);
        proof {
            assert(r@ =~= repeated(c, (i + 1) as nat));
        }
        i = i + 1;
    }
    proof {
        assert(r@ =~= repeated(c, n as nat));
    }
    r
}

/// How many of a bar's thirty cells a count fills: its share of the largest count,
/// at least one.
pub open spec fn bar_cells(count: nat, max_count: nat) -> nat {
    let cells = count * 30 / max_count;
    if cells == 0 {
        1
    } else {
        cells
    }
}

/// The filled and the empty part of a bar.
pub fn ascii_bar(count: usize, max_count: usize) -> (r: (String, String))
    requires
        0 < max_count,
        count <= max_count,
    ensures
        1 <= bar_cells(count as nat, max_count as nat) <= 30,
        r.0@ == repeated('█', bar_cells(count as nat, max_count as nat)),
        r.1@ == repeated('░', (30 - bar_cells(count as nat, max_count as nat)) as nat),
{
    let cells: u128 = count as u128 * 30 / max_count as u128;
    proof {
        assert(cells <= 30) by (nonlinear_arith)
            requires
                cells == count * 30 / (max_count as int),
                count <= max_count,
                max_count > 0,
        ;
    }
    let filled: usize = if cells == 0 {
        1
    } else {
        cells as usize
    };
    (repeat('█', filled), repeat('░', 30 - filled))
}

/// One line of the graph of a test: its label and its sixty columns.
#[derive(Debug, PartialEq, Eq)]
pub struct GraphLine {
    pub label: String,
    pub dots: String,
}

/// The least of the times.
pub open spec fn least(t: Seq<u64>) -> u64
    decreases t.len(),
{
    if t.len() <= 1 {
        t[0]
    } else {
        let front = least(t.drop_last());
        if t.last() < front {
            t.last()
        } else {
            front
        }
    }
}

/// The greatest of the times.
pub open spec fn greatest(t: Seq<u64>) -> u64
    decreases t.len(),
{
    if t.len() <= 1 {
        t[0]
    } else {
        let front = greatest(t.drop_last());
        if t.last() > front {
            t.last()
        } else {
            front
        }
    }
}

/// The span of the times, at least one millisecond.
pub open spec fn graph_range(t: Seq<u64>) -> int {
    if greatest(t) == least(t) {
        1
    } else {
        greatest(t) - least(t)
    }
}

/// The row, of eight counted from the top, that a column's time falls in.
pub open spec fn graph_row(t: Seq<u64>, col: int) -> int {
    let at = col * t.len() / 60;
    7 - (t[at] - least(t)) * 7 / graph_range(t)
}

/// A text at the right of a field of some width.
pub open spec fn right_aligned(s: Seq<char>, width: nat) -> Seq<char> {
    if s.len() < width {
        repeated(' ', (width - s.len()) as nat) + s
    } else {
        s
    }
}

/// The text of a time.
pub open spec fn ms_text(ms: nat) -> Seq<char> {
    decimal(ms) + "ms"@
}

/// How wide the labels are: as wide as the greatest time, at least five.
pub open spec fn label_width(t: Seq<u64>) -> nat {
    let n = ms_text(greatest(t) as nat).len();
    if n < 5 {
        5
    } else {
        n
    }
}

/// The time a row stands for.
pub open spec fn row_ms(t: Seq<u64>, r: int) -> nat {
    let down = r * graph_range(t) / 7;
    if down > greatest(t) {
        0
    } else {
        (greatest(t) - down) as nat
    }
}

/// The label of a row: the top, the middle and the bottom one carry a time.
pub open spec fn row_label(t: Seq<u64>, r: int) -> Seq<char> {
    if r == 0 || r == 4 || r == 7 {
        right_aligned(ms_text(row_ms(t, r)), label_width(t))
    } else {
        repeated(' ', label_width(t))
    }
}

/// The columns of a row: a dot where the column's time falls in it.
pub open spec fn row_dots(t: Seq<u64>, r: int) -> Seq<char> {
    Seq::new(
        60,
        |col: int|
            if graph_row(t, col) == r {
                '•'
            } else {
                ' '
            },
    )
}

proof fn lemma_extremes(t: Seq<u64>, i: int)
    requires
        0 <= i < t.len(),
    ensures
        least(t) <= t[i] <= greatest(t),
    decreases t.len(),
{
    if t.len() > 1 {
        let front = t.drop_last();
        if i < front.len() {
            lemma_extremes(front, i);
            assert(front[i] == t[i]);
        } else {
            lemma_extremes(front, 0);
        }
    }
}

fn extremes(t: &Vec<u64>) -> (r: (u64, u64))
    requires
        t.len() > 0,
    ensures
        r.0 == least(t@),
        r.1 == greatest(t@),
{
    let mut low: u64 = t[0];
    let mut high: u64 = t[0];
    let mut i: usize = 1;
    while i < t.len()
        invariant
            1 <= i <= t.len(),
            low == least(t@.take(i as int)),
            high == greatest(t@.take(i as int)),
        decreases t.len() - i,
    {
        proof {
            assert(t@.take(i + 1).drop_last() =~= t@.take(i as int));
        }
        if t[i] < low {
            low = t[i];
        }
        if t[i] > high {
            high = t[i];
        }
        i = i + 1;
    }
    proof {
        assert(t@.take(t@.len() as int) =~= t@);
    }
    (low, high)
}

fn right_align(s: String, width: usize) -> (r: String)
    ensures
        r@ == right_aligned(s@, width as nat),
{
    let n: usize = s.as_str().unicode_len();
    if n < width {
        let mut r = repeat(' ', width - n);
        r.append(s.as_str());
        r
    } else {
        s
    }
}

fn ms_string(ms: u64) -> (r: String)
    ensures
        r@ == ms_text(ms as nat),
{
    let mut r = decimal_string(ms as u128);
    r.append("ms");
    r
}

/// The graph of a test's times, eight rows from the greatest time down to the
/// least, sixty columns spread over the requests in turn. A test without requests
/// has none.
pub fn line_graph(timings: &Vec<u64>) -> (r: Vec<GraphLine>)
    ensures
        timings@.len() == 0 ==> r@.len() == 0,
        timings@.len() > 0 ==> r@.len() == 8,
        timings@.len() > 0 ==> forall|i: int|
            0 <= i < 8 ==> (#[trigger] r@[i]).label@ == row_label(timings@, i) && r@[i].dots@
                == row_dots(timings@, i),
{
    let mut lines: Vec<GraphLine> = Vec::new();
    if timings.len() == 0 {
        return lines;
    }
    let (low, high) = extremes(timings);
    proof {
        lemma_extremes(timings@, 0);
    }
    let range: u64 = if high == low {
        1
    } else {
        high - low
    };
    let longest = ms_string(high);
    let n: usize = longest.as_str().unicode_len();
    let width: usize = if n < 5 {
        5
    } else {
        n
    };
    let mut r: usize = 0;
    while r < 8
        invariant
            timings.len() > 0,
            low == least(timings@),
            high == greatest(timings@),
            low <= high,
            range == graph_range(timings@),
            range >= 1,
            width == label_width(timings@),
            r <= 8,
            lines@.len() == r,
            forall|i: int|
                0 <= i < r ==> (#[trigger] lines@[i]).label@ == row_label(timings@, i)
                    && lines@[i].dots@ == row_dots(timings@, i),
        decreases 8 - r,
    {
        proof {
            assert(r * range <= 8 * 0xffff_ffff_ffff_ffff) by (nonlinear_arith)
                requires
                    r <= 8,
                    range <= 0xffff_ffff_ffff_ffff,
            ;
        }
        let down: u128 = r as u128 * range as u128 / 7;
        let ms: u64 = if down > high as u128 {
            0
        } else {
            high - down as u64
        };
        let label = if r == 0 || r == 4 || r == 7 {
            right_align(ms_string(ms), width)
        } else {
            repeat(' ', width)
        };
        let dots = graph_dots(timings, low, range, r);
        lines.push(GraphLine { label, dots });
        r = r + 1;
    }
    lines
}

fn graph_dots(timings: &Vec<u64>, low: u64, range: u64, r: usize) -> (s: String)
    requires
        timings.len() > 0,
        low == least(timings@),
        range == graph_range(timings@),
        range >= 1,
        r < 8,
    ensures
        s@ == row_dots(timings@, r as int),
{
    let mut s = String::new();
    let mut col: usize = 0;
    while col < 60
        invariant
            timings.len() > 0,
            low == least(timings@),
            range == graph_range(timings@),
            range >= 1,
            r < 8,
            col <= 60,
            s@ == row_dots(timings@, r as int).take(col as int),
        decreases 60 - col,
    {
        let n: u128 = timings.len() as u128;
        proof {
            assert(col * n <= 60 * 0xffff_ffff_ffff_ffff) by (nonlinear_arith)
                requires
                    col <= 60,
                    n <= 0xffff_ffff_ffff_ffff,
            ;
        }
        let at: u128 = col as u128 * n / 60;
        proof {
            assert(col as u128 * n / 60 < n) by (nonlinear_arith)
                requires
                    col < 60,
                    n > 0,
            ;
            assert(col as u128 * n == col * timings@.len()) by (nonlinear_arith)
                requires
                    n == timings@.len(),
            ;
            lemma_extremes(timings@, at as int);
        }
        let ms: u64 = timings[at as usize];
        let up: u128 = (ms - low) as u128 * 7 / range as u128;
        let ghost row = graph_row(timings@, col as int);
        proof {
            assert(up <= 7) by (nonlinear_arith)
                requires
                    up == (ms - low) * 7 / (range as int),
                    ms - low <= range,
                    ms >= low,
                    range >= 1,
            ;
            assert(row == 7 - up);
        }
        s.push(
            if 7 - up == r as u128 {
                '•'
            } else {
                ' '
            },
        );
        proof {
            let all = row_dots(timings@, r as int);
            assert(all.take(col + 1) =~= all.take(col as int).push(all[col as int]));
        }
        col = col + 1;
    }
    proof {
        let all = row_dots(timings@, r as int);
        assert(all.take(60) =~= all);
    }
    s
}

/// The line below the graph.
pub fn graph_axis(timings: &Vec<u64>) -> (r: (String, String))
    requires
        timings.len() > 0,
    ensures
        r.0@ == repeated(' ', label_width(timings@)),
        r.1@ == "└"@ + repeated('─', 61),
{
    let (_, high) = extremes(timings);
    let longest = ms_string(high);
    let n: usize = longest.as_str().unicode_len();
    let width: usize = if n < 5 {
        5
    } else {
        n
    };
    let mut axis = "└".to_owned();
    axis.append(repeat('─', 61).as_str());
    (repeat(' ', width), axis)
}

/// The reason phrase of a status, or that there is none.
pub open spec fn reason_or_unknown(phrase: Option<Seq<char>>) -> Seq<char> {
    match phrase {
        Some(s) => s,
        None => "Unknown"@,
    }
}

/// The reason phrase of a status, `Unknown` where HTTP names none.
pub fn status_reason(status: u16) -> (r: String)
    ensures
        r@ == reason_or_unknown(reason_phrase(status)),
{
    match canonical_reason(status) {
        Some(s) => s,
        None => "Unknown".to_owned(),
    }
}

// ─── Every sample is counted ──────────────────────────────────────────────────

/// The samples that the counts stand for.
pub open spec fn counted(counts: Seq<StatusCount>) -> nat
    decreases counts.len(),
{
    if counts.len() == 0 {
        0
    } else {
        counted(counts.drop_last()) + counts.last().count as nat
    }
}

/// How many of the samples came back with one of the statuses that are counted.
spec fn tallied(counts: Seq<StatusCount>, samples: Seq<Sample>) -> nat
    decreases counts.len(),
{
    if counts.len() == 0 {
        0
    } else {
        tallied(counts.drop_last(), samples) + tally(samples, counts.last().status)
    }
}

/// One of the counts is that of `status`.
spec fn counts_status(counts: Seq<StatusCount>, status: u16) -> bool {
    exists|i: int| 0 <= i < counts.len() && (#[trigger] counts[i]).status == status
}

proof fn lemma_tallied_one(counts: Seq<StatusCount>, samples: Seq<Sample>)
    requires
        samples.len() > 0,
        forall|i: int, j: int| 0 <= i < j < counts.len() ==> counts[i].status < counts[j].status,
    ensures
        tallied(counts, samples) == tallied(counts, samples.drop_last()) + if counts_status(
            counts,
            samples.last().status,
        ) {
            1nat
        } else {
            0
        },
    decreases counts.len(),
{
    if counts.len() > 0 {
        let front = counts.drop_last();
        let status = samples.last().status;
        lemma_tallied_one(front, samples);
        assert(counts[counts.len() - 1] == counts.last());
        if counts_status(front, status) {
            let i = choose|i: int| 0 <= i < front.len() && (#[trigger] front[i]).status == status;
            assert(counts[i].status == status);
            assert(counts[i].status < counts[counts.len() - 1].status);
        } else if counts_status(counts, status) {
            let i = choose|i: int| 0 <= i < counts.len() && (#[trigger] counts[i]).status == status;
            if i < front.len() {
                assert(front[i].status == status);
            }
        }
    }
}

proof fn lemma_tallied_all(counts: Seq<StatusCount>, samples: Seq<Sample>)
    requires
        forall|i: int, j: int| 0 <= i < j < counts.len() ==> counts[i].status < counts[j].status,
        forall|k: int| 0 <= k < samples.len() ==> counts_status(counts, (#[trigger] samples[k]).status),
    ensures
        tallied(counts, samples) == samples.len(),
    decreases samples.len(),
{
    if samples.len() > 0 {
        let front = samples.drop_last();
        assert forall|k: int| 0 <= k < front.len() implies counts_status(
            counts,
            (#[trigger] front[k]).status,
        ) by {
            assert(front[k] == samples[k]);
        }
        lemma_tallied_all(counts, front);
        lemma_tallied_one(counts, samples);
        assert(samples[samples.len() - 1] == samples.last());
    } else {
        lemma_tallied_none(counts, samples);
    }
}

proof fn lemma_tallied_none(counts: Seq<StatusCount>, samples: Seq<Sample>)
    requires
        samples.len() == 0,
    ensures
        tallied(counts, samples) == 0,
    decreases counts.len(),
{
    if counts.len() > 0 {
        lemma_tallied_none(counts.drop_last(), samples);
    }
}

proof fn lemma_counted_is_tallied(counts: Seq<StatusCount>, samples: Seq<Sample>)
    requires
        forall|i: int|
            0 <= i < counts.len() ==> (#[trigger] counts[i]).count == tally(samples, counts[i].status),
    ensures
        counted(counts) == tallied(counts, samples),
    decreases counts.len(),
{
    if counts.len() > 0 {
        let front = counts.drop_last();
        assert forall|i: int| 0 <= i < front.len() implies (#[trigger] front[i]).count == tally(
            samples,
            front[i].status,
        ) by {
            assert(front[i] == counts[i]);
        }
        lemma_counted_is_tallied(front, samples);
        assert(counts[counts.len() - 1] == counts.last());
    }
}

proof fn lemma_tally_positive(samples: Seq<Sample>, k: int)
    requires
        0 <= k < samples.len(),
    ensures
        tally(samples, samples[k].status) > 0,
    decreases samples.len(),
{
    if k < samples.len() - 1 {
        lemma_tally_positive(samples.drop_last(), k);
    }
}

/// The counts of a test add up to its samples: every sample is counted, and once.
pub proof fn law_every_sample_is_counted(counts: Seq<StatusCount>, samples: Seq<Sample>)
    requires
        counts_are(counts, samples),
    ensures
        counted(counts) == samples.len(),
{
    assert forall|k: int| 0 <= k < samples.len() implies counts_status(
        counts,
        (#[trigger] samples[k]).status,
    ) by {
        lemma_tally_positive(samples, k);
    }
    lemma_counted_is_tallied(counts, samples);
    lemma_tallied_all(counts, samples);
}

} // verus!
