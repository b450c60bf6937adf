//! What holds of what is sent and of how answers are told.
use vstd::prelude::*;
use vstd::string::*;

use crate::answers::{is_drawn, picture_words, Picture};
use crate::app::AppView;
use crate::app_outcomes::chain_asks;
use crate::caret::{moved_caret, offset, place_of, size};
use crate::commands::list_tail;
use crate::config::chain_by_key;
use crate::media::{decodable, summary_text};
use crate::order::Row;
use crate::panes::{ActionView, ModeView, PendingAction};
use crate::request::{ChainConfig, TextMap};
use crate::tester::{duration_form, reason_or_unknown, reason_phrase, StatusCount, TestResults};
use crate::text::{ascii_lower, decimal, joined};
use crate::utils::{header_lines, supported};
use crate::vars::wanted;
use crate::view_field::{reached, row_of, wrap_from, Rect};
use crate::view_response::{image_place, results_text, status_text, status_texts};

verus! {

// ─── Chains ───────────────────────────────────────────────────────────────────

/// A chain with profiles lets one be picked first. Without any it asks for the variables
/// that its steps want and none of them brings along, and where there is none it is run
/// at once. The chain is the one named throughout, and the list stays as it is.
pub proof fn law_what_a_chain_asks_for(a: AppView, name: Seq<char>, chain: ChainConfig, env: TextMap)
    ensures
        ({
            let (b, act) = chain_asks(a, name, chain, env);
            let names = wanted(chain.steps@, chain.steps@.len() as int);
            let some = chain.profiles matches Some(v) && v@.len() > 0;
            &&& b == (AppView { mode: b.mode, ..a })
            &&& some ==> act == ActionView::Nothing && (b.mode matches ModeView::ProfileSelect(p)
                && p.entry_name == name && p.action == PendingAction::Run && p.selected == 0
                && p.profiles.len() == chain.profiles->0@.len() && (forall|i: int|
                0 <= i < p.profiles.len() ==> #[trigger] p.profiles[i] == chain.profiles->0@[i]@))
            &&& !some && names.len() == 0 ==> b == a && act == ActionView::RunChain(name, Map::empty())
            &&& !some && names.len() > 0 ==> act == ActionView::Nothing && (b.mode
                matches ModeView::VarInput(p) && p.entry_name == name && p.action == PendingAction::Run
                && p.focused == 0 && p.vars.len() == names.len() && (forall|i: int|
                0 <= i < names.len() ==> (#[trigger] p.vars[i]).0 == names[i]))
        }),
{
}

/// Whether a stored text is a chain: as its key `steps` says where the text can be read,
/// and else as its letters say.
pub proof fn law_what_makes_a_chain(content: Seq<char>, before: Seq<char>, after: Seq<char>)
    ensures
        chain_by_key(Some(true), content),
        !chain_by_key(Some(false), content),
        chain_by_key(None, before + "steps:"@ + after),
        content.len() < 6 ==> !chain_by_key(None, content),
{
    reveal_strlit("steps:");
    let all = before + "steps:"@ + after;
    let at = before.len() as int;
    assert(all.subrange(at, at + 6) =~= "steps:"@);
    assert(crate::text::occurs_at(all, "steps:"@, at));
}

// ─── Images ───────────────────────────────────────────────────────────────────

/// An image type is drawn whatever its case, but for SVG; any other type is not.
pub proof fn law_which_types_are_images(kind: Seq<char>, rest: Seq<char>)
    requires
        kind.len() == 6,
        rest.len() > 0,
    ensures
        (forall|i: int| 0 <= i < 6 ==> ascii_lower(#[trigger] kind[i]) == "image/"@[i]) && rest.len() != 7
            ==> decodable(kind + rest),
        (exists|i: int| 0 <= i < 6 && ascii_lower(#[trigger] kind[i]) != "image/"@[i]) ==> !decodable(
            kind + rest,
        ),
        decodable(kind + rest) ==> !(rest.len() == 7 && forall|i: int|
            0 <= i < 7 ==> ascii_lower(#[trigger] rest[i]) == "svg+xml"@[i]),
{
    reveal_strlit("image/");
    reveal_strlit("image/svg+xml");
    reveal_strlit("svg+xml");
    let all = kind + rest;
    assert(all.take(6) =~= kind);
    let lower = "image/"@;
    assert(forall|i: int| 0 <= i < 6 ==> ascii_lower(#[trigger] lower[i]) == lower[i]);
    if decodable(all) {
        assert forall|i: int| 0 <= i < 6 implies ascii_lower(#[trigger] kind[i]) == "image/"@[i] by {
            assert(ascii_lower(all.take(6)[i]) == ascii_lower(lower[i]));
        }
        if rest.len() == 7 && (forall|i: int|
            0 <= i < 7 ==> ascii_lower(#[trigger] rest[i]) == "svg+xml"@[i]) {
            let whole = "image/svg+xml"@;
            assert forall|i: int| 0 <= i < all.len() implies ascii_lower(#[trigger] all[i])
                == ascii_lower(whole[i]) by {
                if i < 6 {
                    assert(all[i] == kind[i]);
                } else {
                    assert(all[i] == rest[i - 6]);
                }
            }
            assert(crate::text::same_ignoring_case(all, whole));
        }
    }
}

/// A picture is told by its summary; where it is not drawn, it is said why. Only one that
/// was read and can be drawn is drawn.
pub proof fn law_how_a_picture_is_told(content_type: Seq<char>, picture: Picture)
    ensures
        match picture {
            Picture::Unread(words) => picture_words(content_type, picture) == content_type
                + "\n\nCould not read body: "@ + words@ && !is_drawn(picture),
            Picture::Undecoded { bytes, words } => picture_words(content_type, picture) == summary_text(
                content_type,
                bytes as nat,
                None,
            ) + "\n\nCould not decode: "@ + words@ && !is_drawn(picture),
            Picture::Decoded { bytes, width, height, drawable } => {
                &&& is_drawn(picture) == drawable
                &&& drawable ==> picture_words(content_type, picture) == summary_text(
                    content_type,
                    bytes as nat,
                    Some((width, height)),
                )
                &&& summary_text(content_type, bytes as nat, Some((width, height))).is_prefix_of(
                    picture_words(content_type, picture),
                )
            },
        },
{
}

/// An image goes inside the border, below the text and a blank row, and takes all the
/// room that is left there.
pub proof fn law_where_an_image_goes(area: Rect, lines: int)
    requires
        0 <= lines < 65536,
        area.x + area.width <= u16::MAX,
        area.y + area.height <= u16::MAX,
    ensures
        image_place(area, lines) matches Some(r) ==> {
            &&& r.x == area.x + 1 && r.x + r.width == area.x + area.width - 1 && r.width > 0
            &&& r.y == area.y + 1 + lines + 1 && r.y + r.height == area.y + area.height - 1 && r.height
                > 0
        },
        image_place(area, lines) is None <==> area.width <= 2 || area.height < lines + 4,
{
}

// ─── Texts ────────────────────────────────────────────────────────────────────

/// A header is told on a line of its own: its name, a colon, a space and its value.
pub proof fn law_a_header_is_a_line(rows: Seq<Row>, i: int)
    requires
        0 <= i < rows.len(),
    ensures
        header_lines(rows).len() == rows.len(),
        header_lines(rows)[i] == rows[i].0 + seq![':', ' '] + rows[i].1,
{
    reveal_strlit(": ");
    assert(": "@ =~= seq![':', ' ']);
}

/// Seven methods can be sent, in capitals, and no other.
pub proof fn law_which_methods_are_sent(method: Seq<char>)
    ensures
        supported(method) <==> (seq![
            "GET"@,
            "POST"@,
            "PUT"@,
            "PATCH"@,
            "DELETE"@,
            "HEAD"@,
            "OPTIONS"@,
        ]).contains(method),
{
    let all = seq!["GET"@, "POST"@, "PUT"@, "PATCH"@, "DELETE"@, "HEAD"@, "OPTIONS"@];
    assert(all[0] == "GET"@ && all[1] == "POST"@ && all[2] == "PUT"@ && all[3] == "PATCH"@);
    assert(all[4] == "DELETE"@ && all[5] == "HEAD"@ && all[6] == "OPTIONS"@);
}

/// The listing says what a request is for where that is written down, and where it is
/// kept.
pub proof fn law_what_the_listing_says(description: Seq<char>, global: bool)
    ensures
        ({
            let kept = if global {
                " global"@
            } else {
                " local"@
            };
            &&& list_tail(None, global) == kept
            &&& description.len() == 0 ==> list_tail(Some(description), global) == kept
            &&& description.len() > 0 ==> list_tail(Some(description), global) == seq![' ', '—', ' ']
                + description + kept
        }),
{
    reveal_strlit(" — ");
    assert(" — "@ =~= seq![' ', '—', ' ']);
    let kept = if global {
        " global"@
    } else {
        " local"@
    };
    assert(Seq::<char>::empty() + kept =~= kept);
}

/// The lines of the statuses, each with the line break before it.
pub open spec fn status_block(statuses: Seq<StatusCount>, n: int) -> Seq<char>
    decreases n,
{
    if n <= 0 {
        Seq::empty()
    } else {
        status_block(statuses, n - 1) + seq!['\n', ' ', ' '] + decimal(statuses[n - 1].status as nat)
            + seq![' '] + reason_or_unknown(reason_phrase(statuses[n - 1].status)) + seq![
            ' ',
            ' ',
            'x',
            ' ',
        ] + decimal(statuses[n - 1].count as nat)
    }
}

proof fn lemma_joined_push(parts: Seq<Seq<char>>, last: Seq<char>, sep: Seq<char>)
    requires
        parts.len() > 0,
    ensures
        joined(parts.push(last), sep) == joined(parts, sep) + sep + last,
{
    assert(parts.push(last).drop_last() =~= parts);
}

proof fn lemma_status_block(statuses: Seq<StatusCount>, n: int)
    requires
        0 <= n <= statuses.len(),
    ensures
        status_texts(statuses, n).len() == n + 2,
        joined(status_texts(statuses, n), "\n"@) == "Results\n"@ + status_block(statuses, n),
    decreases n,
{
    reveal_strlit("\n");
    reveal_strlit("Results");
    reveal_strlit("Results\n");
    reveal_strlit("");
    reveal_strlit("  ");
    reveal_strlit(" ");
    reveal_strlit("  x ");
    if n == 0 {
        let two = seq!["Results"@, ""@];
        assert(two.drop_last() =~= seq!["Results"@]);
        reveal_with_fuel(joined, 2);
        assert(joined(two, "\n"@) =~= "Results\n"@);
        assert("Results\n"@ + status_block(statuses, 0) =~= "Results\n"@);
    } else {
        lemma_status_block(statuses, n - 1);
        let before = status_texts(statuses, n - 1);
        let line = status_text(statuses[n - 1]);
        lemma_joined_push(before, line, "\n"@);
        assert("  "@ =~= seq![' ', ' ']);
        assert(" "@ =~= seq![' ']);
        assert("  x "@ =~= seq![' ', ' ', 'x', ' ']);
        assert(joined(status_texts(statuses, n), "\n"@) =~= "Results\n"@ + status_block(statuses, n));
    }
}

/// The results as text: every status in order with how often it came, then the average,
/// the shortest and the longest time.
pub proof fn law_the_results_as_text(results: TestResults)
    ensures
        results_text(results) == "Results\n"@ + status_block(
            results.statuses@,
            results.statuses@.len() as int,
        ) + "\n\nTimings\n\n  avg:  "@ + duration_form(results.avg) + "\n  min:  "@ + duration_form(
            results.min,
        ) + "\n  max:  "@ + duration_form(results.max),
{
    let n = results.statuses@.len() as int;
    let sep = "\n"@;
    lemma_status_block(results.statuses@, n);
    let a = status_texts(results.statuses@, n);
    let avg = "  avg:  "@ + duration_form(results.avg);
    let min = "  min:  "@ + duration_form(results.min);
    let max = "  max:  "@ + duration_form(results.max);
    let b = a.push(""@);
    let c = b.push("Timings"@);
    let d = c.push(""@);
    let e = d.push(avg);
    let f = e.push(min);
    let g = f.push(max);
    lemma_joined_push(a, ""@, sep);
    lemma_joined_push(b, "Timings"@, sep);
    lemma_joined_push(c, ""@, sep);
    lemma_joined_push(d, avg, sep);
    lemma_joined_push(e, min, sep);
    lemma_joined_push(f, max, sep);
    assert(a + seq![""@, "Timings"@, ""@, avg, min, max] =~= g);
    reveal_strlit("\n");
    reveal_strlit("");
    reveal_strlit("Timings");
    reveal_strlit("  avg:  ");
    reveal_strlit("  min:  ");
    reveal_strlit("  max:  ");
    reveal_strlit("\n\nTimings\n\n  avg:  ");
    reveal_strlit("\n  min:  ");
    reveal_strlit("\n  max:  ");
    let head = joined(a, sep);
    assert(sep + ""@ + sep + "Timings"@ + sep + ""@ + sep + "  avg:  "@ =~= "\n\nTimings\n\n  avg:  "@);
    assert(sep + "  min:  "@ =~= "\n  min:  "@);
    assert(sep + "  max:  "@ =~= "\n  max:  "@);
    assert(joined(e, sep) =~= head + (sep + ""@ + sep + "Timings"@ + sep + ""@ + sep + "  avg:  "@)
        + duration_form(results.avg));
    assert(joined(f, sep) =~= joined(e, sep) + (sep + "  min:  "@) + duration_form(results.min));
    assert(joined(g, sep) =~= joined(f, sep) + (sep + "  max:  "@) + duration_form(results.max));
}

// ─── Places ───────────────────────────────────────────────────────────────────

/// A column of a wrapped line is on the row that begins at or before it and whose next
/// begins behind it.
pub proof fn law_a_column_is_on_its_row(line: Seq<char>, col: int, width: int)
    requires
        width > 0,
        0 <= col,
    ensures
        ({
            let starts = wrap_from(line, width, 0);
            let row = row_of(line, col, width);
            &&& 0 <= row < starts.len()
            &&& starts[row] <= col
            &&& row + 1 < starts.len() ==> col < starts[row + 1]
        }),
{
    crate::view_field::law_rows_fit_and_miss_nothing(line, width);
    lemma_reached(wrap_from(line, width, 0), col, 0);
}

proof fn lemma_reached(starts: Seq<int>, col: int, i: int)
    requires
        0 <= i <= starts.len(),
    ensures
        ({
            let n = reached(starts, col, i);
            &&& 0 <= n <= starts.len() - i
            &&& forall|j: int| i <= j < i + n ==> #[trigger] starts[j] <= col
            &&& i + n < starts.len() ==> starts[i + n] > col
        }),
    decreases starts.len() - i,
{
    if i < starts.len() && starts[i] <= col {
        lemma_reached(starts, col, i + 1);
    }
}

/// A byte caret on a character stands for that character's place, one at the end for none.
pub proof fn law_a_caret_stands_for_its_character(s: Seq<char>, i: int, to: int)
    requires
        0 <= i < s.len(),
    ensures
        place_of(s, offset(s, i)) == Some(i),
        place_of(s, size(s)) is None,
        moved_caret(s, Some(i), to) == offset(s, to),
        moved_caret(s, None, to) == size(s),
{
    crate::vim_laws::law_the_caret_is_where_it_was_left(s, i);
    crate::vim_laws::law_the_caret_is_where_it_was_left(s, s.len() as int);
    assert(s.take(s.len() as int) =~= s);
}

} // verus!
