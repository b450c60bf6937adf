//! What holds of the pane that shows a response.
use vstd::prelude::*;
use vstd::string::*;

use crate::app::AppView;
use crate::app_keys::{key_handled, same_list};
use crate::keys::{KeyCode, KeyEvent};
use crate::panes::{ActionView, ModeView};
use crate::response::{
    filter_key, filtered_lines, lines_note, matching, message_view, pane_lines, response_key, selected_range,
    shown_text, KindView, ResponseActView, ResponseView,
};
use crate::text::{decimal, occurs, text_lines};
use crate::unicode::lowercase;

verus! {

/// Two panes with the same response in them.
pub open spec fn same_response(p: ResponseView, q: ResponseView) -> bool {
    &&& q.kind == p.kind
    &&& q.body == p.body
    &&& q.headers == p.headers
    &&& q.has_image == p.has_image
}

/// Two panes with the same response in them, shown and filtered alike.
pub open spec fn same_showing(p: ResponseView, q: ResponseView) -> bool {
    &&& same_response(p, q)
    &&& q.show_headers == p.show_headers
    &&& q.filter == p.filter
    &&& q.filter_active == p.filter_active
}

/// How many lines fit on screen, at least one.
pub open spec fn view_lines(height: u16) -> int {
    if height == 0 {
        1
    } else {
        height as int
    }
}

// ─── Lines ────────────────────────────────────────────────────────────────────

/// A filter takes the lines one by one: each stays in its place among those kept where
/// it holds the query in any case, and is gone where it does not.
pub proof fn law_a_filter_goes_line_by_line(
    before: Seq<Seq<char>>,
    line: Seq<char>,
    after: Seq<Seq<char>>,
    query: Seq<char>,
)
    requires
        query.len() > 0,
    ensures
        matching(before + seq![line] + after, query) == matching(before, query) + (if exists|i: int|
            0 <= i <= lowercase(line).len() - query.len() && #[trigger] lowercase(line).subrange(
                i,
                i + query.len(),
            ) == query {
            seq![line]
        } else {
            Seq::empty()
        }) + matching(after, query),
{
    lemma_matching_joins(before + seq![line], after, query);
    lemma_matching_joins(before, seq![line], query);
    assert(seq![line].drop_last() =~= Seq::<Seq<char>>::empty());
    assert(matching(seq![line].drop_last(), query) =~= Seq::<Seq<char>>::empty());
    let low = lowercase(line);
    if occurs(low, query) {
        assert(matching(seq![line], query) =~= seq![line]);
    } else {
        assert(matching(seq![line], query) =~= Seq::<Seq<char>>::empty());
    }
    if occurs(low, query) {
        let i = choose|i: int| crate::text::occurs_at(low, query, i);
        assert(low.subrange(i, i + query.len()) == query);
    }
    if exists|i: int|
        0 <= i <= low.len() - query.len() && #[trigger] low.subrange(i, i + query.len()) == query {
        let i = choose|i: int|
            0 <= i <= low.len() - query.len() && #[trigger] low.subrange(i, i + query.len()) == query;
        assert(crate::text::occurs_at(low, query, i));
    }
}

proof fn lemma_matching_joins(a: Seq<Seq<char>>, b: Seq<Seq<char>>, query: Seq<char>)
    ensures
        matching(a + b, query) == matching(a, query) + matching(b, query),
    decreases b.len(),
{
    if b.len() == 0 {
        assert(a + b =~= a);
        assert(matching(b, query) =~= Seq::<Seq<char>>::empty());
    } else {
        lemma_matching_joins(a, b.drop_last(), query);
        assert((a + b).drop_last() =~= a + b.drop_last());
        assert((a + b).last() == b.last());
    }
}

/// A pane on a text opens at its top with every line of the text, nothing filtered and
/// nothing selected, and the headers out of sight.
pub proof fn law_a_pane_opens_on_its_text(
    kind: KindView,
    body: Seq<char>,
    headers: Seq<char>,
    has_image: bool,
)
    ensures
        ({
            let p = message_view(kind, body, headers, has_image);
            &&& p.kind == kind && p.body == body && p.headers == headers && p.has_image == has_image
            &&& p.cursor == 0 && p.scroll == 0 && p.anchor is None && p.status is None
            &&& p.filter.len() == 0 && !p.filter_active && !p.show_headers
            &&& lowercase(Seq::empty()) == Seq::<char>::empty() ==> pane_lines(p) == text_lines(body)
        }),
{
    crate::response::law_no_filter_shows_every_line(text_lines(body));
}

/// With the headers on, they stand above the body and a blank line parts the two; a
/// response without headers shows its body alone.
pub proof fn law_headers_stand_above_the_body(headers: Seq<char>, body: Seq<char>)
    ensures
        headers.len() > 0 ==> shown_text(headers, true, body) == headers + seq!['\n', '\n'] + body,
        headers.len() == 0 ==> shown_text(headers, true, body) == body,
        shown_text(headers, false, body) == body,
{
    reveal_strlit("\n\n");
    assert("\n\n"@ =~= seq!['\n', '\n']);
}

/// `H` turns the headers on or off, twice is as good as not at all, and either way the
/// pane is read again from its top.
pub proof fn law_h_turns_the_headers_on_and_off(p: ResponseView, was_g: bool, height: u16)
    ensures
        ({
            let (q, g, act) = response_key(p, KeyCode::Char('H'), was_g, height);
            let (r, _, _) = response_key(q, KeyCode::Char('H'), g, height);
            &&& act == ResponseActView::Stay && !g
            &&& same_response(p, q) && q.filter == p.filter && q.filter_active == p.filter_active
            &&& p.headers.len() > 0 ==> q.show_headers != p.show_headers && q.cursor == 0 && q.scroll
                == 0 && q.anchor is None
            &&& p.headers.len() == 0 ==> q == (ResponseView { status: None, ..p })
            &&& pane_lines(r) == pane_lines(p)
        }),
{
}

// ─── Walking ──────────────────────────────────────────────────────────────────

/// `j` and Down go one line on and stop at the last; `k` and Up go one line back and stop
/// at the first. The view follows no further than it takes to keep the line on screen,
/// and nothing else of the pane changes.
pub proof fn law_walking_the_lines(p: ResponseView, code: KeyCode, was_g: bool, height: u16)
    requires
        0 <= p.cursor < pane_lines(p).len() <= 65535,
        code == KeyCode::Down || code == KeyCode::Char('j') || code == KeyCode::Up || code
            == KeyCode::Char('k'),
    ensures
        ({
            let down = code == KeyCode::Down || code == KeyCode::Char('j');
            let n = pane_lines(p).len();
            let (q, g, act) = response_key(p, code, was_g, height);
            &&& act == ResponseActView::Stay && !g
            &&& same_showing(p, q) && q.anchor == p.anchor
            &&& down && p.cursor + 1 < n ==> q.cursor == p.cursor + 1
            &&& down && p.cursor + 1 == n ==> q.cursor == p.cursor
            &&& !down && p.cursor > 0 ==> q.cursor == p.cursor - 1
            &&& !down && p.cursor == 0 ==> q.cursor == 0
            &&& p.scroll <= q.cursor < p.scroll + view_lines(height) ==> q.scroll == p.scroll
            &&& q.cursor < p.scroll ==> q.scroll == q.cursor
            &&& q.cursor >= p.scroll + view_lines(height) ==> q.scroll + view_lines(height) == q.cursor
                + 1
        }),
{
}

/// A second `g` goes to the first line, `G` to the last, which is put at the foot of the
/// view. A first `g` waits for the second.
pub proof fn law_to_the_ends_of_the_lines(p: ResponseView, height: u16)
    ensures
        ({
            let (q, g, act) = response_key(p, KeyCode::Char('g'), false, height);
            &&& g && act == ResponseActView::Stay && q == (ResponseView { status: None, ..p })
        }),
        ({
            let (q, g, act) = response_key(p, KeyCode::Char('g'), true, height);
            &&& !g && act == ResponseActView::Stay && same_showing(p, q) && q.anchor == p.anchor
            &&& q.cursor == 0 && q.scroll == 0
        }),
        forall|was_g: bool|
            ({
                let n = pane_lines(p).len();
                let (q, g, act) = #[trigger] response_key(p, KeyCode::Char('G'), was_g, height);
                &&& !g && act == ResponseActView::Stay && same_showing(p, q) && q.anchor == p.anchor
                &&& n > 0 ==> q.cursor == n - 1
                &&& n == 0 ==> q.cursor == 0
                &&& height < n <= 65535 ==> q.scroll + height == n
                &&& n <= height ==> q.scroll == 0
            }),
{
}

// ─── Selecting ────────────────────────────────────────────────────────────────

/// A selection covers the lines from where it began to the cursor, whichever comes
/// first; without one, the cursor's line alone.
pub proof fn law_a_selection_covers_what_lies_between(cursor: int, anchor: Option<int>, line: int)
    ensures
        ({
            let (from, to) = selected_range(cursor, anchor);
            from <= line <= to <==> (match anchor {
                None => line == cursor,
                Some(a) => a <= line <= cursor || cursor <= line <= a,
            })
        }),
{
}

/// `V` begins a selection on the cursor's line, and ends one that was begun.
pub proof fn law_v_begins_and_ends_a_selection(p: ResponseView, was_g: bool, height: u16)
    ensures
        ({
            let (q, g, act) = response_key(p, KeyCode::Char('V'), was_g, height);
            &&& act == ResponseActView::Stay && !g
            &&& same_showing(p, q) && q.cursor == p.cursor && q.scroll == p.scroll
            &&& p.anchor is None ==> q.anchor == Some(p.cursor)
            &&& p.anchor is Some ==> q.anchor is None
        }),
{
}

/// From `V`, one step and `y`: the two lines are copied, one above the other in the
/// order in which they are shown, whichever way the step went.
pub proof fn law_a_step_selects_two_lines(p: ResponseView, down: bool, height: u16)
    requires
        p.anchor is None,
        pane_lines(p).len() <= 65535,
        down ==> 0 <= p.cursor < pane_lines(p).len() - 1,
        !down ==> 0 < p.cursor < pane_lines(p).len(),
    ensures
        ({
            let step = if down {
                KeyCode::Char('j')
            } else {
                KeyCode::Char('k')
            };
            let (a, _, _) = response_key(p, KeyCode::Char('V'), false, height);
            let (b, _, _) = response_key(a, step, false, height);
            let (_, _, act) = response_key(b, KeyCode::Char('y'), false, height);
            let first = if down {
                p.cursor
            } else {
                p.cursor - 1
            };
            act == ResponseActView::CopyLines(
                pane_lines(p)[first] + seq!['\n'] + pane_lines(p)[first + 1],
                2,
            )
        }),
{
    let step = if down {
        KeyCode::Char('j')
    } else {
        KeyCode::Char('k')
    };
    let (a, _, _) = response_key(p, KeyCode::Char('V'), false, height);
    let (b, _, _) = response_key(a, step, false, height);
    let first = if down {
        p.cursor
    } else {
        p.cursor - 1
    };
    let lines = pane_lines(p);
    assert(pane_lines(b) == lines);
    assert(selected_range(b.cursor, b.anchor) == (first, first + 1));
    let two = crate::response::picked_lines(b)->0;
    assert(two =~= seq![lines[first], lines[first + 1]]);
    reveal_strlit("\n");
    assert("\n"@ =~= seq!['\n']);
    reveal_with_fuel(crate::text::joined, 3);
    assert(two.drop_last() =~= seq![lines[first]]);
    assert(crate::text::joined(two, "\n"@) =~= lines[first] + seq!['\n'] + lines[first + 1]);
}

/// What was copied is said in so many lines.
pub proof fn law_the_note_says_how_many_lines(count: nat)
    ensures
        count == 1 ==> lines_note(count) == "copied 1 line"@,
        count != 1 ==> lines_note(count) == "copied "@ + decimal(count) + " lines"@,
{
    reveal_strlit("copied ");
    reveal_strlit(" line");
    reveal_strlit("s");
    reveal_strlit(" lines");
    reveal_strlit("copied 1 line");
    if count == 1 {
        assert(decimal(1) =~= seq!['1']);
        assert(lines_note(count) =~= "copied 1 line"@);
    } else {
        assert(lines_note(count) =~= "copied "@ + decimal(count) + " lines"@);
    }
}

// ─── The filter ───────────────────────────────────────────────────────────────

/// `f` begins typing a filter; what is typed is added at its end, Backspace takes the
/// last character away, Enter keeps it and Esc drops it. None of these touches the
/// response, and the pane's own keys are typed like any other.
pub proof fn law_typing_a_filter(p: ResponseView, c: char, was_g: bool, height: u16)
    ensures
        ({
            let (q, g, act) = response_key(p, KeyCode::Char('f'), was_g, height);
            &&& act == ResponseActView::Stay && !g && q.filter_active && q.filter == p.filter
            &&& same_response(p, q) && q.cursor == p.cursor && q.anchor == p.anchor && q.show_headers
                == p.show_headers
        }),
        ({
            let q = filter_key(p, KeyCode::Char(c));
            let r = filter_key(q, KeyCode::Backspace);
            &&& q.filter == p.filter + seq![c] && q.filter_active == p.filter_active
            &&& r.filter == p.filter && r.filter_active == p.filter_active
            &&& same_response(p, q) && same_response(p, r)
            &&& q.show_headers == p.show_headers && r.show_headers == p.show_headers
        }),
        p.filter.len() == 0 ==> filter_key(p, KeyCode::Backspace).filter.len() == 0,
        filter_key(p, KeyCode::Enter) == (ResponseView { filter_active: false, ..p }),
        ({
            let q = filter_key(p, KeyCode::Esc);
            &&& q.filter.len() == 0 && !q.filter_active && same_response(p, q) && q.show_headers
                == p.show_headers
        }),
{
    assert(p.filter.push(c) =~= p.filter + seq![c]);
    assert(p.filter.push(c).drop_last() =~= p.filter);
}

/// What a filter shows of a text is what it shows of that text in another case: the
/// query is compared in lower case.
pub proof fn law_a_filter_ignores_its_case(body: Seq<char>, a: Seq<char>, b: Seq<char>)
    requires
        lowercase(a) == lowercase(b),
    ensures
        filtered_lines(body, a) == filtered_lines(body, b),
{
}

// ─── Leaving ──────────────────────────────────────────────────────────────────

/// A key that means nothing changes nothing but the note, which goes.
pub proof fn law_a_key_without_a_meaning(p: ResponseView, code: KeyCode, was_g: bool, height: u16)
    requires
        !(code is Esc) && !(code is Down) && !(code is Up),
        code matches KeyCode::Char(c) ==> !(seq![
            'q',
            'j',
            'k',
            'g',
            'G',
            'V',
            'y',
            'c',
            'H',
            'f',
        ]).contains(c),
    ensures
        response_key(p, code, was_g, height) == (
            (ResponseView { status: None, ..p }),
            false,
            ResponseActView::Stay,
        ),
{
    let keys = seq!['q', 'j', 'k', 'g', 'G', 'V', 'y', 'c', 'H', 'f'];
    assert(keys[0] == 'q' && keys[1] == 'j' && keys[2] == 'k' && keys[3] == 'g' && keys[4] == 'G');
    assert(keys[5] == 'V' && keys[6] == 'y' && keys[7] == 'c' && keys[8] == 'H' && keys[9] == 'f');
}

/// In the pane, keys go to the filter while that is typed and to the pane otherwise:
/// `q` quits, Esc without a selection goes back to the list, and the list stays as it
/// is behind the pane.
pub proof fn law_keys_go_to_the_pane(a: AppView, p: ResponseView, key: KeyEvent, now: u64)
    requires
        a.mode == ModeView::Response(p),
        !a.show_help,
    ensures
        ({
            let (b, act) = key_handled(a, key, now);
            &&& same_list(a, b) && b.register == a.register && !b.show_help
            &&& p.filter_active ==> act == ActionView::Nothing && b.mode == ModeView::Response(
                filter_key(p, key.code),
            ) && b.pending_g == a.pending_g
            &&& !p.filter_active && key.code == KeyCode::Char('q') ==> act == ActionView::Quit
            &&& !p.filter_active && key.code == KeyCode::Esc && p.anchor is None ==> b.mode
                == ModeView::Browse && act == ActionView::Nothing
            &&& !p.filter_active && !(key.code == KeyCode::Esc && p.anchor is None) ==> b.mode
                == ModeView::Response(
                response_key(p, key.code, a.pending_g, a.response_view_height).0,
            )
            &&& !p.filter_active ==> b.pending_g == (key.code == KeyCode::Char('g') && !a.pending_g)
        }),
{
}

} // verus!
