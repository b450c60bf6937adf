//! The response pane: what it shows, and how its cursor and selection move.
use vstd::prelude::*;
use vstd::string::*;

use crate::keys::KeyCode;
use crate::request::text_opt;
use crate::text::{
    concat3, contains, decimal, decimal_string, join, joined, lines_of, occurs, text_lines, texts,
};
use crate::unicode::{lowercase, to_lowercase};

verus! {

// ─── What is shown ────────────────────────────────────────────────────────────

/// The line holds the lowercased query, whatever its own case; every line holds
/// nothing.
pub open spec fn line_matches(line: Seq<char>, query: Seq<char>) -> bool {
    query.len() == 0 || occurs(lowercase(line), query)
}

/// Those of the lines that match.
pub open spec fn matching(lines: Seq<Seq<char>>, query: Seq<char>) -> Seq<Seq<char>>
    decreases lines.len(),
{
    if lines.len() == 0 {
        lines
    } else {
        let before = matching(lines.drop_last(), query);
        if line_matches(lines.last(), query) {
            before.push(lines.last())
        } else {
            before
        }
    }
}

/// The lines of a body that a filter leaves.
pub open spec fn filtered_lines(body: Seq<char>, filter: Seq<char>) -> Seq<Seq<char>> {
    matching(text_lines(body), lowercase(filter))
}

/// The lines whose lowered form holds the query; every line where there is none.
pub open spec fn kept_lines(lines: Seq<Seq<char>>, lowered: Seq<Seq<char>>, query: Seq<char>, n: int) -> Seq<
    Seq<char>,
>
    decreases n,
{
    if n <= 0 {
        Seq::empty()
    } else if query.len() == 0 || occurs(lowered[n - 1], query) {
        kept_lines(lines, lowered, query, n - 1).push(lines[n - 1])
    } else {
        kept_lines(lines, lowered, query, n - 1)
    }
}

/// Keeps the lines whose lowered form holds the query.
pub fn keep_lines(lines: &Vec<String>, lowered: &Vec<String>, query: &str) -> (r: Vec<String>)
    requires
        lines.len() == lowered.len(),
    ensures
        texts(r@) == kept_lines(texts(lines@), texts(lowered@), query@, lines.len() as int),
{
    let ghost all = texts(lines@);
    let ghost low = texts(lowered@);
    let mut kept: Vec<String> = Vec::new();
    let mut i: usize = 0;
    proof {
        assert(texts(kept@) =~= Seq::empty());
    }
    while i < lines.len()
        invariant
            i <= lines.len(),
            lines.len() == lowered.len(),
            all == texts(lines@),
            low == texts(lowered@),
            texts(kept@) == kept_lines(all, low, query@, i as int),
        decreases lines.len() - i,
    {
        proof {
            assert(all[i as int] == lines@[i as int]@);
            assert(low[i as int] == lowered@[i as int]@);
        }
        if query.is_empty() || contains(lowered[i].as_str(), query) {
            let ghost before = texts(kept@);
            kept.push(lines[i].clone());
            proof {
                assert(texts(kept@) =~= before.push(all[i as int]));
            }
        }
        i = i + 1;
    }
    kept
}

/// The lines in lower case.
pub open spec fn lowered_lines(lines: Seq<Seq<char>>) -> Seq<Seq<char>> {
    lines.map_values(|l: Seq<char>| lowercase(l))
}

proof fn lemma_kept_lines(lines: Seq<Seq<char>>, query: Seq<char>, n: int)
    requires
        0 <= n <= lines.len(),
    ensures
        kept_lines(lines, lowered_lines(lines), query, n) == matching(lines.take(n), query),
    decreases n,
{
    if n > 0 {
        lemma_kept_lines(lines, query, n - 1);
        assert(lines.take(n).drop_last() =~= lines.take(n - 1));
        assert(lines.take(n).last() == lines[n - 1]);
    }
}

/// The lines of a body that a filter leaves: what the pane draws, what its cursor
/// moves over, and what a copy takes.
pub fn visible_response_lines(body: &str, filter: &str) -> (r: Vec<String>)
    ensures
        texts(r@) == filtered_lines(body@, filter@),
{
    let query = to_lowercase(filter);
    let lines = lines_of(body);
    let ghost all = texts(lines@);
    let ghost goal = lowered_lines(all);
    let mut lowered: Vec<String> = Vec::new();
    let mut i: usize = 0;
    proof {
        assert(texts(lowered@) =~= goal.take(0));
    }
    while i < lines.len()
        invariant
            i <= lines.len(),
            all == texts(lines@),
            goal == lowered_lines(all),
            lowered.len() == i,
            texts(lowered@) == goal.take(i as int),
        decreases lines.len() - i,
    {
        let ghost before = lowered@;
        lowered.push(to_lowercase(lines[i].as_str()));
        proof {
            assert(all[i as int] == lines@[i as int]@);
            assert(texts(lowered@) =~= texts(before).push(goal[i as int]));
            assert(goal.take(i + 1) =~= goal.take(i as int).push(goal[i as int]));
        }
        i = i + 1;
    }
    proof {
        assert(goal.take(goal.len() as int) =~= goal);
        assert(all.take(all.len() as int) =~= all);
        lemma_kept_lines(all, query@, all.len() as int);
    }
    keep_lines(&lines, &lowered, query.as_str())
}

/// The lines between the cursor and where a selection began, both included.
pub open spec fn selected_range(cursor: int, anchor: Option<int>) -> (int, int) {
    match anchor {
        Some(a) if a <= cursor => (a, cursor),
        Some(a) => (cursor, a),
        None => (cursor, cursor),
    }
}

/// The inclusive range of lines a selection covers, in view order.
pub fn selection_range(cursor: usize, anchor: Option<usize>) -> (r: (usize, usize))
    ensures
        (r.0 as int, r.1 as int) == selected_range(
            cursor as int,
            match anchor {
                Some(a) => Some(a as int),
                None => None,
            },
        ),
        r.0 <= r.1,
{
    match anchor {
        Some(a) => {
            if a <= cursor {
                (a, cursor)
            } else {
                (cursor, a)
            }
        },
        None => (cursor, cursor),
    }
}

/// What a pane shows: an answer, a failure, or a command that was made.
#[derive(Debug, PartialEq, Eq)]
pub enum ResponseKind {
    Http(u16),
    Error,
    /// A generated command, and what came of copying it.
    Curl { copied: Result<(), String> },
}

/// The same, as text.
pub ghost enum KindView {
    Http(u16),
    Error,
    /// The words of the failure, where copying failed.
    Curl { failure: Option<Seq<char>> },
}

impl View for ResponseKind {
    type V = KindView;

    open spec fn view(&self) -> KindView {
        match self {
            ResponseKind::Http(s) => KindView::Http(*s),
            ResponseKind::Error => KindView::Error,
            ResponseKind::Curl { copied } => KindView::Curl {
                failure: match copied {
                    Ok(_) => None,
                    Err(e) => Some(e@),
                },
            },
        }
    }
}

/// The response pane.
#[derive(Debug, PartialEq, Eq)]
pub struct ResponsePane {
    pub kind: ResponseKind,
    pub body: String,
    /// The response's headers, one to a line.
    pub headers: String,
    pub show_headers: bool,
    pub scroll: u16,
    pub response_filter: String,
    pub response_filter_active: bool,
    /// Counted over the lines that the filter leaves.
    pub cursor: usize,
    /// Where a selection began.
    pub anchor: Option<usize>,
    /// What the last key came to, until the next one.
    pub status: Option<String>,
    /// Whether a picture belongs below the text.
    pub has_image: bool,
}

/// The same, as text.
pub ghost struct ResponseView {
    pub kind: KindView,
    pub body: Seq<char>,
    pub headers: Seq<char>,
    pub show_headers: bool,
    pub scroll: u16,
    pub filter: Seq<char>,
    pub filter_active: bool,
    pub cursor: int,
    pub anchor: Option<int>,
    pub status: Option<Seq<char>>,
    pub has_image: bool,
}

impl View for ResponsePane {
    type V = ResponseView;

    open spec fn view(&self) -> ResponseView {
        ResponseView {
            kind: self.kind@,
            body: self.body@,
            headers: self.headers@,
            show_headers: self.show_headers,
            scroll: self.scroll,
            filter: self.response_filter@,
            filter_active: self.response_filter_active,
            cursor: self.cursor as int,
            anchor: match self.anchor {
                Some(a) => Some(a as int),
                None => None,
            },
            status: text_opt(self.status),
            has_image: self.has_image,
        }
    }
}

/// A pane on a text, at its top.
pub open spec fn message_view(
    kind: KindView,
    body: Seq<char>,
    headers: Seq<char>,
    has_image: bool,
) -> ResponseView {
    ResponseView {
        kind,
        body,
        headers,
        show_headers: false,
        scroll: 0,
        filter: Seq::empty(),
        filter_active: false,
        cursor: 0,
        anchor: None,
        status: None,
        has_image,
    }
}

/// What is noted when lines were copied.
pub open spec fn lines_note(count: nat) -> Seq<char> {
    "copied "@ + decimal(count) + " line"@ + (if count == 1 {
        Seq::empty()
    } else {
        "s"@
    })
}

/// The text of a pane: the body, below the headers where those are switched on.
pub open spec fn shown_text(headers: Seq<char>, show_headers: bool, body: Seq<char>) -> Seq<char> {
    if show_headers && headers.len() > 0 {
        headers + "\n\n"@ + body
    } else {
        body
    }
}

/// The text of a pane: the body, below the headers where those are switched on.
pub fn response_text(headers: &str, show_headers: bool, body: &str) -> (r: String)
    ensures
        r@ == shown_text(headers@, show_headers, body@),
{
    if show_headers && !headers.is_empty() {
        concat3(headers, "\n\n", body)
    } else {
        body.to_owned()
    }
}

/// The lines a pane shows.
pub open spec fn pane_lines(p: ResponseView) -> Seq<Seq<char>> {
    filtered_lines(shown_text(p.headers, p.show_headers, p.body), p.filter)
}

// ─── Keys ─────────────────────────────────────────────────────────────────────

/// What the program does after a key in the response pane.
#[derive(Debug, PartialEq, Eq)]
pub enum ResponseAct {
    Stay,
    Leave,
    Quit,
    /// Copy these lines of the view, so many.
    CopyLines(String, usize),
    /// Copy everything the view shows.
    CopyAll(String),
}

/// The same, as text.
pub ghost enum ResponseActView {
    Stay,
    Leave,
    Quit,
    CopyLines(Seq<char>, int),
    CopyAll(Seq<char>),
}

impl View for ResponseAct {
    type V = ResponseActView;

    open spec fn view(&self) -> ResponseActView {
        match self {
            ResponseAct::Stay => ResponseActView::Stay,
            ResponseAct::Leave => ResponseActView::Leave,
            ResponseAct::Quit => ResponseActView::Quit,
            ResponseAct::CopyLines(s, n) => ResponseActView::CopyLines(s@, *n as int),
            ResponseAct::CopyAll(s) => ResponseActView::CopyAll(s@),
        }
    }
}

/// The cursor one line on or back over `count` lines, and the view scrolled only as
/// far as keeps it on screen.
pub open spec fn cursor_moved(p: ResponseView, count: int, down: bool, height: u16) -> ResponseView {
    if count == 0 {
        p
    } else {
        let wanted = if down {
            p.cursor + 1
        } else if p.cursor > 0 {
            p.cursor - 1
        } else {
            0
        };
        let cursor = if wanted < count {
            wanted
        } else {
            count - 1
        };
        let view = if height == 0 {
            1
        } else {
            height as int
        };
        let scroll = if cursor < p.scroll {
            cursor
        } else if cursor >= p.scroll + view {
            if cursor + 1 - view < 65535 {
                cursor + 1 - view
            } else {
                65535
            }
        } else {
            p.scroll as int
        };
        ResponseView { cursor, scroll: scroll as u16, ..p }
    }
}

/// The cursor on the last line, which is at the foot of the view.
pub open spec fn cursor_at_foot(p: ResponseView, count: int, height: u16) -> ResponseView {
    let last = if count < 65535 {
        count
    } else {
        65535
    };
    ResponseView {
        cursor: if count > 0 {
            count - 1
        } else {
            0
        },
        scroll: if last > height {
            (last - height) as u16
        } else {
            0
        },
        ..p
    }
}

/// What `y` copies: the selected lines, or the cursor's. Nothing where the pane
/// shows nothing there.
pub open spec fn picked_lines(p: ResponseView) -> Option<Seq<Seq<char>>> {
    let lines = pane_lines(p);
    let (from, to) = selected_range(p.cursor, p.anchor);
    let last = if lines.len() > 0 {
        lines.len() - 1
    } else {
        0
    };
    let end = if to < last {
        to + 1
    } else {
        last + 1
    };
    if from <= end <= lines.len() {
        Some(lines.subrange(from, end))
    } else {
        None
    }
}

/// The view back at its top, with nothing selected.
pub open spec fn view_reset(p: ResponseView) -> ResponseView {
    ResponseView { scroll: 0, cursor: 0, anchor: None, ..p }
}

/// One key in the response pane: the pane after it, whether a first `g` is now
/// pending, and what is to be done. `was_g` says that one was pending before.
pub open spec fn response_key(p: ResponseView, code: KeyCode, was_g: bool, height: u16) -> (
    ResponseView,
    bool,
    ResponseActView,
) {
    let q = ResponseView { status: None, ..p };
    let lines = pane_lines(p);
    let stay = ResponseActView::Stay;
    match code {
        KeyCode::Esc => if q.anchor is Some {
            (ResponseView { anchor: None, ..q }, false, stay)
        } else {
            (q, false, ResponseActView::Leave)
        },
        KeyCode::Down => (cursor_moved(q, lines.len() as int, true, height), false, stay),
        KeyCode::Up => (cursor_moved(q, lines.len() as int, false, height), false, stay),
        KeyCode::Char(c) => if c == 'q' {
            (q, false, ResponseActView::Quit)
        } else if c == 'j' {
            (cursor_moved(q, lines.len() as int, true, height), false, stay)
        } else if c == 'k' {
            (cursor_moved(q, lines.len() as int, false, height), false, stay)
        } else if c == 'g' {
            if was_g {
                (ResponseView { cursor: 0, scroll: 0, ..q }, false, stay)
            } else {
                (q, true, stay)
            }
        } else if c == 'G' {
            (cursor_at_foot(q, lines.len() as int, height), false, stay)
        } else if c == 'V' {
            (
                ResponseView {
                    anchor: if q.anchor is Some {
                        None
                    } else {
                        Some(q.cursor)
                    },
                    ..q
                },
                false,
                stay,
            )
        } else if c == 'y' {
            (
                q,
                false,
                match picked_lines(p) {
                    Some(l) => ResponseActView::CopyLines(joined(l, "\n"@), l.len() as int),
                    None => stay,
                },
            )
        } else if c == 'c' {
            (q, false, ResponseActView::CopyAll(joined(lines, "\n"@)))
        } else if c == 'H' && q.headers.len() > 0 {
            (view_reset(ResponseView { show_headers: !q.show_headers, ..q }), false, stay)
        } else if c == 'f' {
            (ResponseView { filter_active: true, ..q }, false, stay)
        } else {
            (q, false, stay)
        },
        _ => (q, false, stay),
    }
}

/// One key while the filter of the pane is being typed. Whatever changes which
/// lines show puts the view back at its top.
pub open spec fn filter_key(p: ResponseView, code: KeyCode) -> ResponseView {
    match code {
        KeyCode::Esc => view_reset(
            ResponseView { filter: Seq::empty(), filter_active: false, ..p },
        ),
        KeyCode::Enter => ResponseView { filter_active: false, ..p },
        KeyCode::Char(c) => view_reset(ResponseView { filter: p.filter.push(c), ..p }),
        KeyCode::Backspace => view_reset(
            ResponseView {
                filter: if p.filter.len() > 0 {
                    p.filter.drop_last()
                } else {
                    p.filter
                },
                ..p
            },
        ),
        _ => p,
    }
}

/// A string without its last character.
pub fn pop_char(s: &str) -> (r: String)
    ensures
        r@ == if s@.len() > 0 {
            s@.drop_last()
        } else {
            s@
        },
{
    let v = crate::text::chars_of(s);
    let n: usize = v.len();
    if n > 0 {
        proof {
            assert(v@.subrange(0, n - 1) =~= s@.drop_last());
        }
        crate::text::slice_string(&v, 0, n - 1)
    } else {
        s.to_owned()
    }
}

impl ResponsePane {
    /// A pane on a text.
    pub fn message(kind: ResponseKind, body: String, headers: String, has_image: bool) -> (r:
        ResponsePane)
        ensures
            r@ == message_view(kind@, body@, headers@, has_image),
    {
        ResponsePane {
            kind,
            body,
            headers,
            show_headers: false,
            scroll: 0,
            response_filter: String::new(),
            response_filter_active: false,
            cursor: 0,
            anchor: None,
            status: None,
            has_image,
        }
    }

    /// The lines the pane shows.
    pub fn lines(&self) -> (r: Vec<String>)
        ensures
            texts(r@) == pane_lines(self@),
    {
        let text = response_text(self.headers.as_str(), self.show_headers, self.body.as_str());
        visible_response_lines(text.as_str(), self.response_filter.as_str())
    }

    fn move_cursor(&mut self, down: bool, height: u16)
        ensures
            final(self)@ == cursor_moved(
                old(self)@,
                pane_lines(old(self)@).len() as int,
                down,
                height,
            ),
    {
        let lines = self.lines();
        let count: usize = lines.len();
        proof {
            assert(texts(lines@).len() == count);
        }
        if count == 0 {
            return;
        }
        let last: usize = count - 1;
        let cursor: usize = if down {
            if self.cursor < last {
                self.cursor + 1
            } else {
                last
            }
        } else if self.cursor == 0 {
            0
        } else if self.cursor - 1 < last {
            self.cursor - 1
        } else {
            last
        };
        let view: usize = if height == 0 {
            1
        } else {
            height as usize
        };
        let top: usize = self.scroll as usize;
        if cursor < top {
            self.scroll = cursor as u16;
        } else if cursor - top >= view {
            let scroll: usize = cursor - (view - 1);
            self.scroll =
            if scroll < 65535 {
                scroll as u16
            } else {
                65535
            };
        }
        self.cursor = cursor;
    }

    fn go_to_foot(&mut self, height: u16)
        ensures
            final(self)@ == cursor_at_foot(
                old(self)@,
                pane_lines(old(self)@).len() as int,
                height,
            ),
    {
        let lines = self.lines();
        let count: usize = lines.len();
        proof {
            assert(texts(lines@).len() == count);
        }
        self.cursor =
        if count > 0 {
            count - 1
        } else {
            0
        };
        let last: u16 = if count < 65535 {
            count as u16
        } else {
            65535
        };
        self.scroll =
        if last > height {
            last - height
        } else {
            0
        };
    }

    fn reset_view(&mut self)
        ensures
            final(self)@ == view_reset(old(self)@),
    {
        self.scroll = 0;
        self.cursor = 0;
        self.anchor = None;
    }

    fn pick(&self) -> (r: Option<(String, usize)>)
        ensures
            picked_lines(self@) matches Some(l) ==> (r matches Some(p) && p.0@ == joined(l, "\n"@)
                && p.1 == l.len()),
            picked_lines(self@) is None ==> r is None,
    {
        let lines = self.lines();
        let ghost all = texts(lines@);
        let (from, to) = selection_range(self.cursor, self.anchor);
        let n: usize = lines.len();
        if n == 0 {
            return None;
        }
        let end: usize = if to < n - 1 {
            to + 1
        } else {
            n
        };
        if from > end {
            return None;
        }
        let mut picked: Vec<String> = Vec::new();
        let mut i: usize = from;
        proof {
            assert(texts(picked@) =~= all.subrange(from as int, from as int));
        }
        while i < end
            invariant
                from <= i <= end <= lines.len(),
                all == texts(lines@),
                texts(picked@) == all.subrange(from as int, i as int),
            decreases end - i,
        {
            let ghost before = texts(picked@);
            picked.push(lines[i].clone());
            proof {
                assert(texts(picked@) =~= before.push(all[i as int]));
                assert(all.subrange(from as int, i + 1) =~= before.push(all[i as int]));
            }
            i = i + 1;
        }
        proof {
            assert(texts(picked@).len() == picked@.len());
        }
        Some((join(&picked, "\n"), end - from))
    }

    /// One key in the pane. `pending_g` says that a first `g` was typed.
    pub fn handle_key(&mut self, code: KeyCode, pending_g: &mut bool, view_height: u16) -> (r:
        ResponseAct)
        ensures
            (final(self)@, *final(pending_g), r@) == response_key(
                old(self)@,
                code,
                *old(pending_g),
                view_height,
            ),
    {
        let was_g = *pending_g;
        *pending_g = false;
        self.status = None;
        match code {
            KeyCode::Esc => {
                match self.anchor {
                    Some(_) => {
                        self.anchor = None;
                        ResponseAct::Stay
                    },
                    None => ResponseAct::Leave,
                }
            },
            KeyCode::Down => {
                self.move_cursor(true, view_height);
                ResponseAct::Stay
            },
            KeyCode::Up => {
                self.move_cursor(false, view_height);
                ResponseAct::Stay
            },
            KeyCode::Char(c) => {
                if c == 'q' {
                    return ResponseAct::Quit;
                }
                if c == 'y' {
                    return match self.pick() {
                        Some(p) => ResponseAct::CopyLines(p.0, p.1),
                        None => ResponseAct::Stay,
                    };
                }
                if c == 'c' {
                    let lines = self.lines();
                    return ResponseAct::CopyAll(join(&lines, "\n"));
                }
                if c == 'j' {
                    self.move_cursor(true, view_height);
                } else if c == 'k' {
                    self.move_cursor(false, view_height);
                } else if c == 'g' {
                    if was_g {
                        self.cursor = 0;
                        self.scroll = 0;
                    } else {
                        *pending_g = true;
                    }
                } else if c == 'G' {
                    self.go_to_foot(view_height);
                } else if c == 'V' {
                    self.anchor =
                    match self.anchor {
                        Some(_) => None,
                        None => Some(self.cursor),
                    };
                } else if c == 'H' {
                    if !self.headers.as_str().is_empty() {
                        self.show_headers = !self.show_headers;
                        self.reset_view();
                    }
                } else if c == 'f' {
                    self.response_filter_active = true;
                }
                ResponseAct::Stay
            },
            _ => ResponseAct::Stay,
        }
    }

    /// One key while the filter is being typed.
    pub fn handle_key_filter(&mut self, code: KeyCode)
        ensures
            final(self)@ == filter_key(old(self)@, code),
    {
        match code {
            KeyCode::Esc => {
                self.response_filter = String::new();
                self.response_filter_active = false;
                self.reset_view();
            },
            KeyCode::Enter => {
                self.response_filter_active = false;
            },
            KeyCode::Char(c) => {
                self.response_filter.push(c);
                self.reset_view();
            },
            KeyCode::Backspace => {
                self.response_filter = pop_char(self.response_filter.as_str());
                self.reset_view();
            },
            _ => {},
        }
    }

    /// Notes that lines were copied, and drops the selection.
    pub fn note_lines_copied(&mut self, count: usize)
        ensures
            final(self)@ == (ResponseView {
                anchor: None,
                status: Some(lines_note(count as nat)),
                ..old(self)@
            }),
    {
        self.anchor = None;
        let mut note = "copied ".to_owned();
        note.append(decimal_string(count as u128).as_str());
        note.append(" line");
        if count != 1 {
            note.append("s");
        }
        proof {
            let end: Seq<char> = if count == 1 {
                Seq::empty()
            } else {
                "s"@
            };
            assert(note@ =~= "copied "@ + decimal(count as nat) + " line"@ + end);
        }
        self.status = Some(note);
    }

    /// Notes that the whole view was copied.
    pub fn note_all_copied(&mut self)
        ensures
            final(self)@ == (ResponseView {
                status: Some(
                    if old(self)@.filter.len() == 0 {
                        "copied response"@
                    } else {
                        "copied filtered lines"@
                    },
                ),
                ..old(self)@
            }),
    {
        self.status =
        Some(
            if self.response_filter.as_str().is_empty() {
                "copied response".to_owned()
            } else {
                "copied filtered lines".to_owned()
            },
        );
    }
}

// ─── Laws ─────────────────────────────────────────────────────────────────────

/// Moving the cursor keeps it on a line and on screen.
pub proof fn law_the_cursor_stays_on_screen(p: ResponseView, count: int, down: bool, height: u16)
    requires
        0 < count <= 65535,
        0 <= p.cursor,
    ensures
        ({
            let q = cursor_moved(p, count, down, height);
            let view = if height == 0 {
                1
            } else {
                height as int
            };
            0 <= q.cursor < count && q.scroll <= q.cursor < q.scroll + view
        }),
{
}

/// A selection dragged upward covers the lines that one dragged down does.
pub proof fn law_a_selection_has_no_direction(a: int, b: int)
    ensures
        selected_range(a, Some(b)) == selected_range(b, Some(a)),
{
}

/// Without a filter every line shows, in order.
pub proof fn law_no_filter_shows_every_line(lines: Seq<Seq<char>>)
    ensures
        matching(lines, Seq::empty()) == lines,
    decreases lines.len(),
{
    if lines.len() > 0 {
        law_no_filter_shows_every_line(lines.drop_last());
        assert(lines =~= lines.drop_last().push(lines.last()));
    }
}

/// What a filter shows are matching lines, and every matching line is shown.
pub proof fn law_a_filter_shows_exactly_what_matches(
    lines: Seq<Seq<char>>,
    query: Seq<char>,
    line: Seq<char>,
)
    ensures
        matching(lines, query).contains(line) <==> lines.contains(line) && line_matches(line, query),
    decreases lines.len(),
{
    if lines.len() > 0 {
        let front = lines.drop_last();
        let last = lines.last();
        law_a_filter_shows_exactly_what_matches(front, query, line);
        let before = matching(front, query);
        if lines.contains(line) {
            let k = choose|k: int| 0 <= k < lines.len() && lines[k] == line;
            if k < front.len() {
                assert(front[k] == line);
                assert(front.contains(line));
            }
        }
        if front.contains(line) {
            let k = choose|k: int| 0 <= k < front.len() && front[k] == line;
            assert(lines[k] == line);
        }
        assert(lines[lines.len() - 1] == last);
        if line_matches(last, query) {
            let after = before.push(last);
            if before.contains(line) {
                let k = choose|k: int| 0 <= k < before.len() && before[k] == line;
                assert(after[k] == line);
            }
            assert(after[before.len() as int] == last);
            if after.contains(line) {
                let k = choose|k: int| 0 <= k < after.len() && after[k] == line;
                if k < before.len() {
                    assert(before[k] == line);
                }
            }
        }
    }
}

} // verus!
