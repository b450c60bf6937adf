//! Which pane a mode is drawn as.
use vstd::prelude::*;
use vstd::string::*;

use crate::config::str_opt;
use crate::app::{App, AppView};
use crate::app_keys::entry_at_hand;
use crate::form::{field_value, value_at, DraftView, RequestDraft};
use crate::panes::{Mode, ModeView};
use crate::request::{text_opt, Body};
use crate::theme::Color;
use crate::view::{bare, capped, one};
use crate::view_areas::{body_focus, body_lines, draw_edit_body, draw_import_curl, import_lines, one_row};
use crate::view_browse::{detail_lines, draw_detail_browse};
use crate::view_field::{inside, rows_before, scroll_of, Rect};
use crate::view_forms::{
    draw_edit_pairs, draw_new_profile, draw_new_request, draw_profile_list, draw_profile_select,
    draw_test_input, draw_var_input, edit_pairs_drawn, picks_drawn, profile_drawn, profile_list_drawn,
    request_drawn, test_drawn, vars_drawn,
};
use crate::view_help::{delete_lines, draw_confirm_delete};
use crate::view_panes::{framed, plain_title, Pane, PaneView};
use crate::view_text::titled;

verus! {

/// The row of the drawn form that has the focus. The walk of the form goes past the
/// body, which has a key of its own, so its last stop is the fifth row below the
/// fields.
pub open spec fn shown_focus(d: DraftView) -> int {
    let n = d.fields.len() as int;
    if d.focused >= n + 3 {
        capped(n + 4)
    } else {
        d.focused
    }
}

/// The request form as a pane.
pub open spec fn request_pane(d: DraftView, error: Option<Seq<char>>, unsaved: bool, area: Rect) -> PaneView {
    framed(
        titled(
            if d.original_name is Some {
                " Edit Request "@
            } else {
                " New Request "@
            },
            unsaved,
        ),
        Color::Green,
        request_drawn(
            d.fields,
            shown_focus(d),
            d.edit,
            d.profiles,
            d.headers,
            d.query,
            d.body,
            d.global,
            error,
            inside(area.width),
        ),
        area,
    )
}

/// The pane of a mode; responses and results are drawn by themselves.
pub open spec fn mode_pane(a: AppView, unsaved: bool, area: Rect) -> Option<PaneView> {
    let width = inside(area.width);
    match a.mode {
        ModeView::Browse => Some(
            PaneView {
                title: plain_title(" Details "@),
                border: Color::Blue,
                lines: match entry_at_hand(a) {
                    Some(i) => detail_lines(a.entries[i]),
                    None => seq![one(" No request selected."@, bare())],
                },
                scroll: 0,
                wrap: false,
            },
        ),
        ModeView::ProfileSelect(p) => Some(
            framed(
                plain_title(" Profile — "@ + p.entry_name + " "@),
                Color::Magenta,
                picks_drawn(p.profiles, p.selected, p.profiles.len() as int),
                area,
            ),
        ),
        ModeView::VarInput(p) => Some(
            framed(
                plain_title(" Variables — "@ + p.entry_name + " "@),
                Color::Yellow,
                vars_drawn(p.vars, p.focused, p.edit, width, p.vars.len() as int),
                area,
            ),
        ),
        ModeView::TestInput(p) => Some(
            framed(
                plain_title(" Test — "@ + p.entry_name + " "@),
                Color::Cyan,
                test_drawn(p.vars, p.iterations, p.focused, p.edit, width),
                area,
            ),
        ),
        ModeView::NewRequest(p) => Some(request_pane(p.draft, p.error, unsaved, area)),
        ModeView::ImportCurl(p) => Some(import_pane(p.buffer, p.error, area)),
        ModeView::EditPairs(p) => Some(
            framed(
                titled(p.kind.pane_name(), unsaved),
                Color::Cyan,
                edit_pairs_drawn(p.kind, p.rows, p.focused, p.edit, p.error, width),
                area,
            ),
        ),
        ModeView::EditBody(p) => {
            let lines = body_lines(p.content_type, p.data, p.focused, p.edit, p.error, width);
            Some(
                PaneView {
                    title: titled(" Body "@, unsaved),
                    border: Color::Green,
                    lines,
                    scroll: scroll_of(
                        capped(
                            rows_before(lines, width as int, lines.len() as int) as int,
                        ),
                        body_focus(lines, p.data, p.focused, p.edit, width),
                        inside(area.height) as int,
                    ),
                    wrap: true,
                },
            )
        },
        ModeView::ProfileList(p) => Some(
            framed(
                titled(" Profiles — "@ + field_value(p.draft.fields, 0) + " "@, unsaved),
                Color::Magenta,
                profile_list_drawn(p.draft.profiles, p.selected),
                area,
            ),
        ),
        ModeView::NewProfile(p) => Some(
            framed(
                titled(
                    if p.editing is Some {
                        " Edit Profile "@
                    } else {
                        " New Profile "@
                    },
                    unsaved,
                ),
                Color::Magenta,
                profile_drawn(p.name, p.params, p.focused, p.edit, p.error, width),
                area,
            ),
        ),
        ModeView::ConfirmDelete { entry_name, .. } => Some(
            PaneView {
                title: plain_title(" Confirm Delete "@),
                border: Color::Red,
                lines: delete_lines(entry_name),
                scroll: 0,
                wrap: false,
            },
        ),
        ModeView::Response(_) => None,
        ModeView::TestResponse(_) => None,
    }
}

/// The pane that takes a command.
pub open spec fn import_pane(buffer: Seq<char>, error: Option<Seq<char>>, area: Rect) -> PaneView {
    let lines = import_lines(buffer, error);
    let total = capped(
        rows_before(lines, inside(area.width) as int, lines.len() as int) as int,
    );
    PaneView {
        title: plain_title(" Import cURL "@),
        border: Color::Green,
        lines,
        scroll: scroll_of(
            total,
            one_row(
                if total > 0 {
                    total - 1
                } else {
                    0
                },
            ),
            inside(area.height) as int,
        ),
        wrap: true,
    }
}

fn words(o: &Option<String>) -> (r: Option<&str>)
    ensures
        str_opt(r) == text_opt(*o),
{
    match o {
        Some(s) => Some(s.as_str()),
        None => None,
    }
}

fn draw_request_form(draft: &RequestDraft, error: Option<&str>, unsaved: bool, area: Rect) -> (r: Pane)
    ensures
        r@ == request_pane(draft@, str_opt(error), unsaved, area),
{
    let n: usize = draft.fields.len();
    proof {
        assert(draft@.fields.len() == draft.fields@.len());
    }
    let far = draft.focused >= n && draft.focused - n >= 3;
    let focused: usize = if !far {
        draft.focused
    } else if n > usize::MAX - 4 {
        usize::MAX
    } else {
        n + 4
    };
    let body = match &draft.body {
        Some(b) => Some(b),
        None => None,
    };
    draw_new_request(
        area,
        &draft.fields,
        focused,
        &draft.edit,
        &draft.profiles,
        &draft.headers,
        &draft.query,
        body,
        draft.original_name.is_some(),
        draft.global,
        unsaved,
        error,
    )
}

/// The pane of the mode an application is in; responses and results are drawn by
/// themselves.
pub fn draw_mode(app: &App, unsaved: bool, area: Rect) -> (r: Option<Pane>)
    ensures
        match mode_pane(app@, unsaved, area) {
            Some(p) => r matches Some(q) && q@ == p,
            None => r is None,
        },
{
    match &app.mode {
        Mode::Browse => {
            let at = app.at_hand();
            let selected = match at {
                Some(i) => Some(&app.entries[i]),
                None => None,
            };
            Some(draw_detail_browse(selected))
        },
        Mode::ProfileSelect(p) => {
            proof {
                assert(p@.profiles.len() == p.profiles@.len());
            }
            Some(draw_profile_select(area, &p.profiles, p.selected, p.entry_name.as_str()))
        },
        Mode::VarInput(p) => {
            proof {
                assert(p@.vars.len() == p.vars@.len());
            }
            Some(draw_var_input(area, &p.vars, p.focused, &p.edit, p.entry_name.as_str()))
        },
        Mode::TestInput(p) => Some(
            draw_test_input(
                area,
                &p.vars,
                p.iterations.as_str(),
                p.focused,
                &p.edit,
                p.entry_name.as_str(),
            ),
        ),
        Mode::NewRequest(p) => Some(draw_request_form(&p.draft, words(&p.error), unsaved, area)),
        Mode::ImportCurl(p) => Some(draw_import_curl(area, p.buffer.as_str(), words(&p.error))),
        Mode::EditPairs(p) => Some(
            draw_edit_pairs(area, p.kind, &p.pairs, p.focused, &p.edit, unsaved, words(&p.error)),
        ),
        Mode::EditBody(p) => Some(
            draw_edit_body(
                area,
                p.content_type.as_str(),
                p.data.as_str(),
                p.focused,
                &p.edit,
                unsaved,
                words(&p.error),
            ),
        ),
        Mode::ProfileList(p) => {
            let name = value_at(&p.draft.fields, 0);
            Some(draw_profile_list(area, &p.draft.profiles, p.selected, name.as_str(), unsaved))
        },
        Mode::NewProfile(p) => Some(
            draw_new_profile(
                area,
                p.name.as_str(),
                &p.params,
                p.focused,
                &p.edit,
                unsaved,
                words(&p.error),
                p.editing.is_some(),
            ),
        ),
        Mode::ConfirmDelete { entry_name, .. } => Some(draw_confirm_delete(entry_name.as_str())),
        Mode::Response(_) => None,
        Mode::TestResponse(_) => None,
    }
}

} // verus!
