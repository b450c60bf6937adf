//! Whatever has the focus is on the screen.
use vstd::prelude::*;
use vstd::string::*;

use crate::edit::EditView;
use crate::form::PairKind;
use crate::order::Row;
use crate::request::{BodyView, ProfileView, TextMap};
use crate::view_field::{law_the_focused_block_is_on_screen, scrolled, FocusRows};
use crate::view_forms::{
    edit_pairs_drawn, fields_drawn, pairs_drawn, picks_drawn, profile_drawn, profile_list_drawn,
    profiles_listed, request_drawn, test_drawn, vars_drawn,
};
use crate::view_panes::{fresh, gap, row, Drawn};

verus! {

/// Some row of the pane has the focus, and is among its lines.
pub open spec fn shows_focus(d: Drawn) -> bool {
    0 <= d.start < d.end <= d.lines.len()
}

/// A row that has the focus is on a screen of any height, from its first line on.
pub proof fn law_a_focused_row_is_on_screen(d: Drawn, height: int)
    requires
        shows_focus(d),
        d.lines.len() <= usize::MAX,
        height > 0,
    ensures
        ({
            let rows = FocusRows { start: d.start as usize, end: d.end as usize };
            let n = scrolled(d.lines.len() as int, rows, height);
            0 <= n <= d.start < n + height
        }),
{
    law_the_focused_block_is_on_screen(
        d.lines.len() as int,
        FocusRows { start: d.start as usize, end: d.end as usize },
        height,
    );
}

proof fn lemma_fields(fields: Seq<Row>, focused: int, edit: EditView, width: u16, k: int)
    requires
        0 <= focused < k,
    ensures
        shows_focus(fields_drawn(fields, focused, edit, width, k)),
    decreases k,
{
    if focused < k - 1 {
        lemma_fields(fields, focused, edit, width, k - 1);
    }
}

/// Wherever the focus is in the request form, the form shows it.
pub proof fn law_the_form_shows_its_focus(
    fields: Seq<Row>,
    focused: int,
    edit: EditView,
    profiles: Seq<ProfileView>,
    headers: TextMap,
    query: TextMap,
    body: Option<BodyView>,
    global: bool,
    error: Option<Seq<char>>,
    width: u16,
)
    requires
        0 <= focused <= fields.len() + 4,
    ensures
        shows_focus(
            request_drawn(
                fields,
                focused,
                edit,
                profiles,
                headers,
                query,
                body,
                global,
                error,
                width,
            ),
        ),
{
    if focused < fields.len() {
        lemma_fields(fields, focused, edit, width, fields.len() as int);
    }
}

proof fn lemma_pairs(
    d: Drawn,
    pairs: Seq<Row>,
    noun: Seq<char>,
    first: Seq<char>,
    focused: int,
    edit: EditView,
    width: u16,
    k: int,
)
    requires
        shows_focus(d) || 0 <= focused < 2 * k,
    ensures
        shows_focus(pairs_drawn(d, pairs, noun, first, focused, edit, width, k)),
    decreases k,
{
    if k > 0 && (shows_focus(d) || focused < 2 * (k - 1)) {
        lemma_pairs(d, pairs, noun, first, focused, edit, width, k - 1);
    }
}

/// Wherever the focus is in the pane of headers or of query parameters, the pane
/// shows it.
pub proof fn law_the_pairs_show_their_focus(
    kind: PairKind,
    pairs: Seq<Row>,
    focused: int,
    edit: EditView,
    error: Option<Seq<char>>,
    width: u16,
)
    requires
        0 <= focused < 2 * pairs.len(),
    ensures
        shows_focus(edit_pairs_drawn(kind, pairs, focused, edit, error, width)),
{
    lemma_pairs(
        fresh(),
        pairs,
        kind.row_noun(),
        " name"@,
        focused,
        edit,
        width,
        pairs.len() as int,
    );
}

/// Wherever the focus is in the form of a profile, the form shows it.
pub proof fn law_the_profile_shows_its_focus(
    name: Seq<char>,
    params: Seq<Row>,
    focused: int,
    edit: EditView,
    error: Option<Seq<char>>,
    width: u16,
)
    requires
        0 <= focused <= 2 * params.len(),
    ensures
        shows_focus(profile_drawn(name, params, focused, edit, error, width)),
{
    let d = gap(
        row(
            fresh(),
            crate::view_panes::field_lines(
                "  profile name"@,
                true,
                name,
                focused == 0,
                edit,
                crate::theme::Color::Green,
                width,
            ),
            focused == 0,
        ),
    );
    lemma_pairs(d, params, "param"@, " key"@, focused - 1, edit, width, params.len() as int);
}

proof fn lemma_vars(vars: Seq<Row>, focused: int, edit: EditView, width: u16, k: int)
    requires
        0 <= focused < k,
    ensures
        shows_focus(vars_drawn(vars, focused, edit, width, k)),
    decreases k,
{
    if focused < k - 1 {
        lemma_vars(vars, focused, edit, width, k - 1);
    }
}

/// Wherever the focus is in the forms of variables and of load tests, they show it.
pub proof fn law_the_variables_show_their_focus(
    vars: Seq<Row>,
    iterations: Seq<char>,
    focused: int,
    edit: EditView,
    width: u16,
)
    requires
        0 <= focused <= vars.len(),
    ensures
        focused < vars.len() ==> shows_focus(
            vars_drawn(vars, focused, edit, width, vars.len() as int),
        ),
        shows_focus(test_drawn(vars, iterations, focused, edit, width)),
{
    if focused < vars.len() {
        lemma_vars(vars, focused, edit, width, vars.len() as int);
    }
}

proof fn lemma_picks(profiles: Seq<ProfileView>, selected: int, k: int)
    requires
        0 <= selected <= k,
    ensures
        shows_focus(picks_drawn(profiles, selected, k)),
    decreases k,
{
    if selected < k {
        lemma_picks(profiles, selected, k - 1);
    }
}

proof fn lemma_listed(profiles: Seq<ProfileView>, selected: int, k: int)
    requires
        0 <= selected < k,
    ensures
        shows_focus(profiles_listed(profiles, selected, k)),
    decreases k,
{
    if selected < k - 1 {
        lemma_listed(profiles, selected, k - 1);
    }
}

/// Whichever profile is selected, the picker and the list of profiles show it.
pub proof fn law_the_profiles_show_their_selection(profiles: Seq<ProfileView>, selected: int)
    requires
        0 <= selected <= profiles.len(),
    ensures
        shows_focus(picks_drawn(profiles, selected, profiles.len() as int)),
        shows_focus(profile_list_drawn(profiles, selected)),
{
    lemma_picks(profiles, selected, profiles.len() as int);
    if selected < profiles.len() {
        lemma_listed(profiles, selected, profiles.len() as int);
    }
}

} // verus!
