//! What holds of what an entry asks for, and of the list after it was read again.
use vstd::prelude::*;
use vstd::string::*;

use crate::app::{filtered, listed_rows, row_total, AppView};
use crate::app_keys::is_chain_name;
use crate::app_outcomes::{
    answers_all, entry_asks, entry_row, entry_vars, leaf_row, left_over, named_from, offer, offers,
    picked_params, place_row, profile_picked, relisted, started, with_entry,
};
use crate::config::UserConfig;
use crate::list_laws::row_is;
use crate::panes::{ActionView, ModeView, PendingAction, PickerView};
use crate::request::TextMap;
use crate::tree::{folders, Entry, TreeRow};

verus! {

// ─── Asking ───────────────────────────────────────────────────────────────────

/// Every variable is asked for, in order, and opens with the value that the profile gives
/// it, else with the environment's, else empty.
pub proof fn law_each_variable_opens_on_its_value(
    names: Seq<Seq<char>>,
    params: TextMap,
    env: TextMap,
    i: int,
)
    requires
        0 <= i < names.len(),
    ensures
        ({
            let rows = offers(names, params, env);
            let n = names[i];
            &&& rows.len() == names.len() && rows[i].0 == n
            &&& params.dom().contains(n) ==> rows[i].1 == params[n]
            &&& !params.dom().contains(n) && env.dom().contains(n) ==> rows[i].1 == env[n]
            &&& !params.dom().contains(n) && !env.dom().contains(n) ==> rows[i].1.len() == 0
        }),
{
}

/// The profile that is picked is the one on the selected row: the first row is none.
pub proof fn law_the_profile_on_the_row_is_picked(p: PickerView, i: int)
    requires
        0 <= i < p.profiles.len(),
    ensures
        p.selected == i + 1 ==> picked_params(p) == p.profiles[i].params,
        p.selected == 0 ==> picked_params(p) == Map::<Seq<char>, Seq<char>>::empty(),
{
}

/// A request without profiles that asks for nothing is run or copied at once; one that
/// asks for variables opens the form on them; one with profiles lets one be picked first;
/// and a load test always asks how often. The entry is the one at hand throughout, and
/// the list stays as it is.
pub proof fn law_what_a_request_asks_for(a: AppView, e: Entry, purpose: PendingAction, env: TextMap)
    requires
        e.kind is Request,
    ensures
        ({
            let (b, act) = entry_asks(a, e, purpose, env);
            let profiles = e.kind->profiles@;
            let names = entry_vars(e);
            &&& b == (AppView { mode: b.mode, ..a })
            &&& profiles.len() > 0 ==> act == ActionView::Nothing && (b.mode
                matches ModeView::ProfileSelect(p) && p.entry_name == e.name@ && p.action == purpose
                && p.selected == 0 && p.profiles.len() == profiles.len() && (forall|i: int|
                0 <= i < profiles.len() ==> #[trigger] p.profiles[i] == profiles[i]@))
            &&& profiles.len() == 0 && purpose == PendingAction::Test ==> act == ActionView::Nothing && (
            b.mode matches ModeView::TestInput(p) && p.entry_name == e.name@ && p.focused == 0
                && p.iterations == "10"@ && p.vars.len() == names.len() && (forall|i: int|
                0 <= i < names.len() ==> (#[trigger] p.vars[i]).0 == names[i]))
            &&& profiles.len() == 0 && purpose != PendingAction::Test && names.len() > 0 ==> act
                == ActionView::Nothing && (b.mode matches ModeView::VarInput(p) && p.entry_name
                == e.name@ && p.action == purpose && p.focused == 0 && p.vars.len() == names.len() && (
            forall|i: int| 0 <= i < names.len() ==> (#[trigger] p.vars[i]).0 == names[i]))
            &&& profiles.len() == 0 && names.len() == 0 && purpose == PendingAction::Run ==> b == a && act
                == ActionView::RunRequest(e.name@, Map::empty())
            &&& profiles.len() == 0 && names.len() == 0 && purpose == PendingAction::Curl ==> b == a
                && act == ActionView::RenderCurl(e.name@, Map::empty())
        }),
{
}

/// Picking a profile runs the entry at once where the profile gives every variable a
/// value that is not empty, and hands over those values; otherwise the form opens on the
/// variables, and a load test still asks how often.
pub proof fn law_picking_a_profile(
    a: AppView,
    p: PickerView,
    names: Seq<Seq<char>>,
    env: TextMap,
    k: int,
)
    requires
        a.mode == ModeView::ProfileSelect(p),
        names.no_duplicates(),
        0 <= k < names.len(),
    ensures
        ({
            let (b, act) = profile_picked(a, names, env);
            let params = picked_params(p);
            let all = forall|i: int|
                0 <= i < names.len() ==> params.dom().contains(#[trigger] names[i])
                    && params[names[i]].len() > 0;
            let vars = match act {
                ActionView::RenderCurl(n, m) => Some((n, m)),
                ActionView::RunChain(n, m) => Some((n, m)),
                ActionView::RunRequest(n, m) => Some((n, m)),
                _ => None,
            };
            &&& b == (AppView { mode: b.mode, ..a })
            &&& p.action == PendingAction::Test ==> act == ActionView::Nothing && (b.mode
                matches ModeView::TestInput(q) && q.entry_name == p.entry_name && q.vars == offers(
                names,
                params,
                env,
            ))
            &&& p.action != PendingAction::Test && !all ==> act == ActionView::Nothing && (b.mode
                matches ModeView::VarInput(q) && q.entry_name == p.entry_name && q.action == p.action
                && q.vars == offers(names, params, env))
            &&& p.action != PendingAction::Test && all ==> b == a && (vars matches Some((n, m)) && n
                == p.entry_name && m.dom().contains(names[k]) && m[names[k]] == params[names[k]])
            &&& act is RenderCurl ==> p.action == PendingAction::Curl
            &&& act is RunChain ==> is_chain_name(a.entries, p.entry_name)
            &&& act is RunRequest ==> !is_chain_name(a.entries, p.entry_name)
        }),
{
    let params = picked_params(p);
    let rows = offers(names, params, env);
    assert forall|i: int| k < i < rows.len() implies (#[trigger] rows[i]).0 != rows[k].0 by {
        assert(names[i] != names[k]);
    }
    crate::pane_laws::lemma_collected_at(rows, k);
    assert(rows[k] == (names[k], offer(names[k], params, env)));
    let all = forall|i: int|
        0 <= i < names.len() ==> params.dom().contains(#[trigger] names[i])
            && params[names[i]].len() > 0;
    assert(all == answers_all(names, params));
}

/// An entry read again takes its own place in the list, and no other entry changes.
pub proof fn law_an_entry_is_read_into_its_place(a: AppView, idx: int, e: Entry, i: int)
    requires
        0 <= idx < a.entries.len(),
        0 <= i < a.entries.len(),
    ensures
        ({
            let b = with_entry(a, idx, e);
            &&& b == (AppView { entries: b.entries, ..a })
            &&& b.entries.len() == a.entries.len()
            &&& b.entries[idx] == e
            &&& i != idx ==> b.entries[i] == a.entries[i]
        }),
{
}

// ─── The list, read again ─────────────────────────────────────────────────────

proof fn lemma_named_from(entries: Seq<Entry>, name: Seq<char>, i: int)
    requires
        0 <= i <= entries.len(),
    ensures
        ({
            let at = named_from(entries, name, i);
            &&& i <= at <= entries.len()
            &&& at < entries.len() ==> entries[at].name@ == name
            &&& forall|j: int| i <= j < at ==> (#[trigger] entries[j]).name@ != name
        }),
    decreases entries.len() - i,
{
    if i < entries.len() && entries[i].name@ != name {
        lemma_named_from(entries, name, i + 1);
    }
}

proof fn lemma_leaf_row(rows: Seq<TreeRow>, idx: int, i: int)
    requires
        0 <= i <= rows.len(),
    ensures
        ({
            let at = leaf_row(rows, idx, i);
            &&& i <= at <= rows.len()
            &&& at < rows.len() ==> (rows[at] matches TreeRow::Leaf { entry_idx, .. } && entry_idx
                == idx)
            &&& forall|j: int|
                i <= j < at ==> !(#[trigger] rows[j] matches TreeRow::Leaf { entry_idx, .. }
                    && entry_idx == idx)
        }),
    decreases rows.len() - i,
{
    if i < rows.len() {
        lemma_leaf_row(rows, idx, i + 1);
    }
}

proof fn lemma_place_row(left: Seq<int>, idx: int, i: int)
    requires
        0 <= i <= left.len(),
    ensures
        ({
            let at = place_row(left, idx, i);
            &&& i <= at <= left.len()
            &&& at < left.len() ==> left[at] == idx
            &&& forall|j: int| i <= j < at ==> #[trigger] left[j] != idx
        }),
    decreases left.len() - i,
{
    if i < left.len() {
        lemma_place_row(left, idx, i + 1);
    }
}

/// The row found for an entry is a row of that entry, and one is found where there is one.
pub proof fn law_an_entry_is_found_on_its_row(a: AppView, idx: int, row: int)
    ensures
        entry_row(a, idx) matches Some(at) ==> row_is(a, at, idx),
        entry_row(a, idx) is None ==> !row_is(a, row, idx),
{
    lemma_leaf_row(listed_rows(a), idx, 0);
    lemma_place_row(filtered(a.entries, a.filter), idx, 0);
}

/// After the list was read again the selection is on the row of the entry asked for, the
/// first of its name, where that has a row. Otherwise it stays where it was, as far as
/// there are rows. Folders, filter and everything else stay.
pub proof fn law_the_list_read_again(
    a: AppView,
    entries: Seq<Entry>,
    target: Option<Seq<char>>,
    idx: int,
    row: int,
)
    requires
        a.selected matches Some(i) ==> i >= 0,
    ensures
        ({
            let b = relisted(a, entries, target);
            let n = row_total(b);
            let first = 0 <= idx < entries.len() && target == Some(entries[idx].name@) && (forall|j: int|
                0 <= j < idx ==> (#[trigger] entries[j]).name@ != entries[idx].name@);
            &&& b.entries == entries
            &&& b == (AppView { entries, nodes: b.nodes, selected: b.selected, ..a })
            &&& n == 0 ==> b.selected is None
            &&& n > 0 && first && row_is(b, row, idx) ==> (b.selected matches Some(at) && row_is(
                b,
                at,
                idx,
            ))
            &&& n > 0 && target is None ==> b.selected == Some(
                match a.selected {
                    Some(i) => if i < n {
                        i
                    } else {
                        n - 1
                    },
                    None => 0,
                },
            )
        }),
{
    let b = relisted(a, entries, target);
    let w = crate::app_outcomes::with_entries(a, entries);
    assert(listed_rows(b) == listed_rows(w));
    match target {
        Some(name) => {
            lemma_named_from(entries, name, 0);
            let at = named_from(entries, name, 0);
            if 0 <= idx < entries.len() && entries[idx].name@ == name && (forall|j: int|
                0 <= j < idx ==> (#[trigger] entries[j]).name@ != name) {
                assert(at == idx);
                law_an_entry_is_found_on_its_row(w, idx, row);
                assert(row_is(w, row, idx) == row_is(b, row, idx));
            }
        },
        None => {},
    }
}

/// After a deletion the selection stays in place as far as there are rows.
pub proof fn law_the_list_after_a_deletion(a: AppView, entries: Seq<Entry>, i: int)
    requires
        a.selected == Some(i),
        0 <= i,
    ensures
        ({
            let b = left_over(a, entries);
            let n = row_total(b);
            &&& b == (AppView { entries, nodes: b.nodes, selected: b.selected, ..a })
            &&& i < n ==> b.selected == a.selected
            &&& 0 < n <= i ==> b.selected == Some(n - 1)
            &&& n == 0 ==> b.selected is None
        }),
{
}

/// At the start every folder is closed and the first row is selected; nothing is typed,
/// filtered or pending. Preferences that cannot be read are shown for what is wrong with
/// them, and the list is there behind that.
pub proof fn law_how_it_starts(
    entries: Seq<Entry>,
    icons: bool,
    config: Result<UserConfig, Seq<char>>,
    path: Seq<char>,
)
    ensures
        ({
            let a = started(entries, icons, config);
            &&& a.entries == entries && a.use_nerd_fonts == icons
            &&& folders(a.nodes, a.nodes.len() as int).contains(path) ==> a.collapsed.contains(path)
            &&& a.filter.len() == 0 && !a.filter_active && !a.show_help && !a.pending_g
            &&& a.register.len() == 0 && !a.dragging_split
            &&& row_total(a) > 0 ==> a.selected == Some(0int)
            &&& row_total(a) == 0 ==> a.selected is None
            &&& config matches Ok(c) ==> a.mode is Browse && a.keys == c.keys && a.split_pct
                == c.split_pct
            &&& config matches Err(words) ==> (a.mode matches ModeView::Response(p) && p.body
                == "Config: "@ + words && p.kind is Error)
        }),
{
}

} // verus!
