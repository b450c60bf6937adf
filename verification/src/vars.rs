//! `{{NAME}}` placeholders: finding them and filling them in.
use vstd::prelude::*;
use vstd::string::*;

use crate::order::Row;
use crate::request::{RequestConfig, TextMap};
use crate::strmap::StrMap;
use crate::text::{chars_of, find_at, find_from, lemma_find_from, occurs_at, slice_string, str_eq, texts};

verus! {

/// What `{{name}}` stands for: the supplied value, else the environment's, else
/// the placeholder itself.
pub open spec fn value_of(name: Seq<char>, vars: TextMap, env: TextMap) -> Seq<char> {
    if vars.dom().contains(name) {
        vars[name]
    } else if env.dom().contains(name) {
        env[name]
    } else {
        "{{"@ + name + "}}"@
    }
}

/// `s` from index `from` on, with every closed placeholder replaced by what it
/// stands for.
pub open spec fn filled_from(s: Seq<char>, from: int, vars: TextMap, env: TextMap) -> Seq<char>
    decreases s.len() - from,
{
    let open = find_from(s, "{{"@, from);
    if from < 0 || open < from || open + 2 > s.len() {
        s.skip(from)
    } else {
        let close = find_from(s, "}}"@, open + 2);
        if close < open + 2 || close + 2 > s.len() {
            s.subrange(from, open) + "{{"@ + filled_from(s, open + 2, vars, env)
        } else {
            s.subrange(from, open) + value_of(s.subrange(open + 2, close), vars, env) + filled_from(
                s,
                close + 2,
                vars,
                env,
            )
        }
    }
}

/// `s` with every closed placeholder replaced by what it stands for.
pub open spec fn filled(s: Seq<char>, vars: TextMap, env: TextMap) -> Seq<char> {
    filled_from(s, 0, vars, env)
}

/// Substitutes `{{VAR}}` placeholders: the supplied map first, then the
/// environment, leaving anything unresolved as a literal `{{VAR}}`.
pub fn interpolate(s: &str, vars: &StrMap, env: &StrMap) -> (r: String)
    ensures
        r@ == filled(s@, vars@, env@),
{
    let v = chars_of(s);
    let open_mark = chars_of("{{");
    let close_mark = chars_of("}}");
    let mut r = String::new();
    let mut from: usize = 0;
    proof {
        reveal_strlit("{{");
        reveal_strlit("}}");
    }
    loop
        invariant_except_break
            r@ + filled_from(s@, from as int, vars@, env@) == filled(s@, vars@, env@),
        invariant
            v@ == s@,
            open_mark@ == "{{"@,
            close_mark@ == "}}"@,
            "{{"@.len() == 2,
            "}}"@.len() == 2,
            from <= v.len(),
        ensures
            r@ == filled(s@, vars@, env@),
        decreases v.len() - from,
    {
        let ghost r0 = r@;
        proof {
            lemma_find_from(v@, "{{"@, from as int);
        }
        match find_at(&v, &open_mark, from) {
            None => {
                let tail = slice_string(&v, from, v.len());
                r.append(tail.as_str());
                proof {
                    assert(v@.subrange(from as int, v@.len() as int) =~= v@.skip(from as int));
                }
                break;
            },
            Some(open) => {
                let head = slice_string(&v, from, open);
                r.append(head.as_str());
                proof {
                    lemma_find_from(v@, "}}"@, open + 2);
                }
                match find_at(&v, &close_mark, open + 2) {
                    None => {
                        r.append("{{");
                        proof {
                            assert(r0 + (head@ + "{{"@ + filled_from(s@, open + 2, vars@, env@))
                                =~= r@ + filled_from(s@, open + 2, vars@, env@));
                        }
                        from = open + 2;
                    },
                    Some(close) => {
                        let name = slice_string(&v, open + 2, close);
                        let value = resolve(name, vars, env);
                        r.append(value.as_str());
                        proof {
                            assert(r0 + (head@ + value@ + filled_from(s@, close + 2, vars@, env@))
                                =~= r@ + filled_from(s@, close + 2, vars@, env@));
                        }
                        from = close + 2;
                    },
                }
            },
        }
    }
    r
}

fn resolve(name: String, vars: &StrMap, env: &StrMap) -> (r: String)
    ensures
        r@ == value_of(name@, vars@, env@),
{
    match vars.get(name.as_str()) {
        Some(v) => v.clone(),
        None => match env.get(name.as_str()) {
            Some(v) => v.clone(),
            None => {
                let mut r = "{{".to_owned();
                r.append(name.as_str());
                r.append("}}");
                r
            },
        },
    }
}

// ─── Finding placeholders ─────────────────────────────────────────────────────

/// The names of the closed placeholders in `s` from index `from` on, in order.
pub open spec fn placeholders_from(s: Seq<char>, from: int) -> Seq<Seq<char>>
    decreases s.len() - from,
{
    let open = find_from(s, "{{"@, from);
    if from < 0 || open < from || open + 2 > s.len() {
        Seq::empty()
    } else {
        let close = find_from(s, "}}"@, open + 2);
        if close < open + 2 || close + 2 > s.len() {
            placeholders_from(s, open + 2)
        } else {
            seq![s.subrange(open + 2, close)] + placeholders_from(s, close + 2)
        }
    }
}

/// The placeholder names in each text, text after text.
pub open spec fn placeholders(sources: Seq<Seq<char>>) -> Seq<Seq<char>>
    decreases sources.len(),
{
    if sources.len() == 0 {
        Seq::empty()
    } else {
        placeholders(sources.drop_last()) + placeholders_from(sources.last(), 0)
    }
}

/// `names` followed by those of `more` that it did not hold yet, each once.
pub open spec fn absorbed(names: Seq<Seq<char>>, more: Seq<Seq<char>>) -> Seq<Seq<char>>
    decreases more.len(),
{
    if more.len() == 0 {
        names
    } else {
        let before = absorbed(names, more.drop_last());
        if before.contains(more.last()) {
            before
        } else {
            before.push(more.last())
        }
    }
}

/// The names in the order they first appear, each once.
pub open spec fn distinct(names: Seq<Seq<char>>) -> Seq<Seq<char>> {
    absorbed(Seq::empty(), names)
}

/// Absorbing one list after another is absorbing both at once.
proof fn lemma_absorbed_add(names: Seq<Seq<char>>, a: Seq<Seq<char>>, b: Seq<Seq<char>>)
    ensures
        absorbed(absorbed(names, a), b) == absorbed(names, a + b),
    decreases b.len(),
{
    if b.len() == 0 {
        assert(a + b =~= a);
    } else {
        assert((a + b).drop_last() =~= a + b.drop_last());
        lemma_absorbed_add(names, a, b.drop_last());
    }
}

/// Each name is listed once, and exactly the names given are listed.
pub proof fn law_distinct_names(names: Seq<Seq<char>>)
    ensures
        distinct(names).no_duplicates(),
        forall|n: Seq<char>| distinct(names).contains(n) <==> names.contains(n),
    decreases names.len(),
{
    if names.len() > 0 {
        let front = names.drop_last();
        law_distinct_names(front);
        let before = distinct(front);
        assert(distinct(names) == if before.contains(names.last()) {
            before
        } else {
            before.push(names.last())
        });
        assert forall|n: Seq<char>| distinct(names).contains(n) <==> names.contains(n) by {
            if names.contains(n) {
                let i = choose|i: int| 0 <= i < names.len() && names[i] == n;
                if i < front.len() {
                    assert(front[i] == n);
                    assert(front.contains(n));
                    assert(before.contains(n));
                    let k = choose|k: int| 0 <= k < before.len() && before[k] == n;
                    assert(distinct(names)[k] == n);
                } else if !before.contains(n) {
                    assert(distinct(names)[before.len() as int] == n);
                }
            }
            if distinct(names).contains(n) {
                let k = choose|k: int| 0 <= k < distinct(names).len() && distinct(names)[k] == n;
                if k < before.len() {
                    assert(before[k] == n);
                    assert(front.contains(n));
                    let i = choose|i: int| 0 <= i < front.len() && front[i] == n;
                    assert(names[i] == n);
                } else {
                    assert(names[names.len() - 1] == n);
                }
            }
        }
    }
}

/// Whether a name is among those listed.
pub fn lists(names: &Vec<String>, name: &str) -> (r: bool)
    ensures
        r == texts(names@).contains(name@),
{
    let mut i: usize = 0;
    while i < names.len()
        invariant
            i <= names.len(),
            forall|j: int| 0 <= j < i ==> #[trigger] texts(names@)[j] != name@,
        decreases names.len() - i,
    {
        if str_eq(names[i].as_str(), name) {
            proof {
                assert(texts(names@)[i as int] == name@);
            }
            return true;
        }
        i = i + 1;
    }
    false
}

/// Adds a name unless it is listed already.
fn add_name(names: &mut Vec<String>, name: String)
    ensures
        texts(final(names)@) == absorbed(texts(old(names)@), seq![name@]),
{
    let ghost before = texts(names@);
    proof {
        assert(seq![name@].drop_last() =~= Seq::<Seq<char>>::empty());
        assert(absorbed(before, seq![name@].drop_last()) == before);
    }
    if !lists(names, name.as_str()) {
        names.push(name);
        proof {
            assert(texts(names@) =~= before.push(name@));
        }
    }
}

/// Adds the placeholder names in a text, in order, each once.
fn add_placeholders(names: &mut Vec<String>, s: &str)
    ensures
        texts(final(names)@) == absorbed(texts(old(names)@), placeholders_from(s@, 0)),
{
    let v = chars_of(s);
    let open_mark = chars_of("{{");
    let close_mark = chars_of("}}");
    let mut from: usize = 0;
    let ghost names0 = texts(names@);
    proof {
        reveal_strlit("{{");
        reveal_strlit("}}");
    }
    loop
        invariant_except_break
            absorbed(texts(names@), placeholders_from(s@, from as int)) == absorbed(
                names0,
                placeholders_from(s@, 0),
            ),
        invariant
            v@ == s@,
            open_mark@ == "{{"@,
            close_mark@ == "}}"@,
            "{{"@.len() == 2,
            "}}"@.len() == 2,
            from <= v.len(),
        ensures
            texts(names@) == absorbed(names0, placeholders_from(s@, 0)),
        decreases v.len() - from,
    {
        proof {
            lemma_find_from(v@, "{{"@, from as int);
        }
        match find_at(&v, &open_mark, from) {
            None => {
                break;
            },
            Some(open) => {
                proof {
                    lemma_find_from(v@, "}}"@, open + 2);
                }
                match find_at(&v, &close_mark, open + 2) {
                    None => {
                        from = open + 2;
                    },
                    Some(close) => {
                        let name = slice_string(&v, open + 2, close);
                        let ghost held = texts(names@);
                        let ghost found = seq![name@];
                        add_name(names, name);
                        proof {
                            lemma_absorbed_add(held, found, placeholders_from(s@, close + 2));
                        }
                        from = close + 2;
                    },
                }
            },
        }
    }
}

/// The texts of a list of rows: each name, and the value behind it.
pub open spec fn row_fields(rows: Seq<Row>) -> Seq<Seq<char>>
    decreases rows.len(),
{
    if rows.len() == 0 {
        Seq::empty()
    } else {
        row_fields(rows.drop_last()).push(rows.last().0).push(rows.last().1)
    }
}

/// Everything of a request that placeholders are filled in: its URL, the names and
/// the values of its headers and its query parameters, its body.
pub open spec fn sources(
    url: Seq<char>,
    headers: Seq<Row>,
    query: Seq<Row>,
    body: Option<Seq<char>>,
) -> Seq<Seq<char>> {
    let fixed = seq![url] + row_fields(headers) + row_fields(query);
    match body {
        Some(b) => fixed.push(b),
        None => fixed,
    }
}

/// Adds the placeholders in the names and the values of a map.
fn add_from_rows(names: &mut Vec<String>, map: &StrMap)
    ensures
        texts(final(names)@) == absorbed(
            texts(old(names)@),
            placeholders(row_fields(map.rows())),
        ),
{
    let ghost names0 = texts(names@);
    let ghost rows = map.rows();
    let mut i: usize = 0;
    let n: usize = map.len();
    proof {
        assert(rows.take(0) =~= Seq::empty());
    }
    while i < n
        invariant
            n == rows.len(),
            rows == map.rows(),
            i <= n,
            texts(names@) == absorbed(names0, placeholders(row_fields(rows.take(i as int)))),
        decreases n - i,
    {
        let (name, value) = map.row(i);
        let ghost held = row_fields(rows.take(i as int));
        proof {
            assert(rows.take(i + 1).drop_last() =~= rows.take(i as int));
            assert(rows.take(i + 1).last() == (name@, value@));
            lemma_placeholders_one(held, name@);
            lemma_placeholders_one(held.push(name@), value@);
            lemma_absorbed_add(names0, placeholders(held), placeholders_from(name@, 0));
            lemma_absorbed_add(
                names0,
                placeholders(held.push(name@)),
                placeholders_from(value@, 0),
            );
        }
        add_placeholders(names, name);
        add_placeholders(names, value);
        i = i + 1;
    }
    proof {
        assert(rows.take(n as int) =~= rows);
    }
}

proof fn lemma_placeholders_add(a: Seq<Seq<char>>, b: Seq<Seq<char>>)
    ensures
        placeholders(a + b) == placeholders(a) + placeholders(b),
    decreases b.len(),
{
    if b.len() == 0 {
        assert(a + b =~= a);
        assert(placeholders(a) + placeholders(b) =~= placeholders(a));
    } else {
        assert((a + b).drop_last() =~= a + b.drop_last());
        lemma_placeholders_add(a, b.drop_last());
        assert(placeholders(a + b) =~= placeholders(a) + placeholders(b));
    }
}

proof fn lemma_placeholders_one(a: Seq<Seq<char>>, s: Seq<char>)
    ensures
        placeholders(a.push(s)) == placeholders(a) + placeholders_from(s, 0),
{
    assert(a.push(s).drop_last() =~= a);
}

/// The placeholder names in a request, in the order they first appear, each once.
pub fn extract_var_names(
    url: &str,
    headers: &StrMap,
    query: &StrMap,
    body_data: Option<&str>,
) -> (r: Vec<String>)
    ensures
        texts(r@) == distinct(
            placeholders(
                sources(
                    url@,
                    headers.rows(),
                    query.rows(),
                    match body_data {
                        Some(b) => Some(b@),
                        None => None,
                    },
                ),
            ),
        ),
{
    let mut names: Vec<String> = Vec::new();
    let ghost none = Seq::<Seq<char>>::empty();
    let ghost s0 = seq![url@];
    let ghost s1 = s0 + row_fields(headers.rows());
    let ghost s2 = s1 + row_fields(query.rows());
    proof {
        assert(texts(names@) =~= none);
        assert(s0 =~= none.push(url@));
        lemma_placeholders_one(none, url@);
        assert(placeholders(s0) =~= placeholders_from(url@, 0));
        lemma_placeholders_add(s0, row_fields(headers.rows()));
        lemma_placeholders_add(s1, row_fields(query.rows()));
        lemma_absorbed_add(none, placeholders(s0), placeholders(row_fields(headers.rows())));
        lemma_absorbed_add(none, placeholders(s1), placeholders(row_fields(query.rows())));
    }
    add_placeholders(&mut names, url);
    add_from_rows(&mut names, headers);
    add_from_rows(&mut names, query);
    match body_data {
        Some(b) => {
            proof {
                lemma_placeholders_one(s2, b@);
                lemma_absorbed_add(none, placeholders(s2), placeholders_from(b@, 0));
            }
            add_placeholders(&mut names, b);
        },
        None => {},
    }
    names
}

/// The placeholder names in one step of a chain.
pub open spec fn step_names(step: RequestConfig) -> Seq<Seq<char>> {
    distinct(
        placeholders(
            sources(
                step.url@,
                step.headers.rows(),
                step.query.rows(),
                match step.body {
                    Some(b) => Some(b.data@),
                    None => None,
                },
            ),
        ),
    )
}

/// One of the steps fills the variable `name` from its response.
pub open spec fn produces(steps: Seq<RequestConfig>, name: Seq<char>) -> bool {
    exists|i: int| 0 <= i < steps.len() && step_produces(#[trigger] steps[i], name)
}

/// The step extracts a value under `name`.
pub open spec fn step_produces(step: RequestConfig, name: Seq<char>) -> bool {
    match step.extract {
        Some(m) => m@.dom().contains(name),
        None => false,
    }
}

/// The names in `names` that none of the steps produces.
pub open spec fn not_produced(names: Seq<Seq<char>>, steps: Seq<RequestConfig>) -> Seq<Seq<char>>
    decreases names.len(),
{
    if names.len() == 0 {
        names
    } else {
        let before = not_produced(names.drop_last(), steps);
        if produces(steps, names.last()) {
            before
        } else {
            before.push(names.last())
        }
    }
}

/// What the first `n` steps ask for: of each, the names that no step before it
/// produces.
pub open spec fn wanted(steps: Seq<RequestConfig>, n: int) -> Seq<Seq<char>>
    decreases n,
{
    if n <= 0 {
        Seq::empty()
    } else {
        absorbed(
            wanted(steps, n - 1),
            not_produced(step_names(steps[n - 1]), steps.take(n - 1)),
        )
    }
}

/// Whether one of the first `n` steps produces a name.
fn is_produced(steps: &Vec<RequestConfig>, n: usize, name: &str) -> (r: bool)
    requires
        n <= steps.len(),
    ensures
        r == produces(steps@.take(n as int), name@),
{
    let ghost first = steps@.take(n as int);
    let mut i: usize = 0;
    while i < n
        invariant
            i <= n <= steps.len(),
            first == steps@.take(n as int),
            forall|j: int| 0 <= j < i ==> !step_produces(#[trigger] first[j], name@),
        decreases n - i,
    {
        proof {
            assert(first[i as int] == steps@[i as int]);
        }
        match &steps[i].extract {
            Some(m) => {
                if m.contains_key(name) {
                    return true;
                }
            },
            None => {},
        }
        i = i + 1;
    }
    false
}

/// The `{{VAR}}` placeholders a chain needs the user to supply: those of its steps in
/// the order they first appear, each once. A name that an earlier step produces is
/// left out, since it is filled in as the chain runs.
pub fn chain_var_names(steps: &Vec<RequestConfig>) -> (r: Vec<String>)
    ensures
        texts(r@) == wanted(steps@, steps@.len() as int),
{
    let mut names: Vec<String> = Vec::new();
    let mut i: usize = 0;
    proof {
        assert(texts(names@) =~= Seq::empty());
    }
    while i < steps.len()
        invariant
            i <= steps.len(),
            texts(names@) == wanted(steps@, i as int),
        decreases steps.len() - i,
    {
        let step = &steps[i];
        let body: Option<&str> = match &step.body {
            Some(b) => Some(b.data.as_str()),
            None => None,
        };
        let found = extract_var_names(step.url.as_str(), &step.headers, &step.query, body);
        let ghost all = texts(found@);
        let ghost names0 = texts(names@);
        let ghost before = steps@.take(i as int);
        let mut k: usize = 0;
        while k < found.len()
            invariant
                i < steps.len(),
                k <= found.len(),
                all == texts(found@),
                before == steps@.take(i as int),
                texts(names@) == absorbed(names0, not_produced(all.take(k as int), before)),
            decreases found.len() - k,
        {
            let ghost held = not_produced(all.take(k as int), before);
            proof {
                assert(all.take(k + 1).drop_last() =~= all.take(k as int));
                assert(all[k as int] == found@[k as int]@);
                lemma_absorbed_add(names0, held, seq![all[k as int]]);
                assert(held + seq![all[k as int]] =~= held.push(all[k as int]));
            }
            if !is_produced(steps, i, found[k].as_str()) {
                add_name(&mut names, found[k].clone());
            }
            k = k + 1;
        }
        proof {
            assert(all.take(found@.len() as int) =~= all);
            assert(all == step_names(steps@[i as int]));
        }
        i = i + 1;
    }
    names
}

/// Step `k` asks for a name, and no step before it produces that.
pub open spec fn lacks(steps: Seq<RequestConfig>, k: int, name: Seq<char>) -> bool {
    step_names(steps[k]).contains(name) && !produces(steps.take(k), name)
}

proof fn lemma_absorbed_names(held: Seq<Seq<char>>, more: Seq<Seq<char>>, name: Seq<char>)
    ensures
        absorbed(held, more).contains(name) <==> held.contains(name) || more.contains(name),
        held.no_duplicates() ==> absorbed(held, more).no_duplicates(),
    decreases more.len(),
{
    if more.len() > 0 {
        let front = more.drop_last();
        let before = absorbed(held, front);
        lemma_absorbed_names(held, front, name);
        assert(more =~= front.push(more.last()));
        assert(more.contains(name) <==> front.contains(name) || name == more.last()) by {
            if front.contains(name) {
                let i = choose|i: int| 0 <= i < front.len() && front[i] == name;
                assert(more[i] == name);
            }
            if name == more.last() {
                assert(more[more.len() - 1] == name);
            }
        }
        let after = before.push(more.last());
        assert(after.contains(name) <==> before.contains(name) || name == more.last()) by {
            if before.contains(name) {
                let i = choose|i: int| 0 <= i < before.len() && before[i] == name;
                assert(after[i] == name);
            }
            if name == more.last() {
                assert(after[before.len() as int] == name);
            }
        }
    }
}

proof fn lemma_not_produced(names: Seq<Seq<char>>, steps: Seq<RequestConfig>, name: Seq<char>)
    ensures
        not_produced(names, steps).contains(name) <==> names.contains(name) && !produces(
            steps,
            name,
        ),
    decreases names.len(),
{
    if names.len() > 0 {
        let front = names.drop_last();
        let before = not_produced(front, steps);
        lemma_not_produced(front, steps, name);
        assert(names =~= front.push(names.last()));
        assert(names.contains(name) <==> front.contains(name) || name == names.last()) by {
            if front.contains(name) {
                let i = choose|i: int| 0 <= i < front.len() && front[i] == name;
                assert(names[i] == name);
            }
            if name == names.last() {
                assert(names[names.len() - 1] == name);
            }
        }
        let after = before.push(names.last());
        assert(after.contains(name) <==> before.contains(name) || name == names.last()) by {
            if before.contains(name) {
                let i = choose|i: int| 0 <= i < before.len() && before[i] == name;
                assert(after[i] == name);
            }
            if name == names.last() {
                assert(after[before.len() as int] == name);
            }
        }
    }
}

/// A chain asks for each variable once, and for exactly those that some step uses and
/// no step before it produces.
pub proof fn law_chain_asks_only_for_what_it_lacks(steps: Seq<RequestConfig>, n: int, name: Seq<char>)
    requires
        0 <= n <= steps.len(),
    ensures
        wanted(steps, n).no_duplicates(),
        wanted(steps, n).contains(name) <==> exists|k: int|
            0 <= k < n && #[trigger] lacks(steps, k, name),
    decreases n,
{
    if n > 0 {
        law_chain_asks_only_for_what_it_lacks(steps, n - 1, name);
        let more = not_produced(step_names(steps[n - 1]), steps.take(n - 1));
        lemma_absorbed_names(wanted(steps, n - 1), more, name);
        lemma_not_produced(step_names(steps[n - 1]), steps.take(n - 1), name);
        if wanted(steps, n).contains(name) && !wanted(steps, n - 1).contains(name) {
            assert(lacks(steps, n - 1, name));
        }
    }
}

// ─── Laws of filling in ───────────────────────────────────────────────────────

proof fn lemma_same_values_fill_alike(
    s: Seq<char>,
    from: int,
    vars: TextMap,
    env: TextMap,
    others: TextMap,
    elsewhere: TextMap,
)
    requires
        forall|i: int|
            0 <= i < placeholders_from(s, from).len() ==> value_of(
                #[trigger] placeholders_from(s, from)[i],
                vars,
                env,
            ) == value_of(placeholders_from(s, from)[i], others, elsewhere),
    ensures
        filled_from(s, from, vars, env) == filled_from(s, from, others, elsewhere),
    decreases s.len() - from,
{
    let open = find_from(s, "{{"@, from);
    if !(from < 0 || open < from || open + 2 > s.len()) {
        let close = find_from(s, "}}"@, open + 2);
        let names = placeholders_from(s, from);
        if close < open + 2 || close + 2 > s.len() {
            lemma_same_values_fill_alike(s, open + 2, vars, env, others, elsewhere);
        } else {
            let rest = placeholders_from(s, close + 2);
            assert(names[0] == s.subrange(open + 2, close));
            assert forall|i: int| 0 <= i < rest.len() implies value_of(
                #[trigger] rest[i],
                vars,
                env,
            ) == value_of(rest[i], others, elsewhere) by {
                assert(names[i + 1] == rest[i]);
            }
            lemma_same_values_fill_alike(s, close + 2, vars, env, others, elsewhere);
        }
    }
}

/// What a text comes to depends on nothing but the values of the names that are asked
/// for: whatever gives those the same values fills it in the same way.
pub proof fn law_only_the_names_asked_for_matter(
    s: Seq<char>,
    vars: TextMap,
    env: TextMap,
    others: TextMap,
    elsewhere: TextMap,
)
    requires
        forall|i: int|
            0 <= i < placeholders_from(s, 0).len() ==> value_of(
                #[trigger] placeholders_from(s, 0)[i],
                vars,
                env,
            ) == value_of(placeholders_from(s, 0)[i], others, elsewhere),
    ensures
        filled(s, vars, env) == filled(s, others, elsewhere),
{
    lemma_same_values_fill_alike(s, 0, vars, env, others, elsewhere);
}

/// A placeholder comes to its value: the one supplied, else the environment's, else
/// itself.
pub proof fn law_a_placeholder_is_its_value(name: Seq<char>, vars: TextMap, env: TextMap)
    requires
        !name.contains('}'),
    ensures
        filled("{{"@ + name + "}}"@, vars, env) == value_of(name, vars, env),
        vars.dom().contains(name) ==> value_of(name, vars, env) == vars[name],
        !vars.dom().contains(name) && env.dom().contains(name) ==> value_of(name, vars, env)
            == env[name],
        !vars.dom().contains(name) && !env.dom().contains(name) ==> value_of(name, vars, env)
            == seq!['{', '{'] + name + seq!['}', '}'],
{
    reveal_strlit("{{");
    reveal_strlit("}}");
    assert("{{"@ =~= seq!['{', '{']);
    assert("}}"@ =~= seq!['}', '}']);
    let s = "{{"@ + name + "}}"@;
    let n = name.len() as int;
    assert(s.subrange(0, 2) =~= "{{"@);
    assert(occurs_at(s, "{{"@, 0));
    assert(s.subrange(2 + n, 4 + n) =~= "}}"@);
    assert(occurs_at(s, "}}"@, 2 + n));
    lemma_find_from(s, "}}"@, 2);
    let close = find_from(s, "}}"@, 2);
    assert(close == 2 + n) by {
        if close < 2 + n {
            assert(s.subrange(close, close + 2)[0] == s[close]);
            assert(s[close] == name[close - 2]);
        }
    }
    assert(s.subrange(2, 2 + n) =~= name);
    assert(s.skip(4 + n) =~= Seq::empty());
    lemma_find_from(s, "{{"@, 4 + n);
    assert(find_from(s, "{{"@, 0) == 0);
    assert(filled_from(s, 4 + n, vars, env) =~= Seq::<char>::empty()) by {
        let at = find_from(s, "{{"@, 4 + n);
        if at <= s.len() {
            assert(occurs_at(s, "{{"@, at));
        }
    }
    let value = value_of(name, vars, env);
    assert(s.subrange(0, 0) + value + Seq::<char>::empty() =~= value);
}

// ─── Filling in, piece by piece ───────────────────────────────────────────────

/// Two marks one behind the other at `i`.
pub open spec fn doubled(s: Seq<char>, mark: char, i: int) -> bool {
    0 <= i && i + 1 < s.len() && s[i] == mark && s[i + 1] == mark
}

/// A text in which whatever is opened is closed: behind every `{{` there is a `}}`, and
/// the text does not end in half of a `{{`.
pub open spec fn all_closed(s: Seq<char>) -> bool {
    &&& forall|i: int| #[trigger]
        doubled(s, '{', i) ==> exists|k: int| i + 2 <= k && #[trigger] doubled(s, '}', k)
    &&& s.len() == 0 || s.last() != '{'
}

/// A text that ends at the first `}}` behind it: it holds none, and no half of one at
/// its end.
pub open spec fn ends_at_marks(s: Seq<char>) -> bool {
    &&& forall|i: int| !#[trigger] doubled(s, '}', i)
    &&& s.len() == 0 || s.last() != '}'
}

proof fn lemma_doubled(s: Seq<char>, i: int)
    ensures
        occurs_at(s, "{{"@, i) <==> doubled(s, '{', i),
        occurs_at(s, "}}"@, i) <==> doubled(s, '}', i),
        "{{"@.len() == 2,
        "}}"@.len() == 2,
{
    reveal_strlit("{{");
    reveal_strlit("}}");
    if 0 <= i && i + 2 <= s.len() {
        let t = s.subrange(i, i + 2);
        assert(t[0] == s[i] && t[1] == s[i + 1]);
        if doubled(s, '{', i) {
            assert(t =~= "{{"@);
        }
        if doubled(s, '}', i) {
            assert(t =~= "}}"@);
        }
    }
}

proof fn lemma_find_is(s: Seq<char>, pat: Seq<char>, from: int, at: int)
    requires
        0 <= from <= at <= s.len(),
        occurs_at(s, pat, at),
        forall|j: int| from <= j < at ==> !#[trigger] occurs_at(s, pat, j),
    ensures
        find_from(s, pat, from) == at,
{
    lemma_find_from(s, pat, from);
    let k = find_from(s, pat, from);
    if k < at {
        assert(!occurs_at(s, pat, k));
    }
    if k > at {
        assert(!occurs_at(s, pat, at));
    }
}

proof fn lemma_occurs_shift(s: Seq<char>, pat: Seq<char>, k: int, i: int)
    requires
        0 <= k <= s.len(),
        0 <= i,
    ensures
        occurs_at(s.skip(k), pat, i) == occurs_at(s, pat, k + i),
{
    if i + pat.len() <= s.len() - k {
        assert(s.skip(k).subrange(i, i + pat.len()) =~= s.subrange(k + i, k + i + pat.len()));
    }
}

proof fn lemma_find_shift(s: Seq<char>, pat: Seq<char>, k: int, from: int)
    requires
        0 <= k <= s.len(),
        0 <= from <= s.len() - k + 1,
    ensures
        find_from(s, pat, k + from) == k + find_from(s.skip(k), pat, from),
    decreases s.len() - k + 1 - from,
{
    if from <= s.len() - k {
        lemma_occurs_shift(s, pat, k, from);
        if !occurs_at(s, pat, k + from) {
            lemma_find_shift(s, pat, k, from + 1);
        }
    }
}

/// Filling in from a place on is filling in what stands there.
proof fn lemma_filled_shift(s: Seq<char>, k: int, from: int, vars: TextMap, env: TextMap)
    requires
        0 <= k,
        0 <= from,
        k + from <= s.len(),
    ensures
        filled_from(s, k + from, vars, env) == filled_from(s.skip(k), from, vars, env),
        placeholders_from(s, k + from) == placeholders_from(s.skip(k), from),
    decreases s.len() - k - from,
{
    let t = s.skip(k);
    lemma_doubled(s, 0);
    lemma_find_shift(s, "{{"@, k, from);
    lemma_find_from(t, "{{"@, from);
    let open = find_from(t, "{{"@, from);
    assert(s.skip(k + from) =~= t.skip(from));
    if !(open < from || open + 2 > t.len()) {
        lemma_find_shift(s, "}}"@, k, open + 2);
        lemma_find_from(t, "}}"@, open + 2);
        let close = find_from(t, "}}"@, open + 2);
        assert(s.subrange(k + from, k + open) =~= t.subrange(from, open));
        if close < open + 2 || close + 2 > t.len() {
            lemma_filled_shift(s, k, open + 2, vars, env);
        } else {
            lemma_filled_shift(s, k, close + 2, vars, env);
            assert(s.subrange(k + open + 2, k + close) =~= t.subrange(open + 2, close));
        }
    }
}

/// A front in which everything is closed is filled in by itself, whatever follows.
proof fn lemma_filled_front(a: Seq<char>, b: Seq<char>, from: int, vars: TextMap, env: TextMap)
    requires
        all_closed(a),
        0 <= from <= a.len(),
        b.len() == 0 || b[0] == '{' || a.len() == 0 || a.last() != '{',
    ensures
        filled_from(a + b, from, vars, env) == filled_from(a, from, vars, env) + filled(
            b,
            vars,
            env,
        ),
        placeholders_from(a + b, from) == placeholders_from(a, from) + placeholders_from(b, 0),
    decreases a.len() - from,
{
    let s = a + b;
    let n = a.len() as int;
    lemma_doubled(s, 0);
    lemma_find_from(a, "{{"@, from);
    lemma_find_from(s, "{{"@, from);
    let open = find_from(a, "{{"@, from);
    assert forall|i: int| doubled(a, '{', i) implies #[trigger] doubled(s, '{', i) by {}
    assert forall|i: int| doubled(a, '}', i) implies #[trigger] doubled(s, '}', i) by {}
    assert(s.skip(n) =~= b);
    if open <= a.len() {
        lemma_doubled(a, open);
        lemma_doubled(s, open);
        assert(doubled(s, '{', open));
        assert forall|j: int| from <= j < open implies !#[trigger] occurs_at(s, "{{"@, j) by {
            lemma_doubled(s, j);
            lemma_doubled(a, j);
        }
        lemma_find_is(s, "{{"@, from, open);
        let k = choose|k: int| open + 2 <= k && #[trigger] doubled(a, '}', k);
        lemma_doubled(a, k);
        lemma_find_from(a, "}}"@, open + 2);
        let close = find_from(a, "}}"@, open + 2);
        assert(close <= k);
        lemma_doubled(a, close);
        lemma_doubled(s, close);
        assert forall|j: int| open + 2 <= j < close implies !#[trigger] occurs_at(s, "}}"@, j) by {
            lemma_doubled(s, j);
            lemma_doubled(a, j);
        }
        lemma_find_is(s, "}}"@, open + 2, close);
        lemma_filled_front(a, b, close + 2, vars, env);
        assert(s.subrange(from, open) =~= a.subrange(from, open));
        assert(s.subrange(open + 2, close) =~= a.subrange(open + 2, close));
        let head = a.subrange(from, open);
        let value = value_of(a.subrange(open + 2, close), vars, env);
        let rest = filled_from(a, close + 2, vars, env);
        assert(head + value + (rest + filled(b, vars, env)) =~= head + value + rest + filled(
            b,
            vars,
            env,
        ));
        assert(seq![a.subrange(open + 2, close)] + (placeholders_from(a, close + 2)
            + placeholders_from(b, 0)) =~= seq![a.subrange(open + 2, close)] + placeholders_from(
            a,
            close + 2,
        ) + placeholders_from(b, 0));
    } else {
        assert(filled_from(a, from, vars, env) =~= a.skip(from));
        assert forall|j: int| from <= j < n implies !#[trigger] occurs_at(s, "{{"@, j) by {
            lemma_doubled(s, j);
            lemma_doubled(a, j);
            if doubled(s, '{', j) {
                if j + 1 < n {
                    assert(doubled(a, '{', j));
                } else {
                    assert(a.last() == '{');
                }
            }
        }
        lemma_filled_skip(s, from, n, vars, env);
        lemma_filled_shift(s, n, 0, vars, env);
        assert(s.subrange(from, n) =~= a.skip(from));
        assert(placeholders_from(a, from) =~= Seq::empty());
        assert(Seq::<Seq<char>>::empty() + placeholders_from(b, 0) =~= placeholders_from(b, 0));
    }
}

/// Where nothing is opened, the text stays and filling in goes on behind it.
proof fn lemma_filled_skip(s: Seq<char>, from: int, to: int, vars: TextMap, env: TextMap)
    requires
        0 <= from <= to <= s.len(),
        forall|j: int| from <= j < to ==> !#[trigger] occurs_at(s, "{{"@, j),
    ensures
        filled_from(s, from, vars, env) == s.subrange(from, to) + filled_from(s, to, vars, env),
        placeholders_from(s, from) == placeholders_from(s, to),
{
    lemma_doubled(s, 0);
    lemma_find_from(s, "{{"@, from);
    lemma_find_from(s, "{{"@, to);
    let a = find_from(s, "{{"@, from);
    let b = find_from(s, "{{"@, to);
    assert(a == b) by {
        if a < to {
            assert(!occurs_at(s, "{{"@, a));
        } else if a < b {
            assert(!occurs_at(s, "{{"@, a));
        } else if b < a {
            if b <= s.len() {
                assert(!occurs_at(s, "{{"@, b));
            }
        }
    }
    assert(s.subrange(from, to) + s.skip(to) =~= s.skip(from));
    if a <= s.len() {
        let close = find_from(s, "}}"@, a + 2);
        assert(s.subrange(from, to) + s.subrange(to, a) =~= s.subrange(from, a));
        if close < a + 2 || close + 2 > s.len() {
            let rest = filled_from(s, a + 2, vars, env);
            assert(s.subrange(from, to) + (s.subrange(to, a) + "{{"@ + rest) =~= s.subrange(from, a)
                + "{{"@ + rest);
        } else {
            let value = value_of(s.subrange(a + 2, close), vars, env);
            let rest = filled_from(s, close + 2, vars, env);
            assert(s.subrange(from, to) + (s.subrange(to, a) + value + rest) =~= s.subrange(from, a)
                + value + rest);
        }
    }
}

/// Filling in goes through a text piece by piece. A closed placeholder comes to its
/// value wherever it stands: the one supplied, else the environment's, else itself. What
/// stands before it and behind it is filled in as if it stood alone.
pub proof fn law_every_placeholder_is_filled_in(
    a: Seq<char>,
    name: Seq<char>,
    b: Seq<char>,
    vars: TextMap,
    env: TextMap,
)
    requires
        all_closed(a),
        ends_at_marks(name),
    ensures
        ({
            let s = a + "{{"@ + name + "}}"@ + b;
            let value = if vars.dom().contains(name) {
                vars[name]
            } else if env.dom().contains(name) {
                env[name]
            } else {
                "{{"@ + name + "}}"@
            };
            filled(s, vars, env) == filled(a, vars, env) + value + filled(b, vars, env)
        }),
{
    let tail = "{{"@ + name + "}}"@ + b;
    let s = a + "{{"@ + name + "}}"@ + b;
    assert(s =~= a + tail);
    lemma_doubled(tail, 0);
    reveal_strlit("{{");
    lemma_filled_front(a, tail, 0, vars, env);
    lemma_one_placeholder(name, b, vars, env);
    let value = value_of(name, vars, env);
    assert(filled(a, vars, env) + (value + filled(b, vars, env)) =~= filled(a, vars, env) + value
        + filled(b, vars, env));
}

proof fn lemma_one_placeholder(name: Seq<char>, b: Seq<char>, vars: TextMap, env: TextMap)
    requires
        ends_at_marks(name),
    ensures
        filled("{{"@ + name + "}}"@ + b, vars, env) == value_of(name, vars, env) + filled(
            b,
            vars,
            env,
        ),
        placeholders_from("{{"@ + name + "}}"@ + b, 0) == seq![name] + placeholders_from(b, 0),
{
    reveal_strlit("{{");
    reveal_strlit("}}");
    let s = "{{"@ + name + "}}"@ + b;
    let n = name.len() as int;
    lemma_doubled(s, 0);
    assert(s[0] == '{' && s[1] == '{');
    lemma_find_is(s, "{{"@, 0, 0);
    assert(s[n + 2] == '}' && s[n + 3] == '}');
    lemma_doubled(s, n + 2);
    assert forall|j: int| 2 <= j < n + 2 implies !#[trigger] occurs_at(s, "}}"@, j) by {
        lemma_doubled(s, j);
        assert(s[j] == name[j - 2]);
        if j < n + 1 {
            assert(s[j + 1] == name[j - 1]);
            assert(!doubled(name, '}', j - 2));
        }
    }
    lemma_find_is(s, "}}"@, 2, n + 2);
    assert(s.subrange(2, n + 2) =~= name);
    lemma_filled_shift(s, n + 4, 0, vars, env);
    assert(s.skip(n + 4) =~= b);
    let value = value_of(name, vars, env);
    assert(s.subrange(0, 0) + value + filled(b, vars, env) =~= value + filled(b, vars, env));
}

/// What is never closed stays as it is written, to the end of the text.
pub proof fn law_an_unclosed_placeholder_stays(
    a: Seq<char>,
    b: Seq<char>,
    vars: TextMap,
    env: TextMap,
)
    requires
        all_closed(a),
        forall|i: int| !#[trigger] doubled(b, '}', i),
    ensures
        filled(a + "{{"@ + b, vars, env) == filled(a, vars, env) + "{{"@ + b,
        placeholders_from(a + "{{"@ + b, 0) == placeholders_from(a, 0),
{
    reveal_strlit("{{");
    let tail = "{{"@ + b;
    assert(a + "{{"@ + b =~= a + tail);
    lemma_filled_front(a, tail, 0, vars, env);
    assert forall|i: int| 2 <= i implies !#[trigger] occurs_at(tail, "}}"@, i) by {
        lemma_doubled(tail, i);
        if doubled(tail, '}', i) {
            assert(doubled(b, '}', i - 2));
        }
    }
    lemma_unclosed(tail, 0, vars, env);
    assert(tail.skip(0) =~= tail);
    assert(filled(a, vars, env) + tail =~= filled(a, vars, env) + "{{"@ + b);
    assert(placeholders_from(a, 0) + Seq::empty() =~= placeholders_from(a, 0));
}

proof fn lemma_unclosed(s: Seq<char>, from: int, vars: TextMap, env: TextMap)
    requires
        0 <= from <= s.len(),
        forall|i: int| from + 2 <= i ==> !#[trigger] occurs_at(s, "}}"@, i),
    ensures
        filled_from(s, from, vars, env) == s.skip(from),
        placeholders_from(s, from) == Seq::<Seq<char>>::empty(),
    decreases s.len() - from,
{
    lemma_doubled(s, 0);
    lemma_find_from(s, "{{"@, from);
    let open = find_from(s, "{{"@, from);
    if open <= s.len() {
        lemma_find_from(s, "}}"@, open + 2);
        let close = find_from(s, "}}"@, open + 2);
        if close <= s.len() {
            assert(!occurs_at(s, "}}"@, close));
        }
        lemma_unclosed(s, open + 2, vars, env);
        assert(s.subrange(open, open + 2) =~= "{{"@);
        assert(s.subrange(from, open) + s.subrange(open, open + 2) + s.skip(open + 2) =~= s.skip(
            from,
        ));
    }
}

/// The names in a text are those of its closed placeholders, in the order in which they
/// stand.
pub proof fn law_every_placeholder_is_found(a: Seq<char>, name: Seq<char>, b: Seq<char>)
    requires
        all_closed(a),
        ends_at_marks(name),
    ensures
        placeholders_from(a + "{{"@ + name + "}}"@ + b, 0) == placeholders_from(a, 0) + seq![name]
            + placeholders_from(b, 0),
{
    let tail = "{{"@ + name + "}}"@ + b;
    assert(a + "{{"@ + name + "}}"@ + b =~= a + tail);
    reveal_strlit("{{");
    lemma_filled_front(a, tail, 0, Map::empty(), Map::empty());
    lemma_one_placeholder(name, b, Map::empty(), Map::empty());
    assert(placeholders_from(a, 0) + (seq![name] + placeholders_from(b, 0)) =~= placeholders_from(
        a,
        0,
    ) + seq![name] + placeholders_from(b, 0));
}

/// A text in which nothing is opened is left alone, and asks for nothing.
pub proof fn law_plain_text_is_left_alone(s: Seq<char>, vars: TextMap, env: TextMap)
    requires
        forall|i: int| !#[trigger] doubled(s, '{', i),
    ensures
        filled(s, vars, env) == s,
        placeholders_from(s, 0) == Seq::<Seq<char>>::empty(),
{
    lemma_doubled(s, 0);
    lemma_find_from(s, "{{"@, 0);
    let open = find_from(s, "{{"@, 0);
    if open <= s.len() {
        lemma_doubled(s, open);
    }
    assert(s.skip(0) =~= s);
}

/// Every part of a request is searched for placeholders: its URL, the names and the values
/// of its headers and of its query, and its body; and nothing else is.
pub proof fn law_every_part_is_searched(
    url: Seq<char>,
    headers: Seq<Row>,
    query: Seq<Row>,
    body: Option<Seq<char>>,
    name: Seq<char>,
)
    ensures
        distinct(placeholders(sources(url, headers, query, body))).contains(name) <==> {
            ||| placeholders_from(url, 0).contains(name)
            ||| exists|i: int| 0 <= i < headers.len() && asks_for(#[trigger] headers[i], name)
            ||| exists|i: int| 0 <= i < query.len() && asks_for(#[trigger] query[i], name)
            ||| body matches Some(b) && placeholders_from(b, 0).contains(name)
        },
{
    let all = sources(url, headers, query, body);
    law_distinct_names(placeholders(all));
    lemma_placeholders_in(all, name);
    let h = row_fields(headers);
    let q = row_fields(query);
    let fixed = seq![url] + h + q;
    lemma_row_fields(headers, name);
    lemma_row_fields(query, name);
    lemma_found_joins(seq![url], h, name);
    lemma_found_joins(seq![url] + h, q, name);
    assert(found_in(seq![url], name) <==> placeholders_from(url, 0).contains(name)) by {
        assert(seq![url][0] == url);
    }
    match body {
        Some(b) => {
            lemma_found_joins(fixed, seq![b], name);
            assert(fixed + seq![b] =~= fixed.push(b));
            assert(found_in(seq![b], name) <==> placeholders_from(b, 0).contains(name)) by {
                assert(seq![b][0] == b);
            }
        },
        None => {},
    }
}

/// The name or the value of a row holds a placeholder of that name.
pub open spec fn asks_for(row: Row, name: Seq<char>) -> bool {
    placeholders_from(row.0, 0).contains(name) || placeholders_from(row.1, 0).contains(name)
}

spec fn found_in(texts: Seq<Seq<char>>, name: Seq<char>) -> bool {
    exists|i: int| 0 <= i < texts.len() && placeholders_from(#[trigger] texts[i], 0).contains(name)
}

proof fn lemma_found_joins(a: Seq<Seq<char>>, b: Seq<Seq<char>>, name: Seq<char>)
    ensures
        found_in(a + b, name) <==> found_in(a, name) || found_in(b, name),
{
    let both = a + b;
    if found_in(both, name) {
        let i = choose|i: int|
            0 <= i < both.len() && placeholders_from(#[trigger] both[i], 0).contains(name);
        if i < a.len() {
            assert(a[i] == both[i]);
        } else {
            assert(b[i - a.len()] == both[i]);
        }
    }
    if found_in(a, name) {
        let i = choose|i: int|
            0 <= i < a.len() && placeholders_from(#[trigger] a[i], 0).contains(name);
        assert(both[i] == a[i]);
    }
    if found_in(b, name) {
        let i = choose|i: int|
            0 <= i < b.len() && placeholders_from(#[trigger] b[i], 0).contains(name);
        assert(both[i + a.len()] == b[i]);
    }
}

proof fn lemma_row_fields(rows: Seq<Row>, name: Seq<char>)
    ensures
        found_in(row_fields(rows), name) <==> exists|i: int|
            0 <= i < rows.len() && asks_for(#[trigger] rows[i], name),
    decreases rows.len(),
{
    if rows.len() > 0 {
        let front = rows.drop_last();
        let last = rows.last();
        lemma_row_fields(front, name);
        let two = seq![last.0, last.1];
        lemma_found_joins(row_fields(front), two, name);
        assert(row_fields(front) + two =~= row_fields(rows));
        assert(found_in(two, name) <==> asks_for(last, name)) by {
            assert(two[0] == last.0 && two[1] == last.1);
        }
        if exists|i: int| 0 <= i < front.len() && asks_for(#[trigger] front[i], name) {
            let i = choose|i: int| 0 <= i < front.len() && asks_for(#[trigger] front[i], name);
            assert(asks_for(rows[i], name));
        }
        if asks_for(last, name) {
            assert(asks_for(rows[rows.len() - 1], name));
        }
        if exists|i: int| 0 <= i < rows.len() && asks_for(#[trigger] rows[i], name) {
            let i = choose|i: int| 0 <= i < rows.len() && asks_for(#[trigger] rows[i], name);
            if i < front.len() {
                assert(asks_for(front[i], name));
            }
        }
    }
}

proof fn lemma_placeholders_in(texts: Seq<Seq<char>>, name: Seq<char>)
    ensures
        placeholders(texts).contains(name) <==> found_in(texts, name),
    decreases texts.len(),
{
    if texts.len() > 0 {
        let front = texts.drop_last();
        let last = texts.last();
        lemma_placeholders_in(front, name);
        lemma_found_joins(front, seq![last], name);
        assert(front + seq![last] =~= texts);
        assert(found_in(seq![last], name) <==> placeholders_from(last, 0).contains(name)) by {
            assert(seq![last][0] == last);
        }
        let a = placeholders(front);
        let b = placeholders_from(last, 0);
        if (a + b).contains(name) {
            let i = choose|i: int| 0 <= i < (a + b).len() && (a + b)[i] == name;
            if i < a.len() {
                assert(a[i] == name);
            } else {
                assert(b[i - a.len()] == name);
            }
        }
        if a.contains(name) {
            let i = choose|i: int| 0 <= i < a.len() && a[i] == name;
            assert((a + b)[i] == name);
        }
        if b.contains(name) {
            let i = choose|i: int| 0 <= i < b.len() && b[i] == name;
            assert((a + b)[i + a.len()] == name);
        }
    }
}

/// A chain asks for a variable that one of its steps uses, unless a step before that one
/// takes a value of the name out of its response; and it asks for no other.
pub proof fn law_a_chain_asks_unless_a_step_before_brings_it(
    steps: Seq<RequestConfig>,
    n: int,
    name: Seq<char>,
)
    requires
        0 <= n <= steps.len(),
    ensures
        wanted(steps, n).contains(name) <==> exists|k: int|
            0 <= k < n && step_names(#[trigger] steps[k]).contains(name) && (forall|j: int|
                0 <= j < k ==> !((#[trigger] steps[j]).extract matches Some(m) && m@.dom().contains(
                    name,
                ))),
{
    law_chain_asks_only_for_what_it_lacks(steps, n, name);
    assert forall|k: int| 0 <= k < n implies (#[trigger] lacks(steps, k, name) <==> step_names(
        steps[k],
    ).contains(name) && (forall|j: int|
        0 <= j < k ==> !((#[trigger] steps[j]).extract matches Some(m) && m@.dom().contains(name)))) by {
        let first = steps.take(k);
        if produces(first, name) {
            let j = choose|j: int| 0 <= j < first.len() && step_produces(#[trigger] first[j], name);
            assert(steps[j] == first[j]);
        } else {
            assert forall|j: int| 0 <= j < k implies !((#[trigger] steps[j]).extract matches Some(m)
                && m@.dom().contains(name)) by {
                assert(first[j] == steps[j]);
                assert(!step_produces(first[j], name));
            }
        }
    }
    if wanted(steps, n).contains(name) {
        let k = choose|k: int| 0 <= k < n && #[trigger] lacks(steps, k, name);
        assert(step_names(steps[k]).contains(name));
    }
    if exists|k: int|
        0 <= k < n && step_names(#[trigger] steps[k]).contains(name) && (forall|j: int|
            0 <= j < k ==> !((#[trigger] steps[j]).extract matches Some(m) && m@.dom().contains(name))) {
        let k = choose|k: int|
            0 <= k < n && step_names(#[trigger] steps[k]).contains(name) && (forall|j: int|
                0 <= j < k ==> !((#[trigger] steps[j]).extract matches Some(m) && m@.dom().contains(
                    name,
                )));
        assert(lacks(steps, k, name));
    }
}

} // verus!
