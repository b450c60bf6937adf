//! A map from text to text, kept in name order so that whatever is listed from
//! it is listed the same way every time.
use vstd::prelude::*;
use vstd::string::*;

use crate::order::{lemma_text_lt_total, lemma_text_lt_trans, rows_of, str_lt, text_lt, Row};
use crate::text::{str_eq, texts};

verus! {

/// The rows are in strict name order, so no name occurs twice.
pub open spec fn strictly_named(rows: Seq<Row>) -> bool {
    forall|i: int, j: int| 0 <= i < j < rows.len() ==> text_lt(#[trigger] rows[i].0, #[trigger] rows[j].0)
}

/// Some row is named `k`.
pub open spec fn has_name(rows: Seq<Row>, k: Seq<char>) -> bool {
    exists|i: int| 0 <= i < rows.len() && #[trigger] rows[i].0 == k
}

/// The row named `k`, where there is one.
pub open spec fn row_named(rows: Seq<Row>, k: Seq<char>) -> int {
    choose|i: int| 0 <= i < rows.len() && #[trigger] rows[i].0 == k
}

/// The map that rows without a repeated name spell out.
pub open spec fn map_of(rows: Seq<Row>) -> Map<Seq<char>, Seq<char>> {
    Map::new(|k: Seq<char>| has_name(rows, k), |k: Seq<char>| rows[row_named(rows, k)].1)
}

/// A map from names to values.
#[derive(Debug, PartialEq, Eq)]
pub struct StrMap {
    pairs: Vec<(String, String)>,
}

impl View for StrMap {
    type V = Map<Seq<char>, Seq<char>>;

    open spec fn view(&self) -> Map<Seq<char>, Seq<char>> {
        map_of(self.rows())
    }
}

proof fn lemma_row_at(rows: Seq<Row>, i: int)
    requires
        strictly_named(rows),
        0 <= i < rows.len(),
    ensures
        row_named(rows, rows[i].0) == i,
        map_of(rows).dom().contains(rows[i].0),
        map_of(rows)[rows[i].0] == rows[i].1,
{
    let j = row_named(rows, rows[i].0);
    assert(0 <= j < rows.len() && rows[j].0 == rows[i].0);
    lemma_text_lt_total(rows[i].0, rows[j].0);
    assert(!(i < j)) by {
        if i < j {
            assert(text_lt(rows[i].0, rows[j].0));
        }
    }
    assert(!(j < i)) by {
        if j < i {
            assert(text_lt(rows[j].0, rows[i].0));
        }
    }
}

/// Every row is what its name maps to.
pub proof fn lemma_rows_are_the_map(rows: Seq<Row>)
    requires
        strictly_named(rows),
    ensures
        forall|i: int|
            0 <= i < rows.len() ==> map_of(rows).dom().contains(#[trigger] rows[i].0)
                && map_of(rows)[rows[i].0] == rows[i].1,
{
    assert forall|i: int| 0 <= i < rows.len() implies map_of(rows).dom().contains(
        #[trigger] rows[i].0,
    ) && map_of(rows)[rows[i].0] == rows[i].1 by {
        lemma_row_at(rows, i);
    }
}

/// Two lists in strict name order that spell out one map are the same list.
pub proof fn law_rows_are_canonical(a: Seq<Row>, b: Seq<Row>)
    requires
        strictly_named(a),
        strictly_named(b),
        map_of(a) == map_of(b),
    ensures
        a == b,
    decreases a.len() + b.len(),
{
    lemma_rows_are_the_map(a);
    lemma_rows_are_the_map(b);
    if a.len() == 0 {
        if b.len() > 0 {
            assert(map_of(a).dom().contains(b[0].0));
        }
        assert(a =~= b);
    } else if b.len() == 0 {
        assert(map_of(b).dom().contains(a[0].0));
    } else {
        let p = a.last();
        let q = b.last();
        lemma_text_lt_total(p.0, q.0);
        assert(map_of(b).dom().contains(a[a.len() - 1].0));
        assert(map_of(a).dom().contains(b[b.len() - 1].0));
        let i = row_named(a, q.0);
        let j = row_named(b, p.0);
        assert(0 <= i < a.len() && a[i].0 == q.0);
        assert(0 <= j < b.len() && b[j].0 == p.0);
        assert(p.0 == q.0) by {
            if i < a.len() - 1 {
                assert(text_lt(a[i].0, a[a.len() - 1].0));
            }
            if j < b.len() - 1 {
                assert(text_lt(b[j].0, b[b.len() - 1].0));
            }
        }
        lemma_row_at(a, a.len() - 1);
        lemma_row_at(b, b.len() - 1);
        assert(p == q);
        let a1 = a.drop_last();
        let b1 = b.drop_last();
        lemma_drop_last(a);
        lemma_drop_last(b);
        assert(map_of(a1) == map_of(b1));
        law_rows_are_canonical(a1, b1);
        assert(a =~= a1.push(p));
        assert(b =~= b1.push(q));
    }
}

pub proof fn lemma_drop_last(a: Seq<Row>)
    requires
        strictly_named(a),
        a.len() > 0,
    ensures
        strictly_named(a.drop_last()),
        map_of(a.drop_last()) == map_of(a).remove(a.last().0),
{
    let a1 = a.drop_last();
    assert forall|i: int, j: int| 0 <= i < j < a1.len() implies text_lt(
        #[trigger] a1[i].0,
        #[trigger] a1[j].0,
    ) by {
        assert(text_lt(a[i].0, a[j].0));
    }
    lemma_rows_are_the_map(a);
    lemma_rows_are_the_map(a1);
    let m1 = map_of(a1);
    let m2 = map_of(a).remove(a.last().0);
    assert forall|k: Seq<char>| m1.dom().contains(k) == m2.dom().contains(k) by {
        if has_name(a1, k) {
            let i = row_named(a1, k);
            assert(a1[i].0 == k);
            assert(a[i].0 == k);
            assert(text_lt(a[i].0, a[a.len() - 1].0));
            lemma_text_lt_total(a[i].0, a[a.len() - 1].0);
        }
        if has_name(a, k) && k != a.last().0 {
            let i = row_named(a, k);
            assert(a[i].0 == k);
            assert(a1[i].0 == k);
        }
    }
    assert forall|k: Seq<char>| m1.dom().contains(k) implies m1[k] == m2[k] by {
        let i = row_named(a1, k);
        assert(a1[i].0 == k);
        assert(a[i].0 == k);
        lemma_row_at(a, i);
        lemma_row_at(a1, i);
    }
    assert(m1 =~= m2);
}

/// Rows that hold exactly the pairs of a map spell that map out.
proof fn lemma_spells(rows: Seq<Row>, m: Map<Seq<char>, Seq<char>>)
    requires
        strictly_named(rows),
        forall|k: Seq<char>| #[trigger] m.dom().contains(k) ==> has_name(rows, k),
        forall|x: int|
            0 <= x < rows.len() ==> m.dom().contains(#[trigger] rows[x].0) && m[rows[x].0]
                == rows[x].1,
    ensures
        map_of(rows) == m,
{
    lemma_rows_are_the_map(rows);
    assert forall|k: Seq<char>| map_of(rows).dom().contains(k) == m.dom().contains(k) by {
        if has_name(rows, k) {
            assert(rows[row_named(rows, k)].0 == k);
        }
    }
    assert forall|k: Seq<char>| map_of(rows).dom().contains(k) implies map_of(rows)[k] == m[k] by {
        assert(rows[row_named(rows, k)].0 == k);
    }
    assert(map_of(rows) =~= m);
}

proof fn lemma_set_row(rows: Seq<Row>, i: int, row: Row)
    requires
        strictly_named(rows),
        0 <= i < rows.len(),
        rows[i].0 == row.0,
    ensures
        strictly_named(rows.update(i, row)),
        map_of(rows.update(i, row)) == map_of(rows).insert(row.0, row.1),
{
    let after = rows.update(i, row);
    let m = map_of(rows).insert(row.0, row.1);
    assert forall|x: int, y: int| 0 <= x < y < after.len() implies text_lt(
        #[trigger] after[x].0,
        #[trigger] after[y].0,
    ) by {
        assert(text_lt(rows[x].0, rows[y].0));
    }
    lemma_rows_are_the_map(rows);
    assert forall|k: Seq<char>| #[trigger] m.dom().contains(k) implies has_name(after, k) by {
        if k == row.0 {
            assert(after[i].0 == k);
        } else {
            let j = row_named(rows, k);
            assert(rows[j].0 == k);
            assert(after[j].0 == k);
        }
    }
    assert forall|x: int| 0 <= x < after.len() implies m.dom().contains(#[trigger] after[x].0)
        && m[after[x].0] == after[x].1 by {
        assert(after[x].0 == rows[x].0);
        if x < i {
            assert(text_lt(rows[x].0, rows[i].0));
        } else if i < x {
            assert(text_lt(rows[i].0, rows[x].0));
        }
        lemma_text_lt_total(rows[x].0, rows[i].0);
    }
    lemma_spells(after, m);
}

proof fn lemma_add_row(rows: Seq<Row>, i: int, row: Row)
    requires
        strictly_named(rows),
        0 <= i <= rows.len(),
        forall|x: int| 0 <= x < i ==> text_lt(#[trigger] rows[x].0, row.0),
        forall|x: int| i <= x < rows.len() ==> text_lt(row.0, #[trigger] rows[x].0),
    ensures
        strictly_named(rows.insert(i, row)),
        map_of(rows.insert(i, row)) == map_of(rows).insert(row.0, row.1),
        !map_of(rows).dom().contains(row.0),
{
    let after = rows.insert(i, row);
    let m = map_of(rows).insert(row.0, row.1);
    assert forall|x: int| 0 <= x < after.len() implies #[trigger] after[x] == if x < i {
        rows[x]
    } else if x == i {
        row
    } else {
        rows[x - 1]
    } by {}
    assert forall|x: int, y: int| 0 <= x < y < after.len() implies text_lt(
        #[trigger] after[x].0,
        #[trigger] after[y].0,
    ) by {
        if x != i && y != i {
            let x0 = if x < i { x } else { x - 1 };
            let y0 = if y < i { y } else { y - 1 };
            assert(text_lt(rows[x0].0, rows[y0].0));
        } else if x == i {
            assert(text_lt(row.0, rows[y - 1].0));
        } else {
            assert(text_lt(rows[x].0, row.0));
        }
    }
    lemma_rows_are_the_map(rows);
    assert forall|k: Seq<char>| #[trigger] m.dom().contains(k) implies has_name(after, k) by {
        if k == row.0 {
            assert(after[i].0 == k);
        } else {
            let j = row_named(rows, k);
            assert(rows[j].0 == k);
            if j < i {
                assert(after[j].0 == k);
            } else {
                assert(after[j + 1].0 == k);
            }
        }
    }
    assert forall|x: int| 0 <= x < after.len() implies m.dom().contains(#[trigger] after[x].0)
        && m[after[x].0] == after[x].1 by {
        if x < i {
            lemma_text_lt_total(rows[x].0, row.0);
            assert(map_of(rows).dom().contains(rows[x].0));
        } else if x > i {
            lemma_text_lt_total(rows[x - 1].0, row.0);
            assert(text_lt(row.0, rows[x - 1].0));
            assert(map_of(rows).dom().contains(rows[x - 1].0));
        }
    }
    lemma_spells(after, m);
    if has_name(rows, row.0) {
        let j = row_named(rows, row.0);
        assert(rows[j].0 == row.0);
        lemma_text_lt_total(rows[j].0, row.0);
    }
}

impl StrMap {
    #[verifier::type_invariant]
    spec fn inv(self) -> bool {
        strictly_named(rows_of(self.pairs@))
    }

    /// The pairs in name order.
    pub closed spec fn rows(&self) -> Seq<Row> {
        rows_of(self.pairs@)
    }

    /// A map without a pair in it.
    pub fn new() -> (r: StrMap)
        ensures
            r@ == Map::<Seq<char>, Seq<char>>::empty(),
            r.rows().len() == 0,
    {
        let r = StrMap { pairs: Vec::new() };
        proof {
            assert(r@ =~= Map::<Seq<char>, Seq<char>>::empty());
        }
        r
    }

    /// How many pairs there are.
    pub fn len(&self) -> (n: usize)
        ensures
            n == self.rows().len(),
            strictly_named(self.rows()),
            self.rows() == listing(self@),
            has_listing(self@),
    {
        proof {
            use_type_invariant(self);
            lemma_listing(self.rows());
        }
        self.pairs.len()
    }

    /// Whether there is no pair.
    pub fn is_empty(&self) -> (r: bool)
        ensures
            r == (self.rows().len() == 0),
            r == (self@ == Map::<Seq<char>, Seq<char>>::empty()),
    {
        let r = self.pairs.len() == 0;
        proof {
            use_type_invariant(self);
            if r {
                assert(self@ =~= Map::<Seq<char>, Seq<char>>::empty());
            } else {
                lemma_row_at(self.rows(), 0);
            }
        }
        r
    }

    /// The pair at a place in the order.
    pub fn row(&self, i: usize) -> (p: (&str, &str))
        requires
            i < self.rows().len(),
        ensures
            (p.0@, p.1@) == self.rows()[i as int],
    {
        let p = &self.pairs[i];
        (p.0.as_str(), p.1.as_str())
    }

    /// The first row whose name does not come before `name`.
    fn place(&self, name: &str) -> (i: usize)
        ensures
            i <= self.pairs.len(),
            forall|x: int| 0 <= x < i ==> text_lt(#[trigger] self.rows()[x].0, name@),
            i < self.pairs.len() ==> !text_lt(self.rows()[i as int].0, name@),
    {
        let mut i: usize = 0;
        while i < self.pairs.len() && str_lt(self.pairs[i].0.as_str(), name)
            invariant
                i <= self.pairs.len(),
                forall|x: int| 0 <= x < i ==> text_lt(#[trigger] self.rows()[x].0, name@),
            decreases self.pairs.len() - i,
        {
            i = i + 1;
        }
        i
    }

    /// The value a name maps to.
    pub fn get(&self, name: &str) -> (r: Option<&String>)
        ensures
            r matches Some(v) ==> self@.dom().contains(name@) && self@[name@] == v@,
            r is None ==> !self@.dom().contains(name@),
    {
        let i: usize = self.place(name);
        proof {
            use_type_invariant(self);
        }
        if i < self.pairs.len() && str_eq(self.pairs[i].0.as_str(), name) {
            proof {
                lemma_row_at(self.rows(), i as int);
            }
            Some(&self.pairs[i].1)
        } else {
            proof {
                if has_name(self.rows(), name@) {
                    let j = row_named(self.rows(), name@);
                    assert(self.rows()[j].0 == name@);
                    lemma_text_lt_total(name@, name@);
                    if i < j {
                        lemma_text_lt_total(self.rows()[i as int].0, name@);
                        assert(text_lt(self.rows()[i as int].0, self.rows()[j].0));
                    }
                }
            }
            None
        }
    }

    /// Whether a name maps to anything.
    pub fn contains_key(&self, name: &str) -> (r: bool)
        ensures
            r == self@.dom().contains(name@),
    {
        match self.get(name) {
            Some(_) => true,
            None => false,
        }
    }

    /// Maps a name to a value, in place of what it mapped to before.
    pub fn insert(&mut self, name: String, value: String)
        ensures
            final(self)@ == old(self)@.insert(name@, value@),
    {
        let i: usize = self.place(name.as_str());
        let ghost rows = self.rows();
        let ghost row = (name@, value@);
        let mut pairs = self.to_pairs();
        let ghost before = pairs@;
        proof {
            use_type_invariant(&*self);
        }
        if i < pairs.len() && str_eq(self.pairs[i].0.as_str(), name.as_str()) {
            pairs.set(i, (name, value));
            proof {
                lemma_set_row(rows, i as int, row);
                assert(rows_of(pairs@) =~= rows_of(before).update(i as int, row));
            }
        } else {
            pairs.insert(i, (name, value));
            proof {
                assert forall|x: int| i <= x < rows.len() implies text_lt(
                    row.0,
                    #[trigger] rows[x].0,
                ) by {
                    lemma_text_lt_total(rows[i as int].0, row.0);
                    if i < x {
                        assert(text_lt(rows[i as int].0, rows[x].0));
                        lemma_text_lt_trans(row.0, rows[i as int].0, rows[x].0);
                    }
                }
                lemma_add_row(rows, i as int, row);
                assert(rows_of(pairs@) =~= rows_of(before).insert(i as int, row));
            }
        }
        *self = StrMap { pairs };
    }

    /// The pairs in name order, as a vector.
    pub fn to_pairs(&self) -> (r: Vec<(String, String)>)
        ensures
            rows_of(r@) == self.rows(),
            rows_of(r@) == listing(self@),
            strictly_named(self.rows()),
    {
        proof {
            use_type_invariant(self);
            lemma_listing(self.rows());
        }
        let mut r: Vec<(String, String)> = Vec::new();
        let mut i: usize = 0;
        while i < self.pairs.len()
            invariant
                i <= self.pairs.len(),
                rows_of(r@) == self.rows().take(i as int),
            decreases self.pairs.len() - i,
        {
            let p = &self.pairs[i];
            let ghost before = r@;
            r.push((p.0.clone(), p.1.clone()));
            proof {
                assert(rows_of(r@) =~= rows_of(before).push((p.0@, p.1@)));
                assert(self.rows().take(i + 1) =~= self.rows().take(i as int).push(
                    self.rows()[i as int],
                ));
            }
            i = i + 1;
        }
        proof {
            assert(self.rows().take(self.rows().len() as int) =~= self.rows());
        }
        r
    }
}

impl StrMap {
    /// The names, in order.
    pub fn keys(&self) -> (r: Vec<String>)
        ensures
            texts(r@) == self.rows().map_values(|row: Row| row.0),
    {
        let mut r: Vec<String> = Vec::new();
        let ghost all = self.rows().map_values(|row: Row| row.0);
        let mut i: usize = 0;
        while i < self.pairs.len()
            invariant
                i <= self.pairs.len(),
                all == self.rows().map_values(|row: Row| row.0),
                texts(r@) == all.take(i as int),
            decreases self.pairs.len() - i,
        {
            let ghost before = r@;
            r.push(self.pairs[i].0.clone());
            proof {
                assert(texts(r@) =~= texts(before).push(all[i as int]));
                assert(all.take(i + 1) =~= all.take(i as int).push(all[i as int]));
            }
            i = i + 1;
        }
        proof {
            assert(all.take(all.len() as int) =~= all);
        }
        r
    }
}

impl Clone for StrMap {
    /// The same map again.
    fn clone(&self) -> (r: StrMap)
        ensures
            r@ == self@,
            r.rows() == self.rows(),
    {
        let pairs = self.to_pairs();
        proof {
            use_type_invariant(self);
        }
        StrMap { pairs }
    }
}

// ─── Listings ─────────────────────────────────────────────────────────────────

/// The pairs of a map in name order.
pub open spec fn listing(m: Map<Seq<char>, Seq<char>>) -> Seq<Row> {
    choose|rows: Seq<Row>| strictly_named(rows) && #[trigger] map_of(rows) == m
}

/// The map has pairs to list in name order, as every map that is held has.
pub open spec fn has_listing(m: Map<Seq<char>, Seq<char>>) -> bool {
    strictly_named(listing(m)) && map_of(listing(m)) == m
}

/// Rows in strict name order are the listing of the map they spell out.
pub proof fn lemma_listing(rows: Seq<Row>)
    requires
        strictly_named(rows),
    ensures
        listing(map_of(rows)) == rows,
{
    let m = map_of(rows);
    assert(strictly_named(listing(m)) && map_of(listing(m)) == m);
    law_rows_are_canonical(listing(m), rows);
}

// ─── Joining ──────────────────────────────────────────────────────────────────

impl StrMap {
    /// Takes over the pairs of another map, in place of what its names mapped to
    /// before.
    pub fn extend(&mut self, more: &StrMap)
        ensures
            final(self)@ == old(self)@.union_prefer_right(more@),
    {
        let ghost before = self@;
        let n: usize = more.len();
        let ghost rows = more.rows();
        proof {
            lemma_rows_are_the_map(rows);
            assert(self@.dom() =~= before.dom().union(names_upto(rows, 0)));
        }
        let mut i: usize = 0;
        while i < n
            invariant
                i <= n,
                n == rows.len(),
                rows == more.rows(),
                forall|k: Seq<char>|
                    #[trigger] self@.dom().contains(k) <==> before.dom().contains(k) || names_upto(
                        rows,
                        i as int,
                    ).contains(k),
                forall|k: Seq<char>|
                    before.dom().contains(k) && !names_upto(rows, i as int).contains(k)
                        ==> #[trigger] self@[k] == before[k],
                forall|j: int| 0 <= j < i ==> self@[#[trigger] rows[j].0] == rows[j].1,
                strictly_named(rows),
            decreases n - i,
        {
            let (name, value) = more.row(i);
            let ghost held = self@;
            self.insert(name.to_owned(), value.to_owned());
            proof {
                assert forall|k: Seq<char>| #[trigger]
                    names_upto(rows, i + 1).contains(k) <==> names_upto(rows, i as int).contains(k)
                        || k == name@ by {
                    if k == name@ {
                        assert(rows[i as int].0 == k);
                    }
                }
                assert forall|j: int| 0 <= j < i + 1 implies self@[#[trigger] rows[j].0]
                    == rows[j].1 by {
                    if j < i {
                        assert(text_lt(rows[j].0, rows[i as int].0));
                        lemma_text_lt_total(rows[j].0, rows[i as int].0);
                    }
                }
            }
            i = i + 1;
        }
        proof {
            let both = before.union_prefer_right(more@);
            assert forall|k: Seq<char>| #[trigger] self@.dom().contains(k) <==> both.dom().contains(
                k,
            ) by {
                if has_name(rows, k) {
                    assert(rows[row_named(rows, k)].0 == k);
                }
            }
            assert forall|k: Seq<char>| #[trigger] self@.dom().contains(k) implies self@[k]
                == both[k] by {
                if has_name(rows, k) {
                    let j = row_named(rows, k);
                    assert(rows[j].0 == k);
                    assert(self@[rows[j].0] == rows[j].1);
                }
            }
            assert(self@ =~= both);
        }
    }
}

/// The names of the first `n` rows.
spec fn names_upto(rows: Seq<Row>, n: int) -> Set<Seq<char>> {
    Set::new(|k: Seq<char>| exists|i: int| 0 <= i < n && #[trigger] rows[i].0 == k)
}

} // verus!
