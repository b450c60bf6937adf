//! The order texts are listed in, and sorting by it.
use vstd::prelude::*;
use vstd::string::*;

use crate::text::chars_of;

verus! {

/// A name and a value, as text.
pub type Row = (Seq<char>, Seq<char>);

/// Dictionary order by code point, a prefix before what extends it.
pub open spec fn text_lt(a: Seq<char>, b: Seq<char>) -> bool
    decreases a.len(),
{
    if b.len() == 0 {
        false
    } else if a.len() == 0 {
        true
    } else if a[0] != b[0] {
        a[0] < b[0]
    } else {
        text_lt(a.drop_first(), b.drop_first())
    }
}

/// The order is strict and total.
pub proof fn lemma_text_lt_total(a: Seq<char>, b: Seq<char>)
    ensures
        !(text_lt(a, b) && text_lt(b, a)),
        a == b ==> !text_lt(a, b),
        a != b ==> text_lt(a, b) || text_lt(b, a),
    decreases a.len(),
{
    if a.len() == 0 || b.len() == 0 {
        if a.len() == 0 && b.len() == 0 {
            assert(a =~= b);
        }
    } else if a[0] == b[0] {
        lemma_text_lt_total(a.drop_first(), b.drop_first());
        if a.drop_first() == b.drop_first() {
            assert(a =~= seq![a[0]] + a.drop_first());
            assert(b =~= seq![b[0]] + b.drop_first());
        }
    }
}

/// The order is transitive.
pub proof fn lemma_text_lt_trans(a: Seq<char>, b: Seq<char>, c: Seq<char>)
    requires
        text_lt(a, b),
        text_lt(b, c),
    ensures
        text_lt(a, c),
    decreases a.len(),
{
    if a.len() > 0 && b.len() > 0 && c.len() > 0 && a[0] == b[0] && b[0] == c[0] {
        lemma_text_lt_trans(a.drop_first(), b.drop_first(), c.drop_first());
    }
}

/// Rows by name, and by value where the names are the same.
pub open spec fn row_lt(a: Row, b: Row) -> bool {
    text_lt(a.0, b.0) || (a.0 == b.0 && text_lt(a.1, b.1))
}

/// Whether one string comes before another.
pub fn str_lt(a: &str, b: &str) -> (r: bool)
    ensures
        r == text_lt(a@, b@),
{
    let x = chars_of(a);
    let y = chars_of(b);
    let mut i: usize = 0;
    proof {
        assert(a@.skip(0) =~= a@);
        assert(b@.skip(0) =~= b@);
    }
    while i < x.len() && i < y.len()
        invariant
            x@ == a@,
            y@ == b@,
            i <= x.len(),
            i <= y.len(),
            text_lt(a@, b@) == text_lt(a@.skip(i as int), b@.skip(i as int)),
        decreases x.len() - i,
    {
        if x[i] != y[i] {
            return x[i] < y[i];
        }
        proof {
            assert(a@.skip(i as int).drop_first() =~= a@.skip(i + 1));
            assert(b@.skip(i as int).drop_first() =~= b@.skip(i + 1));
        }
        i = i + 1;
    }
    i < y.len()
}

/// The rows of a vector of pairs, as text.
pub open spec fn rows_of(v: Seq<(String, String)>) -> Seq<Row> {
    v.map_values(|p: (String, String)| (p.0@, p.1@))
}

/// `row` put into `rows` before the first row that comes after it.
pub open spec fn insert_row(rows: Seq<Row>, row: Row) -> Seq<Row>
    decreases rows.len(),
{
    if rows.len() == 0 {
        seq![row]
    } else if row_lt(row, rows.last()) {
        insert_row(rows.drop_last(), row).push(rows.last())
    } else {
        rows.push(row)
    }
}

/// The rows in order: by name, then by value.
pub open spec fn sort_rows(rows: Seq<Row>) -> Seq<Row>
    decreases rows.len(),
{
    if rows.len() == 0 {
        rows
    } else {
        insert_row(sort_rows(rows.drop_last()), rows.last())
    }
}

/// Sorts pairs by name, then by value.
pub fn sort_pairs(pairs: Vec<(String, String)>) -> (r: Vec<(String, String)>)
    ensures
        rows_of(r@) == sort_rows(rows_of(pairs@)),
    decreases pairs.len(),
{
    let mut rest = pairs;
    match rest.pop() {
        None => {
            proof {
                assert(rows_of(rest@) =~= sort_rows(rows_of(pairs@)));
            }
            rest
        },
        Some(last) => {
            proof {
                assert(rows_of(rest@) =~= rows_of(pairs@).drop_last());
            }
            let sorted = sort_pairs(rest);
            insert_pair(sorted, last)
        },
    }
}

fn insert_pair(pairs: Vec<(String, String)>, pair: (String, String)) -> (r: Vec<(String, String)>)
    ensures
        rows_of(r@) == insert_row(rows_of(pairs@), (pair.0@, pair.1@)),
    decreases pairs.len(),
{
    let mut rest = pairs;
    match rest.pop() {
        None => {
            let mut r: Vec<(String, String)> = Vec::new();
            r.push(pair);
            proof {
                assert(rows_of(r@) =~= insert_row(rows_of(pairs@), (pair.0@, pair.1@)));
            }
            r
        },
        Some(last) => {
            let ghost row = (pair.0@, pair.1@);
            proof {
                assert(rows_of(rest@) =~= rows_of(pairs@).drop_last());
                assert(rows_of(pairs@).last() == (last.0@, last.1@));
            }
            let same = pair.0 == last.0;
            if str_lt(pair.0.as_str(), last.0.as_str()) || (same && str_lt(
                pair.1.as_str(),
                last.1.as_str(),
            )) {
                let mut r = insert_pair(rest, pair);
                let ghost before = r@;
                r.push(last);
                proof {
                    assert(rows_of(r@) =~= rows_of(before).push((last.0@, last.1@)));
                }
                r
            } else {
                rest.push(last);
                rest.push(pair);
                proof {
                    assert(rows_of(rest@) =~= rows_of(pairs@).push(row));
                }
                rest
            }
        },
    }
}

/// No row comes before the one listed ahead of it.
pub open spec fn in_order(rows: Seq<Row>) -> bool {
    forall|i: int, j: int| 0 <= i < j < rows.len() ==> !row_lt(#[trigger] rows[j], #[trigger] rows[i])
}

proof fn lemma_row_lt_trans(a: Row, b: Row, c: Row)
    requires
        row_lt(a, b),
        !row_lt(c, b),
    ensures
        row_lt(a, c),
{
    lemma_text_lt_total(b.0, c.0);
    lemma_text_lt_total(b.1, c.1);
    if text_lt(a.0, b.0) && text_lt(b.0, c.0) {
        lemma_text_lt_trans(a.0, b.0, c.0);
    }
    if a.0 == b.0 && text_lt(a.1, b.1) && b.0 == c.0 && text_lt(b.1, c.1) {
        lemma_text_lt_trans(a.1, b.1, c.1);
    }
}

proof fn lemma_insert_row(rows: Seq<Row>, row: Row)
    requires
        in_order(rows),
    ensures
        in_order(insert_row(rows, row)),
        insert_row(rows, row).to_multiset() == rows.to_multiset().insert(row),
        insert_row(rows, row).len() == rows.len() + 1,
    decreases rows.len(),
{
    broadcast use vstd::seq_lib::group_to_multiset_ensures;
    if rows.len() == 0 {
        assert(rows.push(row) =~= seq![row]);
    } else if row_lt(row, rows.last()) {
        let front = rows.drop_last();
        lemma_insert_row(front, row);
        let part = insert_row(front, row);
        let whole = part.push(rows.last());
        assert(rows =~= front.push(rows.last()));
        assert forall|i: int, j: int| 0 <= i < j < whole.len() implies !row_lt(
            #[trigger] whole[j],
            #[trigger] whole[i],
        ) by {
            if j == part.len() {
                assert(part.to_multiset().contains(part[i])) by {
                    assert(part.contains(part[i]));
                }
                if part[i] == row {
                    if row_lt(rows.last(), row) {
                        lemma_text_lt_total(row.0, rows.last().0);
                        lemma_text_lt_total(row.1, rows.last().1);
                    }
                } else {
                    assert(front.to_multiset().contains(part[i]));
                    assert(front.contains(part[i]));
                    let k = choose|k: int| 0 <= k < front.len() && front[k] == part[i];
                    assert(!row_lt(rows[rows.len() - 1], rows[k]));
                }
            }
        }
    } else {
        let whole = rows.push(row);
        assert forall|i: int, j: int| 0 <= i < j < whole.len() implies !row_lt(
            #[trigger] whole[j],
            #[trigger] whole[i],
        ) by {
            if j == rows.len() && row_lt(row, rows[i]) {
                if i < rows.len() - 1 {
                    lemma_row_lt_trans(row, rows[i], rows[rows.len() - 1]);
                }
            }
        }
    }
}

/// Sorting puts the rows in order and neither drops nor adds one.
pub proof fn law_sort_rows_orders(rows: Seq<Row>)
    ensures
        in_order(sort_rows(rows)),
        sort_rows(rows).to_multiset() == rows.to_multiset(),
        sort_rows(rows).len() == rows.len(),
    decreases rows.len(),
{
    broadcast use vstd::seq_lib::group_to_multiset_ensures;
    if rows.len() > 0 {
        law_sort_rows_orders(rows.drop_last());
        lemma_insert_row(sort_rows(rows.drop_last()), rows.last());
        assert(rows =~= rows.drop_last().push(rows.last()));
    }
}

} // verus!
