//! A set of texts.
use vstd::prelude::*;
use vstd::string::*;

use crate::text::{str_eq, texts};

verus! {

/// A set of strings.
#[derive(Debug, PartialEq, Eq)]
pub struct StrSet {
    items: Vec<String>,
}

impl View for StrSet {
    type V = Set<Seq<char>>;

    closed spec fn view(&self) -> Set<Seq<char>> {
        texts(self.items@).to_set()
    }
}

impl StrSet {
    /// The empty set.
    pub fn new() -> (r: StrSet)
        ensures
            r@ == Set::<Seq<char>>::empty(),
    {
        let r = StrSet { items: Vec::new() };
        proof {
            assert(r@ =~= Set::empty());
        }
        r
    }

    /// Whether a string is in the set.
    pub fn contains(&self, s: &str) -> (r: bool)
        ensures
            r == self@.contains(s@),
    {
        let mut i: usize = 0;
        while i < self.items.len()
            invariant
                i <= self.items.len(),
                forall|j: int| 0 <= j < i ==> #[trigger] texts(self.items@)[j] != s@,
            decreases self.items.len() - i,
        {
            if str_eq(self.items[i].as_str(), s) {
                proof {
                    assert(texts(self.items@)[i as int] == s@);
                }
                return true;
            }
            i = i + 1;
        }
        false
    }

    /// Puts a string into the set.
    pub fn insert(&mut self, s: String)
        ensures
            final(self)@ == old(self)@.insert(s@),
    {
        let ghost before = texts(self.items@);
        if self.contains(s.as_str()) {
            proof {
                assert(self@.insert(s@) =~= self@);
            }
            return;
        }
        self.items.push(s);
        proof {
            assert(texts(self.items@) =~= before.push(s@));
            assert forall|x: Seq<char>|
                before.push(s@).to_set().contains(x) == before.to_set().insert(s@).contains(x) by {
                if before.contains(x) {
                    let k = choose|k: int| 0 <= k < before.len() && before[k] == x;
                    assert(before.push(s@)[k] == x);
                }
                if x == s@ {
                    assert(before.push(s@)[before.len() as int] == x);
                }
            }
            assert(self@ =~= old(self)@.insert(s@));
        }
    }

    /// Takes a string out of the set.
    pub fn remove(&mut self, s: &str)
        ensures
            final(self)@ == old(self)@.remove(s@),
    {
        let ghost all = texts(self.items@);
        let mut kept: Vec<String> = Vec::new();
        let mut i: usize = 0;
        while i < self.items.len()
            invariant
                i <= self.items.len(),
                all == texts(self.items@),
                forall|x: Seq<char>| #[trigger]
                    texts(kept@).contains(x) <==> (all.take(i as int).contains(x) && x != s@),
            decreases self.items.len() - i,
        {
            let ghost before = texts(kept@);
            let ghost item = all[i as int];
            proof {
                assert(item == self.items@[i as int]@);
                assert forall|x: Seq<char>|
                    all.take(i + 1).contains(x) <==> (all.take(i as int).contains(x) || x == item) by {
                    if all.take(i + 1).contains(x) {
                        let t = all.take(i + 1);
                        let k = choose|k: int| 0 <= k < t.len() && #[trigger] t[k] == x;
                        if k < i {
                            assert(all.take(i as int)[k] == x);
                        }
                    }
                    if all.take(i as int).contains(x) {
                        let t = all.take(i as int);
                        let k = choose|k: int| 0 <= k < t.len() && #[trigger] t[k] == x;
                        assert(all.take(i + 1)[k] == x);
                    }
                    if x == item {
                        assert(all.take(i + 1)[i as int] == x);
                    }
                }
                assert forall|x: Seq<char>| #[trigger]
                    before.contains(x) <==> (all.take(i as int).contains(x) && x != s@) by {}
            }
            if !str_eq(self.items[i].as_str(), s) {
                kept.push(self.items[i].clone());
                proof {
                    assert(texts(kept@) =~= before.push(item));
                    assert forall|x: Seq<char>|
                        before.push(item).contains(x) <==> (before.contains(x) || x == item) by {
                        if before.contains(x) {
                            let k = choose|k: int| 0 <= k < before.len() && before[k] == x;
                            assert(before.push(item)[k] == x);
                        }
                        if x == item {
                            assert(before.push(item)[before.len() as int] == x);
                        }
                    }
                }
            }
            proof {
                assert forall|x: Seq<char>| #[trigger]
                    texts(kept@).contains(x) <==> (all.take(i + 1).contains(x) && x != s@) by {
                    assert(before.contains(x) <==> (all.take(i as int).contains(x) && x != s@));
                    assert(all.take(i + 1).contains(x) <==> (all.take(i as int).contains(x) || x
                        == item));
                }
            }
            i = i + 1;
        }
        proof {
            assert(all.take(all.len() as int) =~= all);
            assert(texts(kept@).to_set() =~= all.to_set().remove(s@));
        }
        self.items = kept;
    }
}

} // verus!
