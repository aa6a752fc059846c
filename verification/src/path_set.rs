//! Sets of paths.

use vstd::prelude::*;

use crate::change_tree::at_or_above;
use crate::text::{chars_of, holds, same, starts_with, texts};

verus! {

/// A set of paths. Each is held once.
pub struct PathSet {
    items: Vec<String>,
}

impl View for PathSet {
    type V = Set<Seq<char>>;

    closed spec fn view(&self) -> Set<Seq<char>> {
        texts(self.items@).to_set()
    }
}

impl PathSet {
    #[verifier::type_invariant]
    spec fn held_once(self) -> bool {
        texts(self.items@).no_duplicates()
    }

    pub fn new() -> (r: PathSet)
        ensures
            r@ == Set::<Seq<char>>::empty(),
    {
        let r = PathSet { items: Vec::new() };
        assert(texts(r.items@) =~= Seq::empty());
        assert(r@ =~= Set::empty());
        r
    }

    pub fn contains(&self, path: &str) -> (r: bool)
        ensures
            r == self@.contains(path@),
    {
        holds(&self.items, path)
    }

    pub fn len(&self) -> (r: usize)
        ensures
            r == self@.len(),
    {
        proof {
            use_type_invariant(self);
            texts(self.items@).unique_seq_to_set();
            assert(texts(self.items@).len() == self.items@.len());
        }
        self.items.len()
    }

    /// The paths, in the order in which they came in.
    pub fn paths(&self) -> (r: &Vec<String>)
        ensures
            texts(r@).to_set() == self@,
    {
        &self.items
    }

    pub fn insert(&mut self, path: &str)
        ensures
            final(self)@ == old(self)@.insert(path@),
    {
        proof {
            use_type_invariant(&*self);
        }
        let ghost before = texts(self.items@);
        if self.contains(path) {
            assert(self@ =~= old(self)@.insert(path@));
            return;
        }
        let mut items: Vec<String> = Vec::new();
        std::mem::swap(&mut items, &mut self.items);
        let copy = path.to_string();
        items.push(copy);
        proof {
            assert(texts(items@) =~= before.push(path@));
            assert(before.push(path@).no_duplicates()) by {
                assert(!before.contains(path@));
            }
            assert forall|x: Seq<char>| before.push(path@).to_set().contains(x)
                == before.to_set().insert(path@).contains(x) by {
                lemma_push_holds(before, path@, x);
            }
            assert(before.push(path@).to_set() =~= before.to_set().insert(path@));
        }
        self.items = items;
    }

    /// Removes a path and the directories above it.
    pub fn remove_with_parents(&mut self, path: &str)
        ensures
            final(self)@ == old(self)@.filter(|c: Seq<char>| !at_or_above(c, path@)),
    {
        proof {
            use_type_invariant(&*self);
        }
        let v = chars_of(path);
        let ghost all = texts(self.items@);
        let mut kept: Vec<String> = Vec::new();
        let mut i: usize = 0;
        assert(texts(kept@) =~= Seq::empty());
        while i < self.items.len()
            invariant
                i <= self.items@.len(),
                all == texts(self.items@),
                all.no_duplicates(),
                v@ == path@,
                texts(kept@).no_duplicates(),
                forall|x: Seq<char>|
                    #[trigger] texts(kept@).contains(x) <==> (all.take(i as int).contains(x)
                        && !at_or_above(x, path@)),
            decreases self.items@.len() - i,
        {
            let ghost before = texts(kept@);
            let ghost one = all[i as int];
            assert(all.take(i + 1) =~= all.take(i as int).push(one));
            assert(!all.take(i as int).contains(one)) by {
                if all.take(i as int).contains(one) {
                    let k = choose|k: int| 0 <= k < i && all.take(i as int)[k] == one;
                    assert(all[k] == all[i as int]);
                }
            }
            if !covers(self.items[i].as_str(), &v) {
                let s = self.items[i].clone();
                kept.push(s);
                assert(texts(kept@) =~= before.push(one));
                assert(!before.contains(one));
            }
            assert forall|x: Seq<char>|
                #[trigger] texts(kept@).contains(x) <==> (all.take(i + 1).contains(x) && !at_or_above(
                    x,
                    path@,
                )) by {
                lemma_push_holds(before, one, x);
                lemma_push_holds(all.take(i as int), one, x);
                assert(before.contains(x) <==> (all.take(i as int).contains(x) && !at_or_above(
                    x,
                    path@,
                )));
            }
            i += 1;
        }
        assert(all.take(i as int) =~= all);
        proof {
            assert forall|x: Seq<char>|
                texts(kept@).to_set().contains(x) == old(self)@.filter(
                    |c: Seq<char>| !at_or_above(c, path@),
                ).contains(x) by {
                assert(texts(kept@).contains(x) <==> (all.contains(x) && !at_or_above(x, path@)));
            }
        }
        self.items = kept;
        assert(self@ =~= old(self)@.filter(|c: Seq<char>| !at_or_above(c, path@)));
    }

    /// Removes everything.
    pub fn clear(&mut self)
        ensures
            final(self)@ == Set::<Seq<char>>::empty(),
    {
        let empty: Vec<String> = Vec::new();
        assert(texts(empty@) =~= Seq::empty());
        self.items = empty;
        assert(self@ =~= Set::empty());
    }

    /// Whether every path of this set is in the other.
    fn within(&self, other: &PathSet) -> (r: bool)
        ensures
            r == self@.subset_of(other@),
    {
        let mut i: usize = 0;
        while i < self.items.len()
            invariant
                i <= self.items@.len(),
                forall|k: int| 0 <= k < i ==> other@.contains(texts(self.items@)[k]),
            decreases self.items@.len() - i,
        {
            if !other.contains(self.items[i].as_str()) {
                assert(self@.contains(texts(self.items@)[i as int]));
                return false;
            }
            i += 1;
        }
        assert forall|x: Seq<char>| self@.contains(x) implies other@.contains(x) by {
            let k = choose|k: int| 0 <= k < texts(self.items@).len() && texts(self.items@)[k] == x;
            assert(other@.contains(texts(self.items@)[k]));
        }
        true
    }

    /// Whether two sets hold the same paths.
    pub fn same(&self, other: &PathSet) -> (r: bool)
        ensures
            r == (self@ == other@),
    {
        let a = self.within(other);
        let b = other.within(self);
        proof {
            if a && b {
                assert(self@ =~= other@);
            }
        }
        a && b
    }
}

impl Clone for PathSet {
    fn clone(&self) -> (r: PathSet)
        ensures
            r@ == self@,
    {
        proof {
            use_type_invariant(self);
        }
        let mut items: Vec<String> = Vec::new();
        let mut i: usize = 0;
        while i < self.items.len()
            invariant
                i <= self.items@.len(),
                texts(items@) =~= texts(self.items@).take(i as int),
            decreases self.items@.len() - i,
        {
            let s = self.items[i].clone();
            let ghost before = items@;
            items.push(s);
            assert(texts(items@) =~= texts(before).push(s@));
            i += 1;
        }
        assert(texts(self.items@).take(i as int) =~= texts(self.items@));
        PathSet { items }
    }
}

/// Whether a directory is this path or above it.
fn covers(dir: &str, path: &[char]) -> (r: bool)
    ensures
        r == at_or_above(dir@, path@),
{
    let d = chars_of(dir);
    same(path, &d) || (starts_with(path, &d) && path.len() > d.len() && path[d.len()] == '/')
}

proof fn lemma_push_holds(s: Seq<Seq<char>>, a: Seq<char>, x: Seq<char>)
    ensures
        s.push(a).contains(x) == (s.contains(x) || x == a),
{
    if s.contains(x) {
        let k = choose|k: int| 0 <= k < s.len() && s[k] == x;
        assert(s.push(a)[k] == x);
    }
    if x == a {
        assert(s.push(a)[s.len() as int] == x);
    }
    if s.push(a).contains(x) {
        let k = choose|k: int| 0 <= k < s.push(a).len() && s.push(a)[k] == x;
        if k < s.len() {
            assert(s[k] == x);
        }
    }
}

} // verus!
