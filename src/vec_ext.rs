use std::collections::VecDeque;
use vstd::prelude::*;

verus! {

/// The first position of `x` in `s`; meaningful where `s` contains `x`.
pub open spec fn first_index<T>(s: Seq<T>, x: T) -> int {
    choose|i: int| 0 <= i < s.len() && s[i] == x && forall|k: int| 0 <= k < i ==> s[k] != x
}

/// `s` with its first `item` moved to `target`, clamped to the last place;
/// `s` itself where it holds no `item`.
pub open spec fn shifted<T>(s: Seq<T>, target: int, item: T) -> Seq<T> {
    if s.contains(item) {
        let rest = s.remove(first_index(s, item));
        rest.insert(if target < rest.len() { target } else { rest.len() as int }, item)
    } else {
        s
    }
}

/// Where `x` first stands at `i`, `first_index` names `i`.
pub proof fn lemma_first_index<T>(s: Seq<T>, x: T, i: int)
    requires
        0 <= i < s.len(),
        s[i] == x,
        forall|k: int| 0 <= k < i ==> s[k] != x,
    ensures
        first_index(s, x) == i,
{
    let j = first_index(s, x);
    assert(0 <= j < s.len() && s[j] == x && forall|k: int| 0 <= k < j ==> s[k] != x);
    if j < i {
        assert(s[j] != x);
    } else if i < j {
        assert(s[i] != x);
    }
}

/// An element that a sequence holds has a first position.
pub proof fn lemma_first_index_exists<T>(s: Seq<T>, x: T)
    requires
        s.contains(x),
    ensures
        0 <= first_index(s, x) < s.len(),
        s[first_index(s, x)] == x,
{
    s.index_of_first_ensures(x);
    lemma_first_index(s, x, s.index_of_first(x).unwrap());
}

/// Moving a present element to the front keeps the multiset of elements.
pub proof fn lemma_shift_front_multiset(f: Seq<usize>, x: usize)
    requires
        f.contains(x),
    ensures
        shifted(f, 0, x).to_multiset() =~= f.to_multiset(),
        shifted(f, 0, x).len() > 0,
        shifted(f, 0, x)[0] == x,
{
    broadcast use vstd::seq_lib::group_to_multiset_ensures;
    broadcast use vstd::seq_lib::to_multiset_insert;

    let i = first_index(f, x);
    lemma_first_index_exists(f, x);
    assert(shifted(f, 0, x) == f.remove(i).insert(0, x));
    assert(f.remove(i).to_multiset() =~= f.to_multiset().remove(x));
    assert(f.remove(i).insert(0, x).to_multiset() =~= f.remove(i).to_multiset().insert(x));
    assert(f.to_multiset().count(x) > 0);
}

/// Moving an element of an ordered sequence to another position.
pub trait VecDequeExt<T> {
    spec fn items(&self) -> Seq<T>;

    /// Moves the first `item` to `target_index`, clamped to the end; leaves
    /// the sequence as it is when `item` is not in it.
    fn shift_to_index(&mut self, target_index: usize, item: T)
        ensures
            final(self).items() == shifted(old(self).items(), target_index as int, item),
    ;
}

impl VecDequeExt<usize> for VecDeque<usize> {
    open spec fn items(&self) -> Seq<usize> {
        self@
    }

    fn shift_to_index(&mut self, target_index: usize, item: usize) {
        let mut i: usize = 0;
        let n = self.len();
        while i < n
            invariant
                n == self@.len(),
                self@ == old(self)@,
                i <= n,
                forall|k: int| 0 <= k < i ==> self@[k] != item,
            decreases n - i,
        {
            if self[i] == item {
                proof {
                    lemma_first_index(self@, item, i as int);
                    assert(self@.contains(item));
                }
                let _ = self.remove(i);
                let len = self.len();
                let at = if target_index < len {
                    target_index
                } else {
                    len
                };
                self.insert(at, item);
                return;
            }
            i = i + 1;
        }
        assert(!self@.contains(item));
    }
}

impl VecDequeExt<usize> for Vec<usize> {
    open spec fn items(&self) -> Seq<usize> {
        self@
    }

    fn shift_to_index(&mut self, target_index: usize, item: usize) {
        let mut i: usize = 0;
        let n = self.len();
        while i < n
            invariant
                n == self@.len(),
                self@ == old(self)@,
                i <= n,
                forall|k: int| 0 <= k < i ==> self@[k] != item,
            decreases n - i,
        {
            if self[i] == item {
                proof {
                    lemma_first_index(self@, item, i as int);
                    assert(self@.contains(item));
                }
                let _ = self.remove(i);
                let len = self.len();
                let at = if target_index < len {
                    target_index
                } else {
                    len
                };
                self.insert(at, item);
                return;
            }
            i = i + 1;
        }
        assert(!self@.contains(item));
    }
}

} // verus!

verus! {

/// Moving an element past the end puts it last; moving it to 0 puts it
/// first; neither changes the length. An element that is absent is not
/// inserted: the sequence stays as it is.
pub proof fn lemma_shift_laws<T>(s: Seq<T>, target: int, item: T)
    requires
        0 <= target,
    ensures
        s.contains(item) ==> shifted(s, target, item).len() == s.len(),
        s.contains(item) && target >= s.len() - 1 ==> shifted(s, target, item).last() == item,
        s.contains(item) ==> shifted(s, 0, item)[0] == item,
        !s.contains(item) ==> shifted(s, target, item) == s,
{
    if s.contains(item) {
        s.index_of_first_ensures(item);
        let j = s.index_of_first(item).unwrap();
        lemma_first_index(s, item, j);
    }
}

} // verus!
