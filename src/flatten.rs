use vstd::prelude::*;

use crate::error::WmError;
use crate::tree::{
    rescaled, tiling_size_of, same_handles, scaled_size, splice, ContainerKind, RootContainer,
    SIZE_SCALE,
};

verus! {

/// A copy of a sequence of handles.
pub fn copy_handles(v: &Vec<usize>) -> (r: Vec<usize>)
    ensures
        r@ == v@,
{
    let mut r: Vec<usize> = Vec::new();
    let mut i: usize = 0;
    while i < v.len()
        invariant
            i <= v.len(),
            r@ == v@.take(i as int),
        decreases v.len() - i,
    {
        r.push(v[i]);
        i = i + 1;
        assert(r@ =~= v@.take(i as int));
    }
    assert(v@.take(v.len() as int) =~= v@);
    r
}

/// The first position of `x` in `v`, if any.
pub fn position_of(v: &Vec<usize>, x: usize) -> (r: Option<usize>)
    ensures
        r matches Some(i) ==> i < v@.len() && v@[i as int] == x && forall|k: int|
            0 <= k < i ==> v@[k] != x,
        r is None ==> !v@.contains(x),
{
    let mut i: usize = 0;
    while i < v.len()
        invariant
            i <= v.len(),
            forall|k: int| 0 <= k < i ==> v@[k] != x,
        decreases v.len() - i,
    {
        if v[i] == x {
            return Some(i);
        }
        i = i + 1;
    }
    None
}

/// `v` with its element at `i` replaced by the elements of `mid`, in order.
pub fn splice_handles(v: &Vec<usize>, i: usize, mid: &Vec<usize>) -> (r: Vec<usize>)
    requires
        i < v@.len(),
    ensures
        r@ == splice(v@, i as int, mid@),
{
    let vlen = v.len();
    let mut r: Vec<usize> = Vec::new();
    let mut k: usize = 0;
    while k < i
        invariant
            k <= i < v@.len(),
            r@ == v@.take(k as int),
        decreases i - k,
    {
        r.push(v[k]);
        k = k + 1;
        assert(r@ =~= v@.take(k as int));
    }
    let mut m: usize = 0;
    while m < mid.len()
        invariant
            m <= mid@.len(),
            i < v@.len(),
            vlen == v@.len(),
            r@ == v@.take(i as int) + mid@.take(m as int),
        decreases mid.len() - m,
    {
        r.push(mid[m]);
        m = m + 1;
        assert(r@ =~= v@.take(i as int) + mid@.take(m as int));
    }
    assert(mid@.take(mid@.len() as int) =~= mid@);
    let mut k: usize = i + 1;
    while k < v.len()
        invariant
            i + 1 <= k <= v@.len(),
            r@ == v@.take(i as int) + mid@ + v@.subrange(i + 1, k as int),
        decreases v.len() - k,
    {
        r.push(v[k]);
        k = k + 1;
        assert(r@ =~= v@.take(i as int) + mid@ + v@.subrange(i + 1, k as int));
    }
    assert(v@.subrange(i + 1, v@.len() as int) =~= v@.skip(i + 1));
    r
}

/// The variant with its tiling size, if it has one, scaled by `by`.
pub fn rescale_kind(k: ContainerKind, by: u32) -> (r: ContainerKind)
    requires
        by as u64 <= SIZE_SCALE,
    ensures
        r == rescaled(k, by),
{
    match k {
        ContainerKind::Split { tiling_direction, tiling_size } => ContainerKind::Split {
            tiling_direction,
            tiling_size: scale_size(tiling_size, by),
        },
        ContainerKind::TilingWindow { tiling_size, native } => ContainerKind::TilingWindow {
            tiling_size: scale_size(tiling_size, by),
            native,
        },
        _ => k,
    }
}

fn scale_size(size: u32, by: u32) -> (r: u32)
    requires
        by as u64 <= SIZE_SCALE,
    ensures
        r == scaled_size(size, by),
        r <= size,
{
    assert(size as u64 * by as u64 <= size as u64 * SIZE_SCALE) by (nonlinear_arith)
        requires
            by as u64 <= SIZE_SCALE,
    ;
    assert(size as u64 * SIZE_SCALE <= 0xffff_ffff * SIZE_SCALE) by (nonlinear_arith);
    let p = size as u64 * by as u64;
    let q = p / SIZE_SCALE;
    assert(q <= size) by (nonlinear_arith)
        requires
            q == p / SIZE_SCALE,
            p <= size as u64 * SIZE_SCALE,
            SIZE_SCALE > 0,
    ;
    q as u32
}

/// Removes a split container and moves its children, in order, into its
/// parent at the split's place, both in spatial order and in focus order.
/// Each tiling child's size is multiplied by the split's size, so that it
/// keeps its share of the screen. The split ends detached: no parent, no
/// children. A split without a parent is a malformed tree, reported as an
/// error with the tree left as it was.
pub fn flatten_split_container(tree: &mut RootContainer, split: usize) -> (r: Result<(), WmError>)
    requires
        old(tree).wf(),
        old(tree).valid(split as int),
        old(tree).kind_of(split as int) is Split,
        old(tree).kind_of(split as int)->Split_tiling_size as u64 <= SIZE_SCALE,
    ensures
        old(tree).parent_of(split as int) is None ==> r == Err::<(), WmError>(
            WmError::TreeInvariantViolation,
        ) && *final(tree) == *old(tree),
        old(tree).parent_of(split as int) is Some ==> r is Ok && flattened(
            *old(tree),
            *final(tree),
            split as int,
        ) && final(tree).wf(),
{
    let p = match tree.nodes[split].parent {
        None => return Err(WmError::TreeInvariantViolation),
        Some(p) => p,
    };
    let ghost t0 = *tree;
    let size: u32 = match tree.nodes[split].kind {
        ContainerKind::Split { tiling_size, .. } => tiling_size,
        _ => 0,
    };
    proof {
        assert(t0.node_wf(split as int));
        assert(t0.valid(p as int));
        assert(t0.node_wf(p as int));
    }
    let mid = copy_handles(&tree.nodes[split].children);
    let fmid = copy_handles(&tree.nodes[split].child_focus_order);
    let i = match position_of(&tree.nodes[p].children, split) {
        Some(i) => i,
        None => return Err(WmError::TreeInvariantViolation),
    };
    assert(t0.focus_of(p as int).contains(split)) by {
        broadcast use vstd::seq_lib::group_to_multiset_ensures;
        assert(t0.children_of(p as int)[i as int] == split);
        assert(t0.children_of(p as int).contains(split));
        assert(t0.children_of(p as int).to_multiset().count(split) > 0);
        assert(t0.focus_of(p as int).to_multiset().count(split) > 0);
    }
    let j = match position_of(&tree.nodes[p].child_focus_order, split) {
        Some(j) => j,
        None => return Err(WmError::TreeInvariantViolation),
    };
    let new_children = splice_handles(&tree.nodes[p].children, i, &mid);
    let new_focus = splice_handles(&tree.nodes[p].child_focus_order, j, &fmid);
    // Reparent the children and rescale the tiling ones.
    let mut k: usize = 0;
    while k < mid.len()
        invariant
            t0.wf(),
            t0.node_wf(split as int),
            mid@ == t0.children_of(split as int),
            size == t0.kind_of(split as int)->Split_tiling_size,
            size as u64 <= SIZE_SCALE,
            k <= mid@.len(),
            tree.nodes.len() == t0.nodes.len(),
            forall|m: int|
                0 <= m < k ==> {
                    let c = #[trigger] mid@[m] as int;
                    &&& tree.parent_of(c) == Some(p)
                    &&& tree.kind_of(c) == rescaled(t0.kind_of(c), size)
                    &&& tree.nodes[c].children == t0.nodes[c].children
                    &&& tree.nodes[c].child_focus_order == t0.nodes[c].child_focus_order
                    &&& tree.nodes[c].done_rules == t0.nodes[c].done_rules
                },
            forall|h: int|
                0 <= h < tree.nodes.len() && !mid@.take(k as int).contains(h as usize) ==> #[trigger] tree.nodes[h] == t0.nodes[h],
            tree.id == t0.id,
        decreases mid.len() - k,
    {
        let c = mid[k];
        proof {
            t0.lemma_child_valid(split as int, k as int);
            assert(!mid@.take(k as int).contains(c)) by {
                if mid@.take(k as int).contains(c) {
                    let m = choose|m: int| 0 <= m < k && mid@.take(k as int)[m] == c;
                    assert(mid@[m] == mid@[k as int]);
                }
            }
        }
        let kind = rescale_kind(tree.nodes[c].kind, size);
        let ghost prev = *tree;
        tree.nodes[c].parent = Some(p);
        tree.nodes[c].kind = kind;
        k = k + 1;
        proof {
            assert(mid@.take(k as int) =~= mid@.take(k - 1).push(c));
            assert(mid@.take(k as int)[k - 1] == c);
            assert forall|h: int|
                0 <= h < tree.nodes.len() && !mid@.take(k as int).contains(h as usize) implies #[trigger] tree.nodes[h] == t0.nodes[h] by {
                assert(h != c);
                assert(tree.nodes[h] == prev.nodes[h]);
                if mid@.take(k - 1).contains(h as usize) {
                    let m = choose|m: int| 0 <= m < k - 1 && #[trigger] mid@.take(k - 1)[m] == h as usize;
                    assert(mid@.take(k as int)[m] == h as usize);
                }
            }
            assert forall|m: int| 0 <= m < k implies {
                    let c = #[trigger] mid@[m] as int;
                    &&& tree.parent_of(c) == Some(p)
                    &&& tree.kind_of(c) == rescaled(t0.kind_of(c), size)
                    &&& tree.nodes[c].children == t0.nodes[c].children
                    &&& tree.nodes[c].child_focus_order == t0.nodes[c].child_focus_order
                    &&& tree.nodes[c].done_rules == t0.nodes[c].done_rules
                } by {
                if m < k - 1 {
                    assert(mid@[m] != mid@[k - 1]);
                }
            }
        }
    }
    assert(mid@.take(mid@.len() as int) =~= mid@);
    proof {
        assert(!mid@.contains(p)) by {
            if mid@.contains(p) {
                let m = choose|m: int| 0 <= m < mid@.len() && mid@[m] == p;
                t0.lemma_child_valid(split as int, m);
            }
        }
        assert(!mid@.contains(split)) by {
            if mid@.contains(split) {
                let m = choose|m: int| 0 <= m < mid@.len() && mid@[m] == split;
                t0.lemma_child_valid(split as int, m);
            }
        }
    }
    tree.nodes[p].children = new_children;
    tree.nodes[p].child_focus_order = new_focus;
    tree.nodes[split].parent = None;
    tree.nodes[split].children = Vec::new();
    tree.nodes[split].child_focus_order = Vec::new();
    proof {
        assert(tree.children_of(split as int) =~= Seq::<usize>::empty());
        assert(tree.focus_of(split as int) =~= Seq::<usize>::empty());
        lemma_flattened_wf(t0, *tree, split as int);
    }
    Ok(())
}

/// `after` is `before` with the split at `s` flattened into its parent.
pub open spec fn flattened(before: RootContainer, after: RootContainer, s: int) -> bool {
    let p = before.parent_of(s).unwrap() as int;
    let mid = before.children_of(s);
    let size = before.kind_of(s)->Split_tiling_size;
    &&& after.nodes.len() == before.nodes.len()
    &&& after.id == before.id
    &&& exists|i: int|
        0 <= i < before.children_of(p).len() && before.children_of(p)[i] == s
            && after.children_of(p) == splice(before.children_of(p), i, mid)
    &&& exists|j: int|
        0 <= j < before.focus_of(p).len() && before.focus_of(p)[j] == s
            && after.focus_of(p) == splice(before.focus_of(p), j, before.focus_of(s))
    &&& after.kind_of(p) == before.kind_of(p)
    &&& after.parent_of(p) == before.parent_of(p)
    &&& after.nodes[p].done_rules == before.nodes[p].done_rules
    &&& after.kind_of(s) == before.kind_of(s)
    &&& after.parent_of(s) is None
    &&& after.children_of(s).len() == 0
    &&& after.focus_of(s).len() == 0
    &&& after.nodes[s].done_rules == before.nodes[s].done_rules
    &&& forall|m: int|
        0 <= m < mid.len() ==> {
            let c = #[trigger] mid[m] as int;
            &&& after.parent_of(c) == Some(p as usize)
            &&& after.kind_of(c) == rescaled(before.kind_of(c), size)
            &&& after.nodes[c].children == before.nodes[c].children
            &&& after.nodes[c].child_focus_order == before.nodes[c].child_focus_order
            &&& after.nodes[c].done_rules == before.nodes[c].done_rules
        }
    &&& forall|h: int|
        0 <= h < before.nodes.len() && h != p && h != s && !mid.contains(h as usize)
            ==> #[trigger] after.nodes[h] == before.nodes[h]
}

} // verus!

verus! {

/// Replacing one element of a sequence by a run of elements takes that
/// element out of its multiset and adds the run's.
pub proof fn lemma_splice_multiset(v: Seq<usize>, i: int, mid: Seq<usize>)
    requires
        0 <= i < v.len(),
    ensures
        splice(v, i, mid).to_multiset() =~= v.to_multiset().remove(v[i]).add(mid.to_multiset()),
        splice(v, i, mid).len() == v.len() - 1 + mid.len(),
{
    broadcast use vstd::seq_lib::group_to_multiset_ensures;

    let a = v.take(i);
    let b = v.skip(i + 1);
    vstd::seq_lib::lemma_multiset_commutative(a + mid, b);
    vstd::seq_lib::lemma_multiset_commutative(a, mid);
    vstd::seq_lib::lemma_multiset_commutative(a, b);
    assert(v.remove(i) =~= a + b);
    assert(v.remove(i).to_multiset() =~= v.to_multiset().remove(v[i]));
}

/// Flattening a split with N children into its parent leaves the parent
/// with N - 1 more children, its focus order still a permutation of its
/// children; each moved child now has the parent as parent and its tiling
/// size multiplied by the split's; the split has neither parent nor children.
pub proof fn lemma_flatten_laws(before: RootContainer, after: RootContainer, s: int)
    requires
        before.wf(),
        before.valid(s),
        before.parent_of(s) is Some,
        flattened(before, after, s),
    ensures
        ({
            let p = before.parent_of(s).unwrap() as int;
            let mid = before.children_of(s);
            let size = before.kind_of(s)->Split_tiling_size;
            &&& after.children_of(p).len() == before.children_of(p).len() + mid.len() - 1
            &&& same_handles(after.focus_of(p), after.children_of(p))
            &&& forall|m: int|
                0 <= m < mid.len() ==> {
                    let c = #[trigger] mid[m] as int;
                    &&& after.parent_of(c) == Some(p as usize)
                    &&& tiling_size_of(before.kind_of(c)) matches Some(t) ==> tiling_size_of(
                        after.kind_of(c),
                    ) == Some(scaled_size(t, size))
                }
            &&& after.parent_of(s) is None
            &&& after.children_of(s).len() == 0
        }),
{
    let p = before.parent_of(s).unwrap() as int;
    assert(before.node_wf(s));
    assert(before.valid(p));
    assert(before.node_wf(p));
    let i = choose|i: int|
        0 <= i < before.children_of(p).len() && before.children_of(p)[i] == s
            && after.children_of(p) == splice(before.children_of(p), i, before.children_of(s));
    let j = choose|j: int|
        0 <= j < before.focus_of(p).len() && before.focus_of(p)[j] == s
            && after.focus_of(p) == splice(before.focus_of(p), j, before.focus_of(s));
    lemma_splice_multiset(before.children_of(p), i, before.children_of(s));
    lemma_splice_multiset(before.focus_of(p), j, before.focus_of(s));
}

} // verus!

verus! {

/// Flattening keeps the tree well formed.
#[verifier::rlimit(80)]
pub proof fn lemma_flattened_wf(before: RootContainer, after: RootContainer, s: int)
    requires
        before.wf(),
        before.valid(s),
        before.kind_of(s) is Split,
        before.parent_of(s) is Some,
        flattened(before, after, s),
    ensures
        after.wf(),
{
    let p = before.parent_of(s).unwrap() as int;
    let mid = before.children_of(s);
    assert(before.node_wf(s));
    assert(before.valid(p));
    assert(before.node_wf(p));
    lemma_flatten_laws(before, after, s);
    let i = choose|i: int|
        0 <= i < before.children_of(p).len() && before.children_of(p)[i] == s
            && after.children_of(p) == splice(before.children_of(p), i, mid);
    let old_ch = before.children_of(p);
    let new_ch = after.children_of(p);
    assert(new_ch.len() == old_ch.len() - 1 + mid.len());
    // Where each handle of the new child list comes from.
    assert forall|k: int| 0 <= k < new_ch.len() implies {
        &&& k < i ==> new_ch[k] == old_ch[k]
        &&& i <= k < i + mid.len() ==> new_ch[k] == mid[k - i]
        &&& i + mid.len() <= k ==> new_ch[k] == old_ch[k - mid.len() + 1]
    } by {}
    assert forall|m: int| 0 <= m < mid.len() implies before.valid(#[trigger] mid[m] as int)
        && before.parent_of(mid[m] as int) == Some(s as usize) && mid[m] > s by {
        before.lemma_child_valid(s, m);
        assert(before.node_wf(mid[m] as int));
    }
    assert forall|k: int| 0 <= k < old_ch.len() implies before.valid(#[trigger] old_ch[k] as int)
        && before.parent_of(old_ch[k] as int) == Some(p as usize) && old_ch[k] > p by {
        before.lemma_child_valid(p, k);
        assert(before.node_wf(old_ch[k] as int));
    }
    // Handles outside the split's children and other than `p` and `s` keep their node.
    assert forall|x: int|
        0 <= x < before.nodes.len() && before.parent_of(x) != Some(s as usize) && x != p && x != s
            implies #[trigger] after.nodes[x] == before.nodes[x] by {
        if mid.contains(x as usize) {
            let m = choose|m: int| 0 <= m < mid.len() && mid[m] == x as usize;
        }
    }
    assert(after.kind_of(0) == before.kind_of(0) && after.parent_of(0) == before.parent_of(0)) by {
        if 0 != p {
            assert(before.parent_of(0) != Some(s as usize));
            assert(after.nodes[0] == before.nodes[0]);
        }
    }
    assert forall|h: int| #[trigger] after.valid(h) implies after.node_wf(h) by {
        assert(before.valid(h));
        assert(before.node_wf(h));
        if h == s {
            assert(after.children_of(s).no_duplicates());
            assert(after.focus_of(s) =~= after.children_of(s));
        } else if h == p {
            if let Some(q) = after.parent_of(p) {
                assert(before.valid(q as int));
                assert(before.node_wf(q as int));
                assert(before.parent_of(q as int) != Some(s as usize));
                assert(after.nodes[q as int] == before.nodes[q as int]);
            }
            assert forall|k: int| 0 <= k < new_ch.len() implies after.valid(#[trigger] new_ch[k] as int)
                && after.parent_of(new_ch[k] as int) == Some(h as usize) by {
                if k < i {
                    assert(old_ch[k] != s) by {
                        assert(old_ch.no_duplicates());
                    }
                    assert(after.nodes[old_ch[k] as int] == before.nodes[old_ch[k] as int]);
                } else if k < i + mid.len() {
                    assert(new_ch[k] == mid[k - i]);
                } else {
                    let k2 = k - mid.len() + 1;
                    assert(old_ch[k2] != s) by {
                        assert(old_ch.no_duplicates());
                    }
                    assert(after.nodes[old_ch[k2] as int] == before.nodes[old_ch[k2] as int]);
                }
            }
            assert forall|a: int, b: int| 0 <= a < b < new_ch.len() implies new_ch[a] != new_ch[b] by {
                let pa = after.parent_of(new_ch[a] as int);
                if a < i || a >= i + mid.len() {
                    if i <= b < i + mid.len() {
                        let ka = if a < i { a } else { a - mid.len() + 1 };
                        assert(before.parent_of(new_ch[a] as int) == Some(p as usize));
                        assert(before.parent_of(new_ch[b] as int) == Some(s as usize));
                    } else {
                        assert(old_ch.no_duplicates());
                    }
                } else {
                    if i <= b < i + mid.len() {
                        assert(mid.no_duplicates());
                    } else {
                        assert(before.parent_of(new_ch[a] as int) == Some(s as usize));
                        assert(before.parent_of(new_ch[b] as int) == Some(p as usize));
                    }
                }
            }
        } else if before.parent_of(h) == Some(s as usize) {
            // One of the split's children.
            assert(mid.contains(h as usize));
            let m = choose|m: int| 0 <= m < mid.len() && mid[m] == h as usize;
            assert(new_ch[i + m] == h as usize);
            assert forall|k: int| 0 <= k < after.children_of(h).len() implies after.valid(
                #[trigger] after.children_of(h)[k] as int,
            ) && after.parent_of(after.children_of(h)[k] as int) == Some(h as usize) by {
                let y = before.children_of(h)[k] as int;
                before.lemma_child_valid(h, k);
                assert(before.node_wf(y));
                assert(after.nodes[y] == before.nodes[y]);
            }
        } else {
            assert(after.nodes[h] == before.nodes[h]);
            if let Some(q) = before.parent_of(h) {
                if q == p {
                    let k = choose|k: int| 0 <= k < old_ch.len() && old_ch[k] == h as usize;
                    if k < i {
                        assert(new_ch[k] == h as usize);
                    } else {
                        assert(k != i);
                        assert(new_ch[k + mid.len() - 1] == h as usize);
                    }
                } else if before.parent_of(q as int) == Some(s as usize) {
                    assert(before.valid(q as int));
                    assert(before.node_wf(q as int));
                    assert(mid.contains(q));
                    let m = choose|m: int| 0 <= m < mid.len() && mid[m] == q;
                    assert(after.nodes[q as int].children == before.nodes[q as int].children);
                } else {
                    assert(q != s);
                    assert(after.nodes[q as int] == before.nodes[q as int]);
                }
            }
            assert forall|k: int| 0 <= k < after.children_of(h).len() implies after.valid(
                #[trigger] after.children_of(h)[k] as int,
            ) && after.parent_of(after.children_of(h)[k] as int) == Some(h as usize) by {
                let y = before.children_of(h)[k] as int;
                before.lemma_child_valid(h, k);
                if y != p {
                    assert(y != s);
                    assert(after.nodes[y] == before.nodes[y]);
                }
            }
        }
    }
}

} // verus!
