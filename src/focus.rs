use vstd::prelude::*;

use crate::error::WmError;
use crate::flatten::{position_of, splice_handles};
use crate::pending_sync::PendingSync;
use crate::tree::{
    axis_of, direction_of, inverse_of, is_floating, is_tiling, same_handles, splice,
    ContainerKind, Direction, RootContainer, TilingDirection, WindowState,
};
use crate::vec_ext::{first_index, lemma_first_index, shifted, VecDequeExt};

verus! {

/// A capability that a search looks for in a container.
#[derive(Debug, Clone, Copy, PartialEq, Eq, Structural)]
pub enum Capability {
    /// A split or a tiling window.
    Tiling,
    /// A floating window.
    Floating,
}

pub open spec fn has_cap(k: ContainerKind, cap: Capability) -> bool {
    match cap {
        Capability::Tiling => is_tiling(k),
        Capability::Floating => is_floating(k),
    }
}

fn has_cap_exec(k: &ContainerKind, cap: Capability) -> (r: bool)
    ensures
        r == has_cap(*k, cap),
{
    match cap {
        Capability::Tiling => matches!(k, ContainerKind::Split { .. } | ContainerKind::TilingWindow { .. }),
        Capability::Floating => matches!(k, ContainerKind::NonTilingWindow { state: WindowState::Floating, .. }),
    }
}

/// The first container of `s` with the capability.
pub open spec fn first_with(t: RootContainer, s: Seq<usize>, cap: Capability) -> Option<usize>
    decreases s.len(),
{
    if s.len() == 0 {
        None
    } else if has_cap(t.kind_of(s[0] as int), cap) {
        Some(s[0])
    } else {
        first_with(t, s.drop_first(), cap)
    }
}

/// The last container of `s` with the capability.
pub open spec fn last_with(t: RootContainer, s: Seq<usize>, cap: Capability) -> Option<usize>
    decreases s.len(),
{
    if s.len() == 0 {
        None
    } else if has_cap(t.kind_of(s.last() as int), cap) {
        Some(s.last())
    } else {
        last_with(t, s.drop_last(), cap)
    }
}

/// The tiling child of `h` nearest to `d`: across the axis, the first tiling
/// child in focus order; along it, the first (Up, Left) or last (Down, Right)
/// tiling child.
pub open spec fn child_in_direction(t: RootContainer, h: int, d: Direction) -> Option<usize> {
    if direction_of(t.kind_of(h)) != Some(axis_of(d)) {
        first_with(t, t.focus_of(h), Capability::Tiling)
    } else if d == Direction::Up || d == Direction::Left {
        first_with(t, t.children_of(h), Capability::Tiling)
    } else {
        last_with(t, t.children_of(h), Capability::Tiling)
    }
}

/// The deepest tiling descendant of `h` furthest toward `d`: it goes down
/// through splits and stops at the first tiling window.
pub open spec fn descendant_in_direction(t: RootContainer, h: int, d: Direction) -> Option<usize>
    decreases t.nodes.len() - h,
{
    match child_in_direction(t, h, d) {
        Some(c) => if t.kind_of(c as int) is Split && h < c < t.nodes.len() {
            descendant_in_direction(t, c as int, d)
        } else {
            Some(c)
        },
        None => None,
    }
}

/// The sibling of `h` under `p` that focus moves to toward `d`: the nearest
/// tiling container before `h` (Up, Left) or after it (Down, Right).
pub open spec fn tiling_sibling(t: RootContainer, p: int, h: int, d: Direction) -> Option<usize> {
    let ch = t.children_of(p);
    let i = first_index(ch, h as usize);
    if d == Direction::Up || d == Direction::Left {
        last_with(t, ch.take(i), Capability::Tiling)
    } else {
        first_with(t, ch.skip(i + 1), Capability::Tiling)
    }
}

/// Focus target inside the workspace, walking up from `h`: at each ancestor
/// on the axis of `d`, the nearest tiling sibling toward `d`; a split found
/// there is entered from the side facing the origin. A parent that is not
/// direction-aware is a malformed tree.
pub open spec fn tiling_target(t: RootContainer, h: int, d: Direction) -> Result<
    Option<usize>,
    WmError,
>
    decreases h,
{
    if t.kind_of(h) is Workspace {
        Ok(None)
    } else {
        match t.parent_of(h) {
            None => Err(WmError::TreeInvariantViolation),
            Some(p) => if direction_of(t.kind_of(p as int)) is None || p >= h || h < 0 {
                Err(WmError::TreeInvariantViolation)
            } else if direction_of(t.kind_of(p as int)) != Some(axis_of(d)) {
                tiling_target(t, p as int, d)
            } else {
                match tiling_sibling(t, p as int, h, d) {
                    Some(s) => if t.kind_of(s as int) is TilingWindow {
                        Ok(Some(s))
                    } else {
                        Ok(descendant_in_direction(t, s as int, inverse_of(d)))
                    },
                    None => tiling_target(t, p as int, d),
                }
            },
        }
    }
}

/// Focus target among floating siblings: the nearest floating sibling after
/// `h` (Right) or before it (Left), else wrapping to the last (Right) or first
/// (Left) floating sibling. Vertical directions give none.
pub open spec fn floating_target(t: RootContainer, h: int, d: Direction) -> Option<usize> {
    match t.parent_of(h) {
        None => None,
        Some(p) => {
            let ch = t.children_of(p as int);
            let i = first_index(ch, h as usize);
            let siblings = splice(ch, i, Seq::empty());
            match d {
                Direction::Right => match first_with(t, ch.skip(i + 1), Capability::Floating) {
                    Some(s) => Some(s),
                    None => last_with(t, siblings, Capability::Floating),
                },
                Direction::Left => match last_with(t, ch.take(i), Capability::Floating) {
                    Some(s) => Some(s),
                    None => first_with(t, siblings, Capability::Floating),
                },
                _ => None,
            }
        },
    }
}

/// The monitor that holds `h`, if any.
pub open spec fn monitor_of(t: RootContainer, h: int) -> Option<usize>
    decreases h,
{
    if t.kind_of(h) is Monitor {
        Some(h as usize)
    } else {
        match t.parent_of(h) {
            Some(p) => if 0 <= p < h {
                monitor_of(t, p as int)
            } else {
                None
            },
            None => None,
        }
    }
}

/// The workspace that monitor `m` displays: the front of its focus order,
/// when that is a workspace.
pub open spec fn displayed_workspace(t: RootContainer, m: int) -> Option<usize> {
    if t.focus_of(m).len() > 0 && t.kind_of(t.focus_of(m)[0] as int) is Workspace {
        Some(t.focus_of(m)[0])
    } else {
        None
    }
}

/// Focus target on the workspace that `neighbor` displays (`neighbor` is the
/// monitor in direction `d` of the origin's monitor, if there is one): its
/// front container when that is a fullscreen window, else its descendant
/// facing the origin, else the workspace itself. An origin outside any
/// monitor is a malformed tree.
pub open spec fn workspace_target(
    t: RootContainer,
    h: int,
    d: Direction,
    neighbor: Option<usize>,
) -> Result<Option<usize>, WmError> {
    if monitor_of(t, h) is None {
        Err(WmError::TreeInvariantViolation)
    } else {
        match neighbor {
            None => Ok(None),
            Some(m) => match displayed_workspace(t, m as int) {
                None => Ok(None),
                Some(w) => if t.focus_of(w as int).len() > 0 && t.kind_of(
                    t.focus_of(w as int)[0] as int,
                ) matches ContainerKind::NonTilingWindow { state: WindowState::Fullscreen, .. } {
                    Ok(Some(t.focus_of(w as int)[0]))
                } else {
                    match descendant_in_direction(t, w as int, inverse_of(d)) {
                        Some(x) => Ok(Some(x)),
                        None => Ok(Some(w)),
                    }
                },
            },
        }
    }
}

/// Where focus moves from `h` toward `d`, dispatched on the origin's variant.
pub open spec fn focus_target(
    t: RootContainer,
    h: int,
    d: Direction,
    neighbor: Option<usize>,
) -> Result<Option<usize>, WmError> {
    match t.kind_of(h) {
        ContainerKind::TilingWindow { .. } => match tiling_target(t, h, d) {
            Ok(Some(x)) => Ok(Some(x)),
            Ok(None) => workspace_target(t, h, d, neighbor),
            Err(e) => Err(e),
        },
        ContainerKind::NonTilingWindow { state: WindowState::Floating, .. } => Ok(
            floating_target(t, h, d),
        ),
        ContainerKind::NonTilingWindow { state: WindowState::Fullscreen, .. } => workspace_target(
            t,
            h,
            d,
            neighbor,
        ),
        ContainerKind::Workspace { .. } => workspace_target(t, h, d, neighbor),
        _ => Ok(None),
    }
}

/// Handles listed in `v` are in the arena and children of `h`.
pub open spec fn children_in(t: RootContainer, v: Seq<usize>, h: int) -> bool {
    forall|k: int|
        0 <= k < v.len() ==> t.valid(#[trigger] v[k] as int) && t.parent_of(v[k] as int) == Some(
            h as usize,
        )
}

fn first_with_from(tree: &RootContainer, v: &Vec<usize>, from: usize, cap: Capability) -> (r:
    Option<usize>)
    requires
        forall|k: int| 0 <= k < v@.len() ==> tree.valid(#[trigger] v@[k] as int),
        from <= v@.len(),
    ensures
        r == first_with(*tree, v@.skip(from as int), cap),
        r matches Some(c) ==> v@.contains(c),
{
    let mut i = from;
    while i < v.len()
        invariant
            from <= i <= v@.len(),
            forall|k: int| 0 <= k < v@.len() ==> tree.valid(#[trigger] v@[k] as int),
            first_with(*tree, v@.skip(from as int), cap) == first_with(*tree, v@.skip(i as int), cap),
        decreases v.len() - i,
    {
        assert(v@.skip(i as int).drop_first() =~= v@.skip(i + 1));
        assert(v@.skip(i as int)[0] == v@[i as int]);
        if has_cap_exec(&tree.nodes[v[i]].kind, cap) {
            return Some(v[i]);
        }
        i = i + 1;
    }
    None
}

fn last_with_upto(tree: &RootContainer, v: &Vec<usize>, upto: usize, cap: Capability) -> (r:
    Option<usize>)
    requires
        forall|k: int| 0 <= k < v@.len() ==> tree.valid(#[trigger] v@[k] as int),
        upto <= v@.len(),
    ensures
        r == last_with(*tree, v@.take(upto as int), cap),
        r matches Some(c) ==> v@.contains(c),
{
    let mut i = upto;
    while i > 0
        invariant
            i <= upto <= v@.len(),
            forall|k: int| 0 <= k < v@.len() ==> tree.valid(#[trigger] v@[k] as int),
            last_with(*tree, v@.take(upto as int), cap) == last_with(*tree, v@.take(i as int), cap),
        decreases i,
    {
        assert(v@.take(i as int).drop_last() =~= v@.take(i - 1));
        assert(v@.take(i as int).last() == v@[i - 1]);
        if has_cap_exec(&tree.nodes[v[i - 1]].kind, cap) {
            return Some(v[i - 1]);
        }
        i = i - 1;
    }
    None
}

fn direction_of_exec(k: &ContainerKind) -> (r: Option<TilingDirection>)
    ensures
        r == direction_of(*k),
{
    match k {
        ContainerKind::Workspace { tiling_direction } => Some(*tiling_direction),
        ContainerKind::Split { tiling_direction, .. } => Some(*tiling_direction),
        _ => None,
    }
}

impl RootContainer {
    /// Children and focus order of `h` hold handles of its children.
    pub proof fn lemma_lists(&self, h: int)
        requires
            self.wf(),
            self.valid(h),
        ensures
            children_in(*self, self.children_of(h), h),
            children_in(*self, self.focus_of(h), h),
    {
        assert forall|k: int| 0 <= k < self.children_of(h).len() implies self.valid(
            #[trigger] self.children_of(h)[k] as int,
        ) && self.parent_of(self.children_of(h)[k] as int) == Some(h as usize) by {
            self.lemma_child_valid(h, k);
        }
        assert forall|k: int| 0 <= k < self.focus_of(h).len() implies self.valid(
            #[trigger] self.focus_of(h)[k] as int,
        ) && self.parent_of(self.focus_of(h)[k] as int) == Some(h as usize) by {
            self.lemma_focus_valid(h, k);
        }
    }

    /// The tiling child of `h` nearest to `direction`.
    pub fn child_in_direction(&self, h: usize, direction: &Direction) -> (r: Option<usize>)
        requires
            self.wf(),
            self.valid(h as int),
        ensures
            r == child_in_direction(*self, h as int, *direction),
            r matches Some(c) ==> self.valid(c as int) && self.parent_of(c as int) == Some(h),
    {
        proof {
            self.lemma_lists(h as int);
        }
        let axis = TilingDirection::from_direction(direction);
        let node = &self.nodes[h];
        assert(node.children@.skip(0) =~= node.children@);
        assert(node.child_focus_order@.skip(0) =~= node.child_focus_order@);
        assert(node.children@.take(node.children@.len() as int) =~= node.children@);
        let on_axis = match direction_of_exec(&node.kind) {
            Some(TilingDirection::Horizontal) => matches!(axis, TilingDirection::Horizontal),
            Some(TilingDirection::Vertical) => matches!(axis, TilingDirection::Vertical),
            None => false,
        };
        if !on_axis {
            first_with_from(self, &node.child_focus_order, 0, Capability::Tiling)
        } else if matches!(direction, Direction::Up | Direction::Left) {
            first_with_from(self, &node.children, 0, Capability::Tiling)
        } else {
            last_with_upto(self, &node.children, node.children.len(), Capability::Tiling)
        }
    }

    /// The deepest tiling descendant of `h` furthest toward `direction`.
    pub fn descendant_in_direction(&self, h: usize, direction: &Direction) -> (r: Option<usize>)
        requires
            self.wf(),
            self.valid(h as int),
        ensures
            r == descendant_in_direction(*self, h as int, *direction),
            r matches Some(c) ==> self.valid(c as int),
    {
        let mut cur = h;
        loop
            invariant
                self.wf(),
                self.valid(cur as int),
                descendant_in_direction(*self, h as int, *direction) == descendant_in_direction(
                    *self,
                    cur as int,
                    *direction,
                ),
            decreases self.nodes.len() - cur,
        {
            match self.child_in_direction(cur, direction) {
                None => return None,
                Some(c) => {
                    proof {
                        assert(self.node_wf(c as int));
                    }
                    if matches!(self.nodes[c].kind, ContainerKind::Split { .. }) {
                        cur = c;
                    } else {
                        return Some(c);
                    }
                },
            }
        }
    }
}

fn same_axis(a: TilingDirection, b: TilingDirection) -> (r: bool)
    ensures
        r == (a == b),
{
    match a {
        TilingDirection::Horizontal => matches!(b, TilingDirection::Horizontal),
        TilingDirection::Vertical => matches!(b, TilingDirection::Vertical),
    }
}

fn is_up_or_left(d: &Direction) -> (r: bool)
    ensures
        r == (*d == Direction::Up || *d == Direction::Left),
{
    matches!(d, Direction::Up | Direction::Left)
}

/// The position of `h` among its parent's children.
fn index_in_parent(tree: &RootContainer, p: usize, h: usize) -> (r: usize)
    requires
        tree.wf(),
        tree.valid(h as int),
        tree.parent_of(h as int) == Some(p),
    ensures
        tree.valid(p as int),
        r < tree.children_of(p as int).len(),
        r == first_index(tree.children_of(p as int), h),
        tree.children_of(p as int)[r as int] == h,
{
    proof {
        assert(tree.node_wf(h as int));
        assert(tree.valid(p as int));
    }
    match position_of(&tree.nodes[p].children, h) {
        Some(i) => {
            proof {
                lemma_first_index(tree.children_of(p as int), h, i as int);
            }
            i
        },
        None => {
            assert(false);
            0
        },
    }
}

/// Focus target inside the origin's workspace (see `tiling_target`).
pub fn tiling_focus_target(tree: &RootContainer, origin: usize, direction: &Direction) -> (r:
    Result<Option<usize>, WmError>)
    requires
        tree.wf(),
        tree.valid(origin as int),
    ensures
        r == tiling_target(*tree, origin as int, *direction),
        r matches Ok(Some(c)) ==> tree.valid(c as int),
{
    let axis = TilingDirection::from_direction(direction);
    let mut cur = origin;
    while !matches!(tree.nodes[cur].kind, ContainerKind::Workspace { .. })
        invariant
            tree.wf(),
            tree.valid(cur as int),
            axis == axis_of(*direction),
            tiling_target(*tree, origin as int, *direction) == tiling_target(
                *tree,
                cur as int,
                *direction,
            ),
        decreases cur,
    {
        proof {
            assert(tree.node_wf(cur as int));
        }
        let p = match tree.nodes[cur].parent {
            None => return Err(WmError::TreeInvariantViolation),
            Some(p) => p,
        };
        let parent_axis = match direction_of_exec(&tree.nodes[p].kind) {
            None => return Err(WmError::TreeInvariantViolation),
            Some(a) => a,
        };
        if same_axis(parent_axis, axis) {
            let i = index_in_parent(tree, p, cur);
            proof {
                tree.lemma_lists(p as int);
            }
            let ch = &tree.nodes[p].children;
            let _n = ch.len();
            let sibling = if is_up_or_left(direction) {
                last_with_upto(tree, ch, i, Capability::Tiling)
            } else {
                first_with_from(tree, ch, i + 1, Capability::Tiling)
            };
            match sibling {
                Some(s) => {
                    if matches!(tree.nodes[s].kind, ContainerKind::TilingWindow { .. }) {
                        return Ok(Some(s));
                    } else {
                        return Ok(tree.descendant_in_direction(s, &direction.inverse()));
                    }
                },
                None => {
                    cur = p;
                },
            }
        } else {
            cur = p;
        }
    }
    Ok(None)
}

/// Focus target among the origin's floating siblings (see `floating_target`).
pub fn floating_focus_target(tree: &RootContainer, origin: usize, direction: &Direction) -> (r:
    Option<usize>)
    requires
        tree.wf(),
        tree.valid(origin as int),
    ensures
        r == floating_target(*tree, origin as int, *direction),
        r matches Some(c) ==> tree.valid(c as int),
{
    let p = match tree.nodes[origin].parent {
        None => return None,
        Some(p) => p,
    };
    let i = index_in_parent(tree, p, origin);
    proof {
        tree.lemma_lists(p as int);
    }
    let ch = &tree.nodes[p].children;
    let _n = ch.len();
    let empty: Vec<usize> = Vec::new();
    let siblings = splice_handles(ch, i, &empty);
    assert(empty@ =~= Seq::<usize>::empty());
    assert(siblings@.skip(0) =~= siblings@);
    assert(siblings@.take(siblings@.len() as int) =~= siblings@);
    assert forall|k: int| 0 <= k < siblings@.len() implies tree.valid(#[trigger] siblings@[k] as int) by {
        if k < i {
            assert(siblings@[k] == ch@[k]);
        } else {
            assert(siblings@[k] == ch@[k + 1]);
        }
    }
    match direction {
        Direction::Right => match first_with_from(tree, ch, i + 1, Capability::Floating) {
            Some(s) => Some(s),
            None => last_with_upto(tree, &siblings, siblings.len(), Capability::Floating),
        },
        Direction::Left => match last_with_upto(tree, ch, i, Capability::Floating) {
            Some(s) => Some(s),
            None => first_with_from(tree, &siblings, 0, Capability::Floating),
        },
        _ => None,
    }
}

/// The monitor that holds `h` (see `monitor_of`).
pub fn monitor_of_container(tree: &RootContainer, h: usize) -> (r: Option<usize>)
    requires
        tree.wf(),
        tree.valid(h as int),
    ensures
        r == monitor_of(*tree, h as int),
{
    let mut cur = h;
    loop
        invariant
            tree.wf(),
            tree.valid(cur as int),
            monitor_of(*tree, h as int) == monitor_of(*tree, cur as int),
        decreases cur,
    {
        if matches!(tree.nodes[cur].kind, ContainerKind::Monitor) {
            return Some(cur);
        }
        proof {
            assert(tree.node_wf(cur as int));
        }
        match tree.nodes[cur].parent {
            None => return None,
            Some(p) => {
                cur = p;
            },
        }
    }
}

/// Focus target on the workspace displayed by `neighbor`, the monitor that
/// lies toward `direction` from the origin's monitor, as the caller found it
/// from the monitors' geometry (see `workspace_target`).
pub fn workspace_focus_target(
    tree: &RootContainer,
    origin: usize,
    direction: &Direction,
    neighbor: Option<usize>,
) -> (r: Result<Option<usize>, WmError>)
    requires
        tree.wf(),
        tree.valid(origin as int),
        neighbor matches Some(m) ==> tree.valid(m as int),
    ensures
        r == workspace_target(*tree, origin as int, *direction, neighbor),
        r matches Ok(Some(c)) ==> tree.valid(c as int),
{
    if monitor_of_container(tree, origin).is_none() {
        return Err(WmError::TreeInvariantViolation);
    }
    let m = match neighbor {
        None => return Ok(None),
        Some(m) => m,
    };
    proof {
        tree.lemma_lists(m as int);
    }
    let mfocus = &tree.nodes[m].child_focus_order;
    if mfocus.len() == 0 || !matches!(tree.nodes[mfocus[0]].kind, ContainerKind::Workspace { .. }) {
        return Ok(None);
    }
    let w = mfocus[0];
    proof {
        tree.lemma_lists(w as int);
    }
    let wfocus = &tree.nodes[w].child_focus_order;
    if wfocus.len() > 0 && matches!(
        tree.nodes[wfocus[0]].kind,
        ContainerKind::NonTilingWindow { state: WindowState::Fullscreen, .. }
    ) {
        return Ok(Some(wfocus[0]));
    }
    match tree.descendant_in_direction(w, &direction.inverse()) {
        Some(x) => Ok(Some(x)),
        None => Ok(Some(w)),
    }
}

/// Every link from `h` up to its ancestor `top` is at the front of the
/// parent's focus order.
pub open spec fn front_between(t: RootContainer, h: int, top: int) -> bool
    decreases h,
{
    if h == top {
        true
    } else {
        match t.parent_of(h) {
            Some(p) => if 0 <= p < h {
                t.focus_of(p as int).len() > 0 && t.focus_of(p as int)[0] == h as usize
                    && front_between(t, p as int, top)
            } else {
                false
            },
            None => false,
        }
    }
}

/// The topmost ancestor of `h`: the root, or the top of a detached subtree.
pub open spec fn top_of(t: RootContainer, h: int) -> int
    decreases h,
{
    match t.parent_of(h) {
        Some(p) => if 0 <= p < h {
            top_of(t, p as int)
        } else {
            h
        },
        None => h,
    }
}

/// Two trees with the same structure, whose focus orders agree at `top` and
/// above, agree on the chain from `h` up to `top`.
proof fn lemma_front_frame(t1: RootContainer, t2: RootContainer, h: int, top: int)
    requires
        front_between(t1, h, top),
        0 <= h < t1.nodes.len(),
        forall|x: int| 0 <= x < t1.nodes.len() ==> #[trigger] t2.parent_of(x) == t1.parent_of(x),
        forall|x: int|
            0 <= x < t1.nodes.len() && x >= top ==> #[trigger] t2.focus_of(x) == t1.focus_of(x),
    ensures
        front_between(t2, h, top),
        h >= top,
    decreases h,
{
    if h != top {
        let p = t1.parent_of(h).unwrap() as int;
        lemma_front_frame(t1, t2, p, top);
    }
}

/// A chain that reaches `top` extends by one link where `top` leads in its
/// parent's focus order.
proof fn lemma_front_extend(t: RootContainer, h: int, top: usize, p: usize)
    requires
        front_between(t, h, top as int),
        t.parent_of(top as int) == Some(p),
        p < top,
        t.focus_of(p as int).len() > 0,
        t.focus_of(p as int)[0] == top,
    ensures
        front_between(t, h, p as int),
        h >= top,
    decreases h,
{
    assert(front_between(t, p as int, p as int));
    if h == top {
        assert(front_between(t, top as int, p as int));
    } else {
        let q = t.parent_of(h).unwrap() as int;
        assert(0 <= q < h);
        assert(front_between(t, q, top as int));
        lemma_front_extend(t, q, top, p);
        assert(front_between(t, h, p as int));
    }
}

/// A tree with the same variants, parents and children as a well-formed one,
/// and each focus order a permutation of the old one, is well formed.
proof fn lemma_same_shape_wf(t1: RootContainer, t2: RootContainer)
    requires
        t1.wf(),
        t2.nodes.len() == t1.nodes.len(),
        forall|x: int|
            0 <= x < t1.nodes.len() ==> {
                &&& #[trigger] t2.parent_of(x) == t1.parent_of(x)
                &&& t2.kind_of(x) == t1.kind_of(x)
                &&& t2.children_of(x) == t1.children_of(x)
                &&& same_handles(t2.focus_of(x), t1.focus_of(x))
            },
    ensures
        t2.wf(),
{
    assert(t2.kind_of(0) == t1.kind_of(0) && t2.parent_of(0) == t1.parent_of(0));
    assert forall|h: int| #[trigger] t2.valid(h) implies t2.node_wf(h) by {
        assert(t1.valid(h));
        assert(t1.node_wf(h));
        assert(t2.parent_of(h) == t1.parent_of(h));
        if let Some(q) = t2.parent_of(h) {
            assert(t2.parent_of(q as int) == t1.parent_of(q as int));
        }
        assert forall|j: int| 0 <= j < t2.children_of(h).len() implies t2.valid(
            #[trigger] t2.children_of(h)[j] as int,
        ) && t2.parent_of(t2.children_of(h)[j] as int) == Some(h as usize) by {
            t1.lemma_child_valid(h, j);
            assert(t2.parent_of(t1.children_of(h)[j] as int) == t1.parent_of(t1.children_of(h)[j] as int));
        }
    }
}

/// Shifting `cur` to the front of its parent's focus order keeps the tree
/// well formed and changes no parent.
#[verifier::rlimit(50)]
proof fn lemma_refocus(t1: RootContainer, t2: RootContainer, p: usize, cur: usize)
    requires
        t1.wf(),
        t1.valid(cur as int),
        t1.parent_of(cur as int) == Some(p),
        t1.focus_of(p as int).contains(cur),
        t2.nodes.len() == t1.nodes.len(),
        forall|x: int| 0 <= x < t1.nodes.len() && x != p ==> #[trigger] t2.nodes[x] == t1.nodes[x],
        t2.kind_of(p as int) == t1.kind_of(p as int),
        t2.parent_of(p as int) == t1.parent_of(p as int),
        t2.children_of(p as int) == t1.children_of(p as int),
        t2.nodes[p as int].done_rules == t1.nodes[p as int].done_rules,
        t2.focus_of(p as int) == shifted(t1.focus_of(p as int), 0, cur),
    ensures
        t2.focus_of(p as int).len() > 0,
        t2.focus_of(p as int)[0] == cur,
        same_handles(t2.focus_of(p as int), t1.focus_of(p as int)),
        forall|x: int|
            0 <= x < t1.nodes.len() ==> {
                &&& #[trigger] t2.parent_of(x) == t1.parent_of(x)
                &&& t2.kind_of(x) == t1.kind_of(x)
                &&& t2.children_of(x) == t1.children_of(x)
                &&& t2.nodes[x].done_rules == t1.nodes[x].done_rules
                &&& same_handles(t2.focus_of(x), t1.focus_of(x))
                &&& x >= cur ==> t2.focus_of(x) == t1.focus_of(x)
            },
{
    assert(t1.node_wf(cur as int));
    crate::vec_ext::lemma_shift_front_multiset(t1.focus_of(p as int), cur);
    assert forall|x: int| 0 <= x < t1.nodes.len() implies {
        &&& #[trigger] t2.parent_of(x) == t1.parent_of(x)
        &&& t2.kind_of(x) == t1.kind_of(x)
        &&& t2.children_of(x) == t1.children_of(x)
        &&& t2.nodes[x].done_rules == t1.nodes[x].done_rules
        &&& same_handles(t2.focus_of(x), t1.focus_of(x))
        &&& x >= cur ==> t2.focus_of(x) == t1.focus_of(x)
    } by {
        if x != p {
            assert(t2.nodes[x] == t1.nodes[x]);
        }
    }
    lemma_same_shape_wf(t1, t2);
}

/// Puts `target` at the front of its parent's focus order, and each ancestor
/// at the front of its own parent's, up to the top of the tree. Nothing else
/// changes.
pub fn set_focused_descendant(tree: &mut RootContainer, target: usize)
    requires
        old(tree).wf(),
        old(tree).valid(target as int),
    ensures
        final(tree).wf(),
        final(tree).nodes.len() == old(tree).nodes.len(),
        final(tree).id == old(tree).id,
        forall|h: int|
            old(tree).valid(h) ==> {
                &&& #[trigger] final(tree).kind_of(h) == old(tree).kind_of(h)
                &&& final(tree).parent_of(h) == old(tree).parent_of(h)
                &&& final(tree).children_of(h) == old(tree).children_of(h)
                &&& final(tree).nodes[h].done_rules == old(tree).nodes[h].done_rules
                &&& same_handles(final(tree).focus_of(h), old(tree).focus_of(h))
            },
        front_between(*final(tree), target as int, top_of(*old(tree), target as int)),
{
    let ghost t0 = *tree;
    let mut cur = target;
    loop
        invariant
            tree.wf(),
            tree.valid(cur as int),
            t0 == *old(tree),
            target < t0.nodes.len(),
            tree.nodes.len() == t0.nodes.len(),
            tree.id == t0.id,
            forall|h: int|
                t0.valid(h) ==> {
                    &&& #[trigger] tree.kind_of(h) == t0.kind_of(h)
                    &&& tree.parent_of(h) == t0.parent_of(h)
                    &&& tree.children_of(h) == t0.children_of(h)
                    &&& tree.nodes[h].done_rules == t0.nodes[h].done_rules
                    &&& same_handles(tree.focus_of(h), t0.focus_of(h))
                },
            front_between(*tree, target as int, cur as int),
            top_of(t0, target as int) == top_of(t0, cur as int),
        decreases cur,
    {
        proof {
            assert(tree.node_wf(cur as int));
        }
        let p = match tree.nodes[cur].parent {
            None => {
                assert(tree.kind_of(cur as int) == t0.kind_of(cur as int));
                return;
            },
            Some(p) => p,
        };
        proof {
            assert(tree.valid(p as int));
            assert(tree.node_wf(p as int));
            broadcast use vstd::seq_lib::group_to_multiset_ensures;
            assert(tree.children_of(p as int).to_multiset().count(cur) > 0);
            assert(tree.focus_of(p as int).contains(cur));
        }
        let ghost t1 = *tree;
        tree.nodes[p].child_focus_order.shift_to_index(0, cur);
        proof {
            lemma_refocus(t1, *tree, p, cur);
            lemma_same_shape_wf(t1, *tree);
            lemma_front_frame(t1, *tree, target as int, cur as int);
            lemma_front_extend(*tree, target as int, cur, p);
        }
        cur = p;
    }
}

/// Moves focus from `origin` toward `direction`: finds the target as
/// `focus_target` says, brings it to the front of focus order along its
/// ancestors, and queues a focus change and a cursor jump. Without a target
/// nothing changes. `neighbor` is the monitor toward `direction` from the
/// origin's monitor, as the caller found it from the monitors' geometry.
pub fn focus_in_direction(
    tree: &mut RootContainer,
    origin: usize,
    direction: &Direction,
    neighbor: Option<usize>,
    pending: &mut PendingSync,
) -> (r: Result<(), WmError>)
    requires
        old(tree).wf(),
        old(tree).valid(origin as int),
        neighbor matches Some(m) ==> old(tree).valid(m as int),
    ensures
        final(tree).wf(),
        match focus_target(*old(tree), origin as int, *direction, neighbor) {
            Err(e) => r == Err::<(), WmError>(e) && *final(tree) == *old(tree) && *final(pending)
                == *old(pending),
            Ok(None) => r is Ok && *final(tree) == *old(tree) && *final(pending) == *old(pending),
            Ok(Some(x)) => {
                &&& r is Ok
                &&& front_between(*final(tree), x as int, top_of(*old(tree), x as int))
                &&& final(tree).nodes.len() == old(tree).nodes.len()
                &&& forall|h: int|
                    old(tree).valid(h) ==> {
                        &&& #[trigger] final(tree).kind_of(h) == old(tree).kind_of(h)
                        &&& final(tree).parent_of(h) == old(tree).parent_of(h)
                        &&& final(tree).children_of(h) == old(tree).children_of(h)
                    }
                &&& *final(pending) == (PendingSync {
                    focus_change: true,
                    cursor_jump: true,
                    ..*old(pending)
                })
            },
        },
{
    let target = match tree.nodes[origin].kind {
        ContainerKind::TilingWindow { .. } => match tiling_focus_target(tree, origin, direction) {
            Ok(Some(x)) => Some(x),
            Ok(None) => workspace_focus_target(tree, origin, direction, neighbor)?,
            Err(e) => return Err(e),
        },
        ContainerKind::NonTilingWindow { state: WindowState::Floating, .. } => floating_focus_target(
            tree,
            origin,
            direction,
        ),
        ContainerKind::NonTilingWindow { state: WindowState::Fullscreen, .. } => workspace_focus_target(
            tree,
            origin,
            direction,
            neighbor,
        )?,
        ContainerKind::Workspace { .. } => workspace_focus_target(
            tree,
            origin,
            direction,
            neighbor,
        )?,
        _ => None,
    };
    if let Some(x) = target {
        set_focused_descendant(tree, x);
        pending.queue_focus_change();
        pending.queue_cursor_jump();
    }
    Ok(())
}

} // verus!

verus! {

/// From a tiling window, a target found inside the workspace wins; when there
/// is none up to the workspace, focus falls back to the workspace search, and
/// that finds nothing when no monitor lies toward the direction.
pub proof fn lemma_tiling_fallback(t: RootContainer, h: int, d: Direction, neighbor: Option<usize>)
    requires
        t.kind_of(h) is TilingWindow,
    ensures
        tiling_target(t, h, d) matches Ok(Some(x)) ==> focus_target(t, h, d, neighbor) == Ok::<
            Option<usize>,
            WmError,
        >(Some(x)),
        tiling_target(t, h, d) == Ok::<Option<usize>, WmError>(None) ==> focus_target(
            t,
            h,
            d,
            neighbor,
        ) == workspace_target(t, h, d, neighbor),
        tiling_target(t, h, d) == Ok::<Option<usize>, WmError>(None) && neighbor is None
            && monitor_of(t, h) is Some ==> focus_target(t, h, d, neighbor) == Ok::<
            Option<usize>,
            WmError,
        >(None),
{
}

} // verus!
