use vstd::prelude::*;

verus! {

/// Tiling sizes are fractions held in millionths: `SIZE_SCALE` is a whole.
pub const SIZE_SCALE: u64 = 1000000;

/// A cardinal direction.
#[derive(Debug, Clone, Copy, PartialEq, Eq, Structural)]
pub enum Direction {
    Left,
    Right,
    Up,
    Down,
}

/// The axis along which a container lays out its tiling children.
#[derive(Debug, Clone, Copy, PartialEq, Eq, Structural)]
pub enum TilingDirection {
    Horizontal,
    Vertical,
}

/// The state of a window that is not part of the tiling layout.
#[derive(Debug, Clone, Copy, PartialEq, Eq, Structural)]
pub enum WindowState {
    Floating,
    Fullscreen,
    Minimized,
}

/// The variant of a container, with the fields that belong to it.
#[derive(Debug, Clone, Copy, PartialEq, Eq, Structural)]
pub enum ContainerKind {
    Root,
    Monitor,
    Workspace { tiling_direction: TilingDirection },
    Split { tiling_direction: TilingDirection, tiling_size: u32 },
    TilingWindow { tiling_size: u32, native: u64 },
    NonTilingWindow { state: WindowState, native: u64 },
}

/// One node of the tree. `children` is the spatial order; `child_focus_order`
/// is the same set of handles in focus order.
#[derive(Debug)]
pub struct Node {
    pub kind: ContainerKind,
    pub parent: Option<usize>,
    pub children: Vec<usize>,
    pub child_focus_order: Vec<usize>,
    /// Identifiers of the run-once rules that already ran on this window.
    pub done_rules: Vec<u64>,
}

/// The axis that a direction moves along.
pub open spec fn axis_of(d: Direction) -> TilingDirection {
    match d {
        Direction::Left | Direction::Right => TilingDirection::Horizontal,
        Direction::Up | Direction::Down => TilingDirection::Vertical,
    }
}

pub open spec fn inverse_of(d: Direction) -> Direction {
    match d {
        Direction::Left => Direction::Right,
        Direction::Right => Direction::Left,
        Direction::Up => Direction::Down,
        Direction::Down => Direction::Up,
    }
}

impl Direction {
    /// The opposite direction.
    pub fn inverse(&self) -> (r: Direction)
        ensures
            r == inverse_of(*self),
    {
        match self {
            Direction::Left => Direction::Right,
            Direction::Right => Direction::Left,
            Direction::Up => Direction::Down,
            Direction::Down => Direction::Up,
        }
    }
}

impl TilingDirection {
    /// The axis that `direction` moves along.
    pub fn from_direction(direction: &Direction) -> (r: TilingDirection)
        ensures
            r == axis_of(*direction),
    {
        match direction {
            Direction::Left | Direction::Right => TilingDirection::Horizontal,
            Direction::Up | Direction::Down => TilingDirection::Vertical,
        }
    }
}

/// Whether the variant takes part in the tiling layout (split or tiling window).
pub open spec fn is_tiling(k: ContainerKind) -> bool {
    k is Split || k is TilingWindow
}

/// The tiling size of a tiling container.
pub open spec fn tiling_size_of(k: ContainerKind) -> Option<u32> {
    match k {
        ContainerKind::Split { tiling_size, .. } => Some(tiling_size),
        ContainerKind::TilingWindow { tiling_size, .. } => Some(tiling_size),
        _ => None,
    }
}

/// The tiling axis of a direction-aware container (workspace or split).
pub open spec fn direction_of(k: ContainerKind) -> Option<TilingDirection> {
    match k {
        ContainerKind::Workspace { tiling_direction } => Some(tiling_direction),
        ContainerKind::Split { tiling_direction, .. } => Some(tiling_direction),
        _ => None,
    }
}

pub open spec fn is_floating(k: ContainerKind) -> bool {
    k matches ContainerKind::NonTilingWindow { state: WindowState::Floating, .. }
}

/// Rescales a tiling size by a split's size: the product of two fractions.
pub open spec fn scaled_size(size: u32, by: u32) -> u32 {
    (size as int * by as int / SIZE_SCALE as int) as u32
}

/// The variant after its tiling size, if any, was scaled by `by`.
pub open spec fn rescaled(k: ContainerKind, by: u32) -> ContainerKind {
    match k {
        ContainerKind::Split { tiling_direction, tiling_size } => ContainerKind::Split {
            tiling_direction,
            tiling_size: scaled_size(tiling_size, by),
        },
        ContainerKind::TilingWindow { tiling_size, native } => ContainerKind::TilingWindow {
            tiling_size: scaled_size(tiling_size, by),
            native,
        },
        _ => k,
    }
}

/// Two sequences hold the same handles, each as often.
pub open spec fn same_handles(a: Seq<usize>, b: Seq<usize>) -> bool {
    a.to_multiset() == b.to_multiset()
}

/// `v` with its element at `i` replaced by the sequence `mid`.
pub open spec fn splice(v: Seq<usize>, i: int, mid: Seq<usize>) -> Seq<usize> {
    v.take(i) + mid + v.skip(i + 1)
}

/// The container tree, held in an arena: handles are indices into `nodes`,
/// and handle 0 is the root.
pub struct RootContainer {
    /// The process-unique identifier of the root.
    pub id: u128,
    pub nodes: Vec<Node>,
}

impl RootContainer {
    pub open spec fn valid(&self, h: int) -> bool {
        0 <= h < self.nodes.len()
    }

    pub open spec fn kind_of(&self, h: int) -> ContainerKind {
        self.nodes[h].kind
    }

    pub open spec fn parent_of(&self, h: int) -> Option<usize> {
        self.nodes[h].parent
    }

    pub open spec fn children_of(&self, h: int) -> Seq<usize> {
        self.nodes[h].children@
    }

    pub open spec fn focus_of(&self, h: int) -> Seq<usize> {
        self.nodes[h].child_focus_order@
    }

    /// The tree is well formed: handles stay in the arena, the root has no
    /// parent, a parent's handle is below its children's (so the tree has no
    /// cycle), a node's parent holds it as a child and every child names its
    /// holder as parent, children are distinct, and focus order is a
    /// permutation of the children.
    pub open spec fn wf(&self) -> bool {
        &&& self.nodes.len() > 0
        &&& self.kind_of(0) is Root
        &&& self.parent_of(0) is None
        &&& forall|h: int| #[trigger] self.valid(h) ==> self.node_wf(h)
    }

    pub open spec fn node_wf(&self, h: int) -> bool {
        &&& self.parent_of(h) matches Some(p) ==> p < h && self.children_of(p as int).contains(
            h as usize,
        )
        &&& forall|j: int|
            0 <= j < self.children_of(h).len() ==> self.valid(#[trigger] self.children_of(h)[j] as int)
                && self.parent_of(self.children_of(h)[j] as int) == Some(h as usize)
        &&& self.children_of(h).no_duplicates()
        &&& same_handles(self.focus_of(h), self.children_of(h))
    }

    /// The node at `h` is a child of `p`.
    pub proof fn lemma_child_valid(&self, h: int, j: int)
        requires
            self.wf(),
            self.valid(h),
            0 <= j < self.children_of(h).len(),
        ensures
            self.valid(self.children_of(h)[j] as int),
            self.parent_of(self.children_of(h)[j] as int) == Some(h as usize),
    {
        assert(self.node_wf(h));
    }

    /// Every handle in focus order is a child, hence in the arena.
    pub proof fn lemma_focus_valid(&self, h: int, j: int)
        requires
            self.wf(),
            self.valid(h),
            0 <= j < self.focus_of(h).len(),
        ensures
            self.children_of(h).contains(self.focus_of(h)[j]),
            self.valid(self.focus_of(h)[j] as int),
            self.parent_of(self.focus_of(h)[j] as int) == Some(h as usize),
    {
        assert(self.node_wf(h));
        let x = self.focus_of(h)[j];
        assert(self.focus_of(h).to_multiset().count(x) > 0) by {
            broadcast use vstd::seq_lib::group_to_multiset_ensures;
            assert(self.focus_of(h).contains(x));
        }
        assert(self.children_of(h).contains(x)) by {
            broadcast use vstd::seq_lib::group_to_multiset_ensures;
        }
        let k = choose|k: int| 0 <= k < self.children_of(h).len() && self.children_of(h)[k] == x;
        self.lemma_child_valid(h, k);
    }
}

} // verus!

verus! {

impl RootContainer {
    /// Adds a new container of variant `kind` as the last child of `parent`,
    /// last in its focus order too, and returns its handle.
    pub fn add_child(&mut self, parent: usize, kind: ContainerKind) -> (r: usize)
        requires
            old(self).wf(),
            old(self).valid(parent as int),
            old(self).nodes.len() < usize::MAX,
        ensures
            final(self).wf(),
            r == old(self).nodes.len(),
            final(self).nodes.len() == old(self).nodes.len() + 1,
            final(self).id == old(self).id,
            final(self).kind_of(r as int) == kind,
            final(self).parent_of(r as int) == Some(parent),
            final(self).children_of(r as int).len() == 0,
            final(self).children_of(parent as int) == old(self).children_of(parent as int).push(r),
            final(self).focus_of(parent as int) == old(self).focus_of(parent as int).push(r),
            final(self).kind_of(parent as int) == old(self).kind_of(parent as int),
            final(self).parent_of(parent as int) == old(self).parent_of(parent as int),
            forall|h: int|
                0 <= h < old(self).nodes.len() && h != parent ==> #[trigger] final(self).nodes[h]
                    == old(self).nodes[h],
    {
        let ghost t0 = *self;
        let r = self.nodes.len();
        self.nodes.push(
            Node {
                kind,
                parent: Some(parent),
                children: Vec::new(),
                child_focus_order: Vec::new(),
                done_rules: Vec::new(),
            },
        );
        self.nodes[parent].children.push(r);
        self.nodes[parent].child_focus_order.push(r);
        proof {
            assert(t0.node_wf(parent as int));
            assert forall|h: int| #[trigger] self.valid(h) implies self.node_wf(h) by {
                if h == r {
                    assert(self.children_of(parent as int).last() == r);
                    assert(self.focus_of(h) =~= self.children_of(h));
                } else {
                    assert(t0.valid(h));
                    assert(t0.node_wf(h));
                    assert forall|j: int| 0 <= j < self.children_of(h).len() implies self.valid(
                        #[trigger] self.children_of(h)[j] as int,
                    ) && self.parent_of(self.children_of(h)[j] as int) == Some(h as usize) by {
                        if h != parent || j < t0.children_of(h).len() {
                            t0.lemma_child_valid(h, j);
                        }
                    }
                    if let Some(q) = self.parent_of(h) {
                        assert(t0.children_of(q as int).contains(h as usize));
                        if q == parent {
                            let k = choose|k: int| 0 <= k < t0.children_of(q as int).len() && t0.children_of(q as int)[k] == h as usize;
                            assert(self.children_of(q as int)[k] == h as usize);
                        }
                    }
                    if h == parent {
                        assert forall|a: int, b: int| 0 <= a < b < self.children_of(h).len() implies self.children_of(h)[a] != self.children_of(h)[b] by {
                            if b == t0.children_of(h).len() {
                                t0.lemma_child_valid(h, a);
                            }
                        }
                        broadcast use vstd::seq_lib::group_to_multiset_ensures;
                    }
                }
            }
        }
        r
    }
}

} // verus!
