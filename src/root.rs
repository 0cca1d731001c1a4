use vstd::prelude::*;

use crate::error::WmError;
use crate::tree::{ContainerKind, Node, RootContainer};

verus! {

/// Relies on `uuid::Uuid::new_v4`: a random identifier, read as an integer.
/// Nothing is promised of its value.
#[verifier::external_body]
fn new_identifier() -> (r: u128) {
    uuid::Uuid::new_v4().as_u128()
}

/// A screen rectangle.
#[derive(Debug, Clone, Copy, PartialEq, Eq, Structural)]
pub struct Rect {
    pub left: i32,
    pub top: i32,
    pub right: i32,
    pub bottom: i32,
}

/// A snapshot of a container and its subtree, for the query layer.
#[derive(Debug)]
pub struct ContainerDto {
    pub id: usize,
    pub parent_id: Option<usize>,
    pub kind: ContainerKind,
    pub children: Vec<ContainerDto>,
    pub child_focus_order: Vec<usize>,
}

/// `d` is a snapshot of the container `h` of `t` and of its subtree.
pub open spec fn describes(t: RootContainer, h: int, d: ContainerDto) -> bool
    decreases t.nodes.len() - h,
{
    &&& d.id == h
    &&& d.parent_id == t.parent_of(h)
    &&& d.kind == t.kind_of(h)
    &&& d.child_focus_order@ == t.focus_of(h)
    &&& d.children@.len() == t.children_of(h).len()
    &&& forall|j: int|
        0 <= j < d.children@.len() ==> (h < t.children_of(h)[j] < t.nodes.len() ==> describes(
            t,
            t.children_of(h)[j] as int,
            #[trigger] d.children@[j],
        ))
}

/// The monitors among the first `k` children of the root, in order.
pub open spec fn monitors_among(t: RootContainer, k: int) -> Seq<usize>
    decreases k,
{
    if k <= 0 {
        Seq::empty()
    } else if t.kind_of(t.children_of(0)[k - 1] as int) is Monitor {
        monitors_among(t, k - 1).push(t.children_of(0)[k - 1])
    } else {
        monitors_among(t, k - 1)
    }
}

impl RootContainer {
    /// A tree that holds only its root, under a fresh random identifier.
    pub fn new() -> (r: RootContainer)
        ensures
            r.wf(),
            r.nodes.len() == 1,
            r.children_of(0).len() == 0,
    {
        let root = Node {
            kind: ContainerKind::Root,
            parent: None,
            children: Vec::new(),
            child_focus_order: Vec::new(),
            done_rules: Vec::new(),
        };
        let mut nodes: Vec<Node> = Vec::new();
        nodes.push(root);
        let r = RootContainer { id: new_identifier(), nodes };
        assert(r.node_wf(0)) by {
            assert(r.focus_of(0) =~= r.children_of(0));
        }
        r
    }

    /// The monitors, in the root's child order.
    pub fn monitors(&self) -> (r: Vec<usize>)
        requires
            self.wf(),
        ensures
            r@ == monitors_among(*self, self.children_of(0).len() as int),
    {
        proof {
            self.lemma_lists_root();
        }
        let children = &self.nodes[0].children;
        let mut r: Vec<usize> = Vec::new();
        let mut i: usize = 0;
        while i < children.len()
            invariant
                i <= children@.len(),
                children@ == self.children_of(0),
                forall|k: int| 0 <= k < children@.len() ==> self.valid(#[trigger] children@[k] as int),
                r@ == monitors_among(*self, i as int),
            decreases children.len() - i,
        {
            if matches!(self.nodes[children[i]].kind, ContainerKind::Monitor) {
                r.push(children[i]);
            }
            i = i + 1;
        }
        r
    }

    pub proof fn lemma_lists_root(&self)
        requires
            self.wf(),
        ensures
            forall|k: int| 0 <= k < self.children_of(0).len() ==> self.valid(#[trigger] self.children_of(0)[k] as int),
    {
        assert forall|k: int| 0 <= k < self.children_of(0).len() implies self.valid(#[trigger] self.children_of(0)[k] as int) by {
            self.lemma_child_valid(0, k);
        }
    }

    /// A snapshot of the container `h` and its subtree.
    pub fn dto_of(&self, h: usize) -> (r: ContainerDto)
        requires
            self.wf(),
            self.valid(h as int),
        ensures
            describes(*self, h as int, r),
        decreases self.nodes.len() - h,
    {
        let node = &self.nodes[h];
        let mut children: Vec<ContainerDto> = Vec::new();
        let mut i: usize = 0;
        while i < node.children.len()
            invariant
                self.wf(),
                self.valid(h as int),
                node == &self.nodes[h as int],
                i <= node.children@.len(),
                children@.len() == i,
                forall|j: int| 0 <= j < i ==> describes(*self, node.children@[j] as int, #[trigger] children@[j]),
            decreases node.children.len() - i,
        {
            proof {
                self.lemma_child_valid(h as int, i as int);
                assert(self.node_wf(node.children@[i as int] as int));
            }
            let d = self.dto_of(node.children[i]);
            children.push(d);
            i = i + 1;
        }
        ContainerDto {
            id: h,
            parent_id: node.parent,
            kind: node.kind,
            children,
            child_focus_order: crate::flatten::copy_handles(&node.child_focus_order),
        }
    }

    /// A snapshot of the whole tree.
    pub fn to_dto(&self) -> (r: Result<ContainerDto, WmError>)
        requires
            self.wf(),
        ensures
            r matches Ok(d) && describes(*self, 0, d),
    {
        Ok(self.dto_of(0))
    }

    /// The root has no position: asking for its rectangle is an error.
    pub fn to_rect(&self) -> (r: Result<Rect, WmError>)
        ensures
            r == Err::<Rect, WmError>(WmError::UnsupportedOperation),
    {
        Err(WmError::UnsupportedOperation)
    }
}

} // verus!
