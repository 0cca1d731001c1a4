use wm_core::{
    flatten_split_container, floating_focus_target, focus_in_direction, monitor_of_container,
    set_focused_descendant,
    tiling_focus_target, workspace_focus_target, ContainerKind, Direction, PendingSync,
    RootContainer, TilingDirection, WindowState, WmError,
};

fn tiling(size: u32, native: u64) -> ContainerKind {
    ContainerKind::TilingWindow { tiling_size: size, native }
}

fn split(dir: TilingDirection, size: u32) -> ContainerKind {
    ContainerKind::Split { tiling_direction: dir, tiling_size: size }
}

fn floating(native: u64) -> ContainerKind {
    ContainerKind::NonTilingWindow { state: WindowState::Floating, native }
}

/// Root, one monitor, one horizontal workspace; returns (tree, monitor, workspace).
fn base() -> (RootContainer, usize, usize) {
    let mut t = RootContainer::new();
    let m = t.add_child(0, ContainerKind::Monitor);
    let w = t.add_child(m, ContainerKind::Workspace { tiling_direction: TilingDirection::Horizontal });
    (t, m, w)
}

#[test]
fn new_root_has_only_itself() {
    let t = RootContainer::new();
    assert_eq!(t.nodes.len(), 1);
    assert!(t.nodes[0].parent.is_none());
    assert!(t.monitors().is_empty());
}

#[test]
fn root_has_no_rect() {
    let t = RootContainer::new();
    assert_eq!(t.to_rect(), Err(WmError::UnsupportedOperation));
}

#[test]
fn monitors_lists_monitor_children() {
    let mut t = RootContainer::new();
    let m1 = t.add_child(0, ContainerKind::Monitor);
    let _w = t.add_child(m1, ContainerKind::Workspace { tiling_direction: TilingDirection::Vertical });
    let m2 = t.add_child(0, ContainerKind::Monitor);
    assert_eq!(t.monitors(), vec![m1, m2]);
}

#[test]
fn dto_mirrors_tree() {
    let (mut t, m, w) = base();
    let a = t.add_child(w, tiling(500000, 1));
    let dto = t.to_dto().unwrap();
    assert_eq!(dto.id, 0);
    assert_eq!(dto.parent_id, None);
    assert_eq!(dto.child_focus_order, vec![m]);
    let wdto = &dto.children[0].children[0];
    assert_eq!(wdto.id, w);
    assert_eq!(wdto.parent_id, Some(m));
    assert_eq!(wdto.children[0].id, a);
    assert_eq!(wdto.children[0].kind, tiling(500000, 1));
}

#[test]
fn flatten_moves_children_into_parent() {
    let (mut t, _m, w) = base();
    let w1 = t.add_child(w, tiling(500000, 1));
    let s = t.add_child(w, split(TilingDirection::Vertical, 500000));
    let w2 = t.add_child(w, tiling(500000, 2));
    let a = t.add_child(s, tiling(400000, 3));
    let b = t.add_child(s, tiling(600000, 4));
    set_focused_descendant(&mut t, b);
    assert_eq!(t.nodes[w].child_focus_order, vec![s, w1, w2]);
    assert_eq!(t.nodes[s].child_focus_order, vec![b, a]);

    assert_eq!(flatten_split_container(&mut t, s), Ok(()));
    assert_eq!(t.nodes[w].children, vec![w1, a, b, w2]);
    assert_eq!(t.nodes[w].child_focus_order, vec![b, a, w1, w2]);
    assert_eq!(t.nodes[a].parent, Some(w));
    assert_eq!(t.nodes[b].parent, Some(w));
    assert_eq!(t.nodes[a].kind, tiling(200000, 3));
    assert_eq!(t.nodes[b].kind, tiling(300000, 4));
    assert_eq!(t.nodes[s].parent, None);
    assert!(t.nodes[s].children.is_empty());
    assert!(t.nodes[s].child_focus_order.is_empty());
}

#[test]
fn flatten_rescales_nested_split_and_keeps_floating() {
    let (mut t, _m, w) = base();
    let s = t.add_child(w, split(TilingDirection::Vertical, 250000));
    let inner = t.add_child(s, split(TilingDirection::Horizontal, 1000000));
    let f = t.add_child(s, floating(9));
    assert_eq!(flatten_split_container(&mut t, s), Ok(()));
    assert_eq!(t.nodes[w].children, vec![inner, f]);
    assert_eq!(t.nodes[inner].kind, split(TilingDirection::Horizontal, 250000));
    assert_eq!(t.nodes[f].kind, floating(9));
}

#[test]
fn flatten_without_parent_is_an_error() {
    let (mut t, _m, w) = base();
    let s = t.add_child(w, split(TilingDirection::Vertical, 500000));
    t.nodes[w].children.clear();
    t.nodes[w].child_focus_order.clear();
    t.nodes[s].parent = None;
    assert_eq!(flatten_split_container(&mut t, s), Err(WmError::TreeInvariantViolation));
}

#[test]
fn focus_left_finds_left_sibling() {
    let (mut t, _m, w) = base();
    let w1 = t.add_child(w, tiling(500000, 1));
    let w2 = t.add_child(w, tiling(500000, 2));
    assert_eq!(tiling_focus_target(&t, w2, &Direction::Left), Ok(Some(w1)));
    assert_eq!(tiling_focus_target(&t, w1, &Direction::Right), Ok(Some(w2)));
    assert_eq!(tiling_focus_target(&t, w1, &Direction::Left), Ok(None));
    assert_eq!(tiling_focus_target(&t, w1, &Direction::Up), Ok(None));
}

#[test]
fn focus_enters_split_on_near_edge() {
    let (mut t, _m, w) = base();
    let w1 = t.add_child(w, tiling(500000, 1));
    let s = t.add_child(w, split(TilingDirection::Horizontal, 500000));
    let a = t.add_child(s, tiling(500000, 2));
    let _b = t.add_child(s, tiling(500000, 3));
    assert_eq!(tiling_focus_target(&t, w1, &Direction::Right), Ok(Some(a)));
}

#[test]
fn focus_climbs_past_cross_axis_split() {
    let (mut t, _m, w) = base();
    let w1 = t.add_child(w, tiling(500000, 1));
    let s = t.add_child(w, split(TilingDirection::Vertical, 500000));
    let top = t.add_child(s, tiling(500000, 2));
    let bottom = t.add_child(s, tiling(500000, 3));
    assert_eq!(tiling_focus_target(&t, bottom, &Direction::Left), Ok(Some(w1)));
    assert_eq!(tiling_focus_target(&t, bottom, &Direction::Up), Ok(Some(top)));
}

#[test]
fn focus_in_direction_marks_target_and_queues_sync() {
    let (mut t, m, w) = base();
    let w1 = t.add_child(w, tiling(500000, 1));
    let w2 = t.add_child(w, tiling(500000, 2));
    set_focused_descendant(&mut t, w2);
    let mut pending = PendingSync::new();
    assert_eq!(focus_in_direction(&mut t, w2, &Direction::Left, None, &mut pending), Ok(()));
    assert_eq!(t.nodes[w].child_focus_order, vec![w1, w2]);
    assert_eq!(t.nodes[m].child_focus_order[0], w);
    assert!(pending.focus_change && pending.cursor_jump && !pending.redraw);
}

#[test]
fn focus_falls_back_to_nothing_without_neighbor_monitor() {
    let (mut t, _m, w) = base();
    let _w1 = t.add_child(w, tiling(500000, 1));
    let w2 = t.add_child(w, tiling(500000, 2));
    let mut pending = PendingSync::new();
    let before = t.nodes[w].child_focus_order.clone();
    assert_eq!(focus_in_direction(&mut t, w2, &Direction::Right, None, &mut pending), Ok(()));
    assert_eq!(t.nodes[w].child_focus_order, before);
    assert!(pending.is_empty());
    assert_eq!(workspace_focus_target(&t, w2, &Direction::Right, None), Ok(None));
}

#[test]
fn focus_moves_to_neighbor_monitor_workspace() {
    let (mut t, _m, w) = base();
    let w1 = t.add_child(w, tiling(500000, 1));
    let m2 = t.add_child(0, ContainerKind::Monitor);
    let ws2 = t.add_child(m2, ContainerKind::Workspace { tiling_direction: TilingDirection::Horizontal });
    let x = t.add_child(ws2, tiling(500000, 5));
    let y = t.add_child(ws2, tiling(500000, 6));
    assert_eq!(workspace_focus_target(&t, w1, &Direction::Right, Some(m2)), Ok(Some(x)));
    assert_eq!(workspace_focus_target(&t, w1, &Direction::Left, Some(m2)), Ok(Some(y)));
    let mut pending = PendingSync::new();
    assert_eq!(focus_in_direction(&mut t, w1, &Direction::Right, Some(m2), &mut pending), Ok(()));
    assert_eq!(t.nodes[0].child_focus_order[0], m2);
    assert_eq!(t.nodes[ws2].child_focus_order[0], x);
}

#[test]
fn fullscreen_window_wins_focus_on_its_workspace() {
    let (mut t, _m, w) = base();
    let w1 = t.add_child(w, tiling(500000, 1));
    let m2 = t.add_child(0, ContainerKind::Monitor);
    let ws2 = t.add_child(m2, ContainerKind::Workspace { tiling_direction: TilingDirection::Horizontal });
    let _x = t.add_child(ws2, tiling(500000, 5));
    let fs = t.add_child(ws2, ContainerKind::NonTilingWindow { state: WindowState::Fullscreen, native: 7 });
    set_focused_descendant(&mut t, fs);
    assert_eq!(workspace_focus_target(&t, w1, &Direction::Right, Some(m2)), Ok(Some(fs)));
}

#[test]
fn empty_neighbor_workspace_is_the_target() {
    let (mut t, _m, w) = base();
    let w1 = t.add_child(w, tiling(500000, 1));
    let m2 = t.add_child(0, ContainerKind::Monitor);
    let ws2 = t.add_child(m2, ContainerKind::Workspace { tiling_direction: TilingDirection::Vertical });
    assert_eq!(workspace_focus_target(&t, w1, &Direction::Down, Some(m2)), Ok(Some(ws2)));
}

#[test]
fn workspace_target_outside_monitor_is_an_error() {
    let mut t = RootContainer::new();
    let ws = t.add_child(0, ContainerKind::Workspace { tiling_direction: TilingDirection::Vertical });
    assert_eq!(workspace_focus_target(&t, ws, &Direction::Down, None), Err(WmError::TreeInvariantViolation));
}

#[test]
fn tiling_window_under_monitor_is_malformed() {
    let mut t = RootContainer::new();
    let m = t.add_child(0, ContainerKind::Monitor);
    let win = t.add_child(m, tiling(500000, 1));
    assert_eq!(tiling_focus_target(&t, win, &Direction::Left), Err(WmError::TreeInvariantViolation));
}

#[test]
fn floating_focus_moves_and_wraps() {
    let (mut t, _m, w) = base();
    let f1 = t.add_child(w, floating(1));
    let _tw = t.add_child(w, tiling(500000, 2));
    let f2 = t.add_child(w, floating(3));
    let f3 = t.add_child(w, floating(4));
    assert_eq!(floating_focus_target(&t, f2, &Direction::Right), Some(f3));
    assert_eq!(floating_focus_target(&t, f2, &Direction::Left), Some(f1));
    assert_eq!(floating_focus_target(&t, f3, &Direction::Right), Some(f2));
    assert_eq!(floating_focus_target(&t, f1, &Direction::Left), Some(f2));
    assert_eq!(floating_focus_target(&t, f1, &Direction::Up), None);
}

#[test]
fn minimized_window_has_no_focus_target() {
    let (mut t, _m, w) = base();
    let _a = t.add_child(w, tiling(500000, 1));
    let min = t.add_child(w, ContainerKind::NonTilingWindow { state: WindowState::Minimized, native: 2 });
    let mut pending = PendingSync::new();
    assert_eq!(focus_in_direction(&mut t, min, &Direction::Left, None, &mut pending), Ok(()));
    assert!(pending.is_empty());
}

#[test]
fn set_focused_descendant_fronts_whole_chain() {
    let mut t = RootContainer::new();
    let m1 = t.add_child(0, ContainerKind::Monitor);
    let m2 = t.add_child(0, ContainerKind::Monitor);
    let ws = t.add_child(m2, ContainerKind::Workspace { tiling_direction: TilingDirection::Horizontal });
    let a = t.add_child(ws, tiling(500000, 1));
    let s = t.add_child(ws, split(TilingDirection::Vertical, 500000));
    let _b = t.add_child(s, tiling(500000, 2));
    let c = t.add_child(s, tiling(500000, 3));
    set_focused_descendant(&mut t, c);
    assert_eq!(t.nodes[s].child_focus_order[0], c);
    assert_eq!(t.nodes[ws].child_focus_order, vec![s, a]);
    assert_eq!(t.nodes[0].child_focus_order, vec![m2, m1]);
    assert_eq!(t.nodes[ws].children, vec![a, s]);
}

#[test]
fn monitor_of_container_walks_up() {
    let (mut t, m, w) = base();
    let a = t.add_child(w, tiling(500000, 1));
    assert_eq!(monitor_of_container(&t, a), Some(m));
    assert_eq!(monitor_of_container(&t, 0), None);
}

#[test]
fn descendant_in_direction_goes_deep() {
    let (mut t, _m, w) = base();
    let a = t.add_child(w, tiling(500000, 1));
    let s = t.add_child(w, split(TilingDirection::Vertical, 500000));
    let top = t.add_child(s, tiling(500000, 2));
    let bottom = t.add_child(s, tiling(500000, 3));
    assert_eq!(t.descendant_in_direction(w, &Direction::Left), Some(a));
    // Entering the vertical split from the right takes its focused child.
    assert_eq!(t.descendant_in_direction(w, &Direction::Right), Some(top));
    set_focused_descendant(&mut t, bottom);
    assert_eq!(t.descendant_in_direction(w, &Direction::Right), Some(bottom));
    assert_eq!(t.child_in_direction(s, &Direction::Down), Some(bottom));
    assert_eq!(t.child_in_direction(s, &Direction::Up), Some(top));
}
