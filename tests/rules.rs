use wm_core::{
    disable_binding_mode, run_window_rules, BindingModeConfig, ContainerKind, PendingSync,
    RootContainer, RuleAction, TilingDirection, WindowRule, WindowRuleEvent, WindowState,
    WmEvent, WmState,
};

fn rule(id: u64, on: Vec<WindowRuleEvent>, commands: &[&str], run_once: bool) -> WindowRule {
    WindowRule { id, on, commands: commands.iter().map(|c| c.to_string()).collect(), run_once }
}

/// A tree with one tiling window of native handle 42; returns (tree, workspace, window).
fn setup() -> (RootContainer, usize, usize) {
    let mut t = RootContainer::new();
    let m = t.add_child(0, ContainerKind::Monitor);
    let w = t.add_child(m, ContainerKind::Workspace { tiling_direction: TilingDirection::Horizontal });
    let win = t.add_child(w, ContainerKind::TilingWindow { tiling_size: 1000000, native: 42 });
    (t, w, win)
}

/// Moves the window to a new floating container, as a set-floating command does.
fn make_floating(t: &mut RootContainer, w: usize, win: usize) -> usize {
    t.nodes[w].children.retain(|c| *c != win);
    t.nodes[w].child_focus_order.retain(|c| *c != win);
    t.nodes[win].parent = None;
    t.add_child(w, ContainerKind::NonTilingWindow { state: WindowState::Floating, native: 42 })
}

#[test]
fn runs_due_commands_in_order() {
    let (mut t, _w, win) = setup();
    let rules = vec![
        rule(1, vec![WindowRuleEvent::Manage], &["a", "b"], false),
        rule(2, vec![WindowRuleEvent::Focus], &["x"], false),
        rule(3, vec![WindowRuleEvent::Manage, WindowRuleEvent::Focus], &["c"], false),
    ];
    let mut run = run_window_rules(&mut t, win, WindowRuleEvent::Manage, &rules);
    assert_eq!(run.pending, vec![0, 2]);
    let mut seen = Vec::new();
    loop {
        match run.next_action() {
            RuleAction::RunCommand { rule, command, subject } => {
                assert_eq!(subject, win);
                seen.push(rules[rule].commands[command].clone());
                run.command_done(&mut t, &rules);
            },
            RuleAction::Finished { window } => {
                assert_eq!(window, win);
                break;
            },
            RuleAction::WindowGone => panic!("window should stay"),
        }
    }
    assert_eq!(seen, vec!["a", "b", "c"]);
}

#[test]
fn detached_window_is_resolved_for_next_command() {
    let (mut t, w, win) = setup();
    let rules = vec![rule(1, vec![WindowRuleEvent::Manage], &["set floating", "resize"], false)];
    let mut run = run_window_rules(&mut t, win, WindowRuleEvent::Manage, &rules);
    assert_eq!(run.next_action(), RuleAction::RunCommand { rule: 0, command: 0, subject: win });
    let floating = make_floating(&mut t, w, win);
    run.command_done(&mut t, &rules);
    assert_eq!(run.next_action(), RuleAction::RunCommand { rule: 0, command: 1, subject: floating });
    run.command_done(&mut t, &rules);
    assert_eq!(run.next_action(), RuleAction::Finished { window: floating });
}

#[test]
fn vanished_window_ends_the_run() {
    let (mut t, w, win) = setup();
    let rules = vec![rule(1, vec![WindowRuleEvent::Manage], &["close", "resize"], true)];
    let mut run = run_window_rules(&mut t, win, WindowRuleEvent::Manage, &rules);
    t.nodes[w].children.clear();
    t.nodes[w].child_focus_order.clear();
    t.nodes[win].parent = None;
    run.command_done(&mut t, &rules);
    assert_eq!(run.next_action(), RuleAction::WindowGone);
    assert!(t.nodes[win].done_rules.is_empty());
}

#[test]
fn run_once_rule_is_recorded_and_skipped_later() {
    let (mut t, _w, win) = setup();
    let rules = vec![
        rule(7, vec![WindowRuleEvent::Focus], &["a"], true),
        rule(8, vec![WindowRuleEvent::Focus], &["b"], false),
    ];
    let mut run = run_window_rules(&mut t, win, WindowRuleEvent::Focus, &rules);
    run.command_done(&mut t, &rules);
    run.command_done(&mut t, &rules);
    assert_eq!(run.next_action(), RuleAction::Finished { window: win });
    assert_eq!(t.nodes[win].done_rules, vec![7]);
    let again = run_window_rules(&mut t, win, WindowRuleEvent::Focus, &rules);
    assert_eq!(again.pending, vec![1]);
}

#[test]
fn rule_without_commands_is_passed_over() {
    let (mut t, _w, win) = setup();
    let rules = vec![rule(3, vec![WindowRuleEvent::TitleChange], &[], true)];
    let run = run_window_rules(&mut t, win, WindowRuleEvent::TitleChange, &rules);
    assert_eq!(run.next_action(), RuleAction::Finished { window: win });
    assert_eq!(t.nodes[win].done_rules, vec![3]);
}

#[test]
fn disable_binding_mode_removes_and_emits() {
    let mut state = WmState {
        binding_modes: vec![
            BindingModeConfig { name: "resize".to_string() },
            BindingModeConfig { name: "pause".to_string() },
            BindingModeConfig { name: "resize".to_string() },
        ],
        events: Vec::new(),
    };
    disable_binding_mode("resize", &mut state);
    let names: Vec<String> = state.binding_modes.iter().map(|m| m.name.clone()).collect();
    assert_eq!(names, vec!["pause"]);
    assert_eq!(state.events.len(), 1);
    match &state.events[0] {
        WmEvent::BindingModesChanged { new_binding_modes } => {
            assert_eq!(new_binding_modes.len(), 1);
            assert_eq!(new_binding_modes[0].name, "pause");
        },
    }
    disable_binding_mode("absent", &mut state);
    assert_eq!(state.binding_modes.len(), 1);
    assert_eq!(state.events.len(), 2);
}

#[test]
fn pending_sync_coalesces_and_takes() {
    let mut p = PendingSync::new();
    assert!(p.is_empty());
    p.queue_focus_change();
    p.queue_focus_change();
    p.queue_redraw();
    let taken = p.take();
    assert!(taken.focus_change && taken.redraw && !taken.cursor_jump);
    assert!(p.is_empty());
}
