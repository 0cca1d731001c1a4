use vstd::prelude::*;

use crate::tree::{ContainerKind, RootContainer};

verus! {

/// The event that makes window rules run.
#[derive(Debug, Clone, Copy, PartialEq, Eq, Structural)]
pub enum WindowRuleEvent {
    Focus,
    Manage,
    TitleChange,
}

/// A configured rule: the events it answers, its commands in order, and
/// whether it runs only once per window.
#[derive(Debug)]
pub struct WindowRule {
    pub id: u64,
    pub on: Vec<WindowRuleEvent>,
    pub commands: Vec<String>,
    pub run_once: bool,
}

/// What the caller does next for a rule run.
#[derive(Debug, Clone, Copy, PartialEq, Eq, Structural)]
pub enum RuleAction {
    /// Run command `command` of rule `rule` on the window `subject`, then
    /// report back with `command_done`.
    RunCommand { rule: usize, command: usize, subject: usize },
    /// All rules ran; the window to carry on with.
    Finished { window: usize },
    /// The window went away while its rules ran; nothing more runs.
    WindowGone,
}

/// The native handle of a window container.
pub open spec fn native_of(k: ContainerKind) -> Option<u64> {
    match k {
        ContainerKind::TilingWindow { native, .. } => Some(native),
        ContainerKind::NonTilingWindow { native, .. } => Some(native),
        _ => None,
    }
}

/// The first attached window among handles below `k` that shows native
/// window `n`.
pub open spec fn window_with_native(t: RootContainer, n: u64, k: int) -> Option<usize>
    decreases k,
{
    if k <= 0 {
        None
    } else {
        match window_with_native(t, n, k - 1) {
            Some(w) => Some(w),
            None => if native_of(t.kind_of(k - 1)) == Some(n) && t.parent_of(k - 1) is Some {
                Some((k - 1) as usize)
            } else {
                None
            },
        }
    }
}

/// The live, attached container of native window `n`.
pub open spec fn live_window(t: RootContainer, n: u64) -> Option<usize> {
    window_with_native(t, n, t.nodes.len() as int)
}

/// Whether a rule is due for a window on an event: it answers the event,
/// and it is not a run-once rule that already ran on the window.
pub open spec fn rule_due(r: WindowRule, event: WindowRuleEvent, done: Seq<u64>) -> bool {
    r.on@.contains(event) && !(r.run_once && done.contains(r.id))
}

/// The positions, in order, of the rules among the first `k` that are due.
pub open spec fn due_rules(rules: Seq<WindowRule>, event: WindowRuleEvent, done: Seq<u64>, k: int) -> Seq<
    usize,
>
    decreases k,
{
    if k <= 0 {
        Seq::empty()
    } else if rule_due(rules[k - 1], event, done) {
        due_rules(rules, event, done, k - 1).push((k - 1) as usize)
    } else {
        due_rules(rules, event, done, k - 1)
    }
}

/// Once found among the first `j` handles, the window stays the answer.
proof fn lemma_window_with_native_stays(t: RootContainer, n: u64, j: int, k: int)
    requires
        j <= k,
        window_with_native(t, n, j) is Some,
    ensures
        window_with_native(t, n, k) == window_with_native(t, n, j),
    decreases k - j,
{
    if j < k {
        lemma_window_with_native_stays(t, n, j, k - 1);
    }
}

/// The container of native window `native` that is attached to the tree.
pub fn window_from_native(tree: &RootContainer, native: u64) -> (r: Option<usize>)
    ensures
        r == live_window(*tree, native),
        r matches Some(w) ==> tree.valid(w as int),
{
    let mut i: usize = 0;
    while i < tree.nodes.len()
        invariant
            i <= tree.nodes.len(),
            window_with_native(*tree, native, i as int) is None,
        decreases tree.nodes.len() - i,
    {
        let node = &tree.nodes[i];
        let hit = match node.kind {
            ContainerKind::TilingWindow { native: n, .. } => n == native,
            ContainerKind::NonTilingWindow { native: n, .. } => n == native,
            _ => false,
        };
        if hit && node.parent.is_some() {
            proof {
                lemma_window_with_native_stays(*tree, native, i + 1, tree.nodes.len() as int);
            }
            return Some(i);
        }
        i = i + 1;
    }
    None
}

fn answers(on: &Vec<WindowRuleEvent>, event: WindowRuleEvent) -> (r: bool)
    ensures
        r == on@.contains(event),
{
    let mut i: usize = 0;
    while i < on.len()
        invariant
            i <= on@.len(),
            forall|k: int| 0 <= k < i ==> on@[k] != event,
        decreases on.len() - i,
    {
        let hit = match (on[i], event) {
            (WindowRuleEvent::Focus, WindowRuleEvent::Focus) => true,
            (WindowRuleEvent::Manage, WindowRuleEvent::Manage) => true,
            (WindowRuleEvent::TitleChange, WindowRuleEvent::TitleChange) => true,
            _ => false,
        };
        if hit {
            return true;
        }
        i = i + 1;
    }
    false
}

fn holds_id(v: &Vec<u64>, id: u64) -> (r: bool)
    ensures
        r == v@.contains(id),
{
    let mut i: usize = 0;
    while i < v.len()
        invariant
            i <= v@.len(),
            forall|k: int| 0 <= k < i ==> v@[k] != id,
        decreases v.len() - i,
    {
        if v[i] == id {
            return true;
        }
        i = i + 1;
    }
    false
}

/// The positions of the rules due for a window on `event`, in order.
pub fn pending_window_rules(rules: &Vec<WindowRule>, event: WindowRuleEvent, done: &Vec<u64>) -> (r:
    Vec<usize>)
    ensures
        r@ == due_rules(rules@, event, done@, rules@.len() as int),
{
    let mut r: Vec<usize> = Vec::new();
    let mut i: usize = 0;
    while i < rules.len()
        invariant
            i <= rules@.len(),
            r@ == due_rules(rules@, event, done@, i as int),
        decreases rules.len() - i,
    {
        let rule = &rules[i];
        if answers(&rule.on, event) && !(rule.run_once && holds_id(done, rule.id)) {
            r.push(i);
        }
        i = i + 1;
    }
    r
}

/// The state of one run of window rules: the due rules (positions in the
/// rule list), the command reached, and the window the commands act on,
/// `None` once it went away. `native` is the window's native handle, by
/// which the window is found again after a command moved it.
#[derive(Debug)]
pub struct RuleRun {
    pub pending: Vec<usize>,
    pub rule_pos: usize,
    pub command_pos: usize,
    pub subject: Option<usize>,
    pub native: u64,
}

pub open spec fn commands_len(rules: Seq<WindowRule>, pending: Seq<usize>, pos: int) -> int {
    rules[pending[pos] as int].commands@.len() as int
}

/// The first place at or after (`pos`, `cmd`) that holds a command, or the
/// end of the due rules.
pub open spec fn next_live(rules: Seq<WindowRule>, pending: Seq<usize>, pos: int, cmd: int) -> (
    int,
    int,
)
    decreases pending.len() - pos,
{
    if pos >= pending.len() || pos < 0 || cmd < commands_len(rules, pending, pos) {
        (pos, cmd)
    } else {
        next_live(rules, pending, pos + 1, 0)
    }
}

/// The identifiers of the run-once rules among the due rules from `from` to `to`.
pub open spec fn once_ids(rules: Seq<WindowRule>, pending: Seq<usize>, from: int, to: int) -> Seq<
    u64,
>
    decreases to - from,
{
    if from >= to {
        Seq::empty()
    } else {
        let r = rules[pending[from] as int];
        (if r.run_once {
            seq![r.id]
        } else {
            Seq::empty()
        }) + once_ids(rules, pending, from + 1, to)
    }
}

/// What comes next for a run in state `run`.
pub open spec fn next_action_of(run: RuleRun) -> RuleAction {
    match run.subject {
        None => RuleAction::WindowGone,
        Some(s) => if run.rule_pos >= run.pending@.len() {
            RuleAction::Finished { window: s }
        } else {
            RuleAction::RunCommand {
                rule: run.pending@[run.rule_pos as int],
                command: run.command_pos,
                subject: s,
            }
        },
    }
}

/// `after` is `before` with `once` appended to the done rules of window `w`.
pub open spec fn recorded(before: RootContainer, after: RootContainer, w: int, once: Seq<u64>) -> bool {
    &&& after.nodes.len() == before.nodes.len()
    &&& after.id == before.id
    &&& after.nodes[w].done_rules@ == before.nodes[w].done_rules@ + once
    &&& after.kind_of(w) == before.kind_of(w)
    &&& after.parent_of(w) == before.parent_of(w)
    &&& after.children_of(w) == before.children_of(w)
    &&& after.focus_of(w) == before.focus_of(w)
    &&& forall|h: int| 0 <= h < before.nodes.len() && h != w ==> #[trigger] after.nodes[h] == before.nodes[h]
}

impl RuleRun {
    /// The run refers to rules that exist and to a window of the tree, and it
    /// stands at a command or at the end.
    pub open spec fn valid(&self, t: RootContainer, rules: Seq<WindowRule>) -> bool {
        &&& forall|k: int| 0 <= k < self.pending@.len() ==> #[trigger] self.pending@[k] < rules.len()
        &&& self.rule_pos <= self.pending@.len()
        &&& self.subject matches Some(s) ==> t.valid(s as int)
        &&& self.rule_pos < self.pending@.len() ==> self.command_pos < commands_len(
            rules,
            self.pending@,
            self.rule_pos as int,
        )
    }

    /// What the caller does next.
    pub fn next_action(&self) -> (r: RuleAction)
        ensures
            r == next_action_of(*self),
    {
        match self.subject {
            None => RuleAction::WindowGone,
            Some(s) => if self.rule_pos >= self.pending.len() {
                RuleAction::Finished { window: s }
            } else {
                RuleAction::RunCommand {
                    rule: self.pending[self.rule_pos],
                    command: self.command_pos,
                    subject: s,
                }
            },
        }
    }

    /// Moves past rules whose commands all ran, recording each run-once
    /// rule among them as done on the window.
    fn settle(&mut self, tree: &mut RootContainer, rules: &Vec<WindowRule>)
        requires
            forall|k: int| 0 <= k < old(self).pending@.len() ==> #[trigger] old(self).pending@[k] < rules@.len(),
            old(self).rule_pos <= old(self).pending@.len(),
            old(self).subject matches Some(s) && old(tree).valid(s as int),
        ensures
            final(self).pending == old(self).pending,
            final(self).subject == old(self).subject,
            final(self).native == old(self).native,
            (final(self).rule_pos as int, final(self).command_pos as int) == next_live(
                rules@,
                old(self).pending@,
                old(self).rule_pos as int,
                old(self).command_pos as int,
            ),
            final(self).valid(*final(tree), rules@),
            recorded(
                *old(tree),
                *final(tree),
                old(self).subject.unwrap() as int,
                once_ids(rules@, old(self).pending@, old(self).rule_pos as int, final(self).rule_pos as int),
            ),
    {
        let s = match self.subject {
            Some(s) => s,
            None => 0,
        };
        let ghost t0 = *tree;
        let ghost pos0 = self.rule_pos as int;
        let ghost done0 = tree.nodes[s as int].done_rules@;
        while self.rule_pos < self.pending.len()
            && self.command_pos >= rules[self.pending[self.rule_pos]].commands.len()
            invariant
                forall|k: int| 0 <= k < self.pending@.len() ==> #[trigger] self.pending@[k] < rules@.len(),
                self.pending == old(self).pending,
                self.subject == old(self).subject,
                self.native == old(self).native,
                self.subject == Some(s),
                t0 == *old(tree),
                pos0 == old(self).rule_pos,
                done0 == t0.nodes[s as int].done_rules@,
                t0.valid(s as int),
                pos0 <= self.rule_pos <= self.pending@.len(),
                next_live(rules@, self.pending@, self.rule_pos as int, self.command_pos as int)
                    == next_live(
                    rules@,
                    old(self).pending@,
                    old(self).rule_pos as int,
                    old(self).command_pos as int,
                ),
                recorded(t0, *tree, s as int, once_ids(rules@, self.pending@, pos0, self.rule_pos as int)),
            decreases self.pending.len() - self.rule_pos,
        {
            let rule = &rules[self.pending[self.rule_pos]];
            let ghost before = *tree;
            let ghost ids = once_ids(rules@, self.pending@, pos0, self.rule_pos as int);
            proof {
                lemma_once_ids_step(rules@, self.pending@, pos0, self.rule_pos as int);
            }
            if rule.run_once {
                tree.nodes[s].done_rules.push(rule.id);
                proof {
                    assert forall|h: int| 0 <= h < t0.nodes.len() && h != s implies #[trigger] tree.nodes[h] == t0.nodes[h] by {
                        assert(tree.nodes[h] == before.nodes[h]);
                    }
                    assert(tree.nodes[s as int].done_rules@ =~= done0 + (ids + seq![rule.id]));
                    assert(once_ids(rules@, self.pending@, pos0, self.rule_pos + 1) == ids + seq![rule.id]);
                }
            } else {
                assert(ids + Seq::<u64>::empty() =~= ids);
                assert(once_ids(rules@, self.pending@, pos0, self.rule_pos + 1) == ids);
            }
            self.rule_pos = self.rule_pos + 1;
            self.command_pos = 0;
        }
    }
}

/// Extending the range of `once_ids` by one rule appends that rule's id when
/// it runs only once.
proof fn lemma_once_ids_step(rules: Seq<WindowRule>, pending: Seq<usize>, from: int, to: int)
    requires
        from <= to,
    ensures
        once_ids(rules, pending, from, to + 1) == once_ids(rules, pending, from, to) + (if rules[pending[to] as int].run_once {
            seq![rules[pending[to] as int].id]
        } else {
            Seq::empty()
        }),
    decreases to - from,
{
    if from < to {
        lemma_once_ids_step(rules, pending, from + 1, to);
        let r = rules[pending[from] as int];
        let head = if r.run_once { seq![r.id] } else { Seq::<u64>::empty() };
        let last = if rules[pending[to] as int].run_once { seq![rules[pending[to] as int].id] } else { Seq::<u64>::empty() };
        assert(head + (once_ids(rules, pending, from + 1, to) + last) =~= (head + once_ids(rules, pending, from + 1, to)) + last);
    } else {
        let last = if rules[pending[to] as int].run_once { seq![rules[pending[to] as int].id] } else { Seq::<u64>::empty() };
        assert(once_ids(rules, pending, from, to) =~= Seq::<u64>::empty());
        assert(once_ids(rules, pending, to + 1, to + 1) =~= Seq::<u64>::empty());
        assert(last + Seq::<u64>::empty() =~= last);
        assert(Seq::<u64>::empty() + last =~= last);
    }
}

/// The window that the commands act on after a command ran on `s`: `s`
/// itself while attached, else the live container of the same native window.
pub open spec fn resolved_subject(t: RootContainer, s: int, native: u64) -> Option<usize> {
    if t.parent_of(s) is None {
        live_window(t, native)
    } else {
        Some(s as usize)
    }
}

/// `after` is the run `before` once its current command ran and left the
/// tree `t` (before any rule was recorded as done into `t2`).
pub open spec fn stepped(
    before: RuleRun,
    after: RuleRun,
    t: RootContainer,
    t2: RootContainer,
    rules: Seq<WindowRule>,
) -> bool {
    let s = before.subject.unwrap() as int;
    &&& after.pending == before.pending
    &&& after.native == before.native
    &&& after.subject == resolved_subject(t, s, before.native)
    &&& match after.subject {
        None => t2 == t,
        Some(w) => {
            &&& (after.rule_pos as int, after.command_pos as int) == next_live(
                rules,
                before.pending@,
                before.rule_pos as int,
                before.command_pos + 1,
            )
            &&& recorded(
                t,
                t2,
                w as int,
                once_ids(rules, before.pending@, before.rule_pos as int, after.rule_pos as int),
            )
        },
    }
}

impl RuleRun {
    /// Reports that the command `next_action` gave has run and left `tree`.
    /// A window that the command detached is looked up again by its native
    /// handle; if it is gone, the run ends with `WindowGone` and runs nothing
    /// more. Otherwise the run moves to the next command, recording each
    /// run-once rule that completes as done on the window.
    pub fn command_done(&mut self, tree: &mut RootContainer, rules: &Vec<WindowRule>)
        requires
            old(self).valid(*old(tree), rules@),
            old(self).subject is Some,
            old(self).rule_pos < old(self).pending@.len(),
        ensures
            stepped(*old(self), *final(self), *old(tree), *final(tree), rules@),
            final(self).valid(*final(tree), rules@),
    {
        let s = match self.subject {
            Some(s) => s,
            None => return,
        };
        let mut subject = s;
        if tree.nodes[s].parent.is_none() {
            match window_from_native(tree, self.native) {
                None => {
                    self.subject = None;
                    return;
                },
                Some(w) => {
                    subject = w;
                },
            }
        }
        let _n = rules[self.pending[self.rule_pos]].commands.len();
        self.subject = Some(subject);
        self.command_pos = self.command_pos + 1;
        self.settle(tree, rules);
    }
}

/// Starts running the rules due for `window` on `event`: those that answer
/// the event, less the run-once rules that already ran on the window. The
/// caller then follows `next_action` and reports each command with
/// `command_done`.
pub fn run_window_rules(
    tree: &mut RootContainer,
    window: usize,
    event: WindowRuleEvent,
    rules: &Vec<WindowRule>,
) -> (r: RuleRun)
    requires
        old(tree).valid(window as int),
        native_of(old(tree).kind_of(window as int)) is Some,
    ensures
        r.pending@ == due_rules(
            rules@,
            event,
            old(tree).nodes[window as int].done_rules@,
            rules@.len() as int,
        ),
        r.subject == Some(window),
        r.native == native_of(old(tree).kind_of(window as int)).unwrap(),
        (r.rule_pos as int, r.command_pos as int) == next_live(rules@, r.pending@, 0, 0),
        recorded(*old(tree), *final(tree), window as int, once_ids(rules@, r.pending@, 0, r.rule_pos as int)),
        r.valid(*final(tree), rules@),
{
    let native = match tree.nodes[window].kind {
        ContainerKind::TilingWindow { native, .. } => native,
        ContainerKind::NonTilingWindow { native, .. } => native,
        _ => 0,
    };
    let _n = rules.len();
    let pending = pending_window_rules(rules, event, &tree.nodes[window].done_rules);
    proof {
        lemma_due_rules_bound(rules@, event, tree.nodes[window as int].done_rules@, rules@.len() as int);
    }
    let mut run = RuleRun { pending, rule_pos: 0, command_pos: 0, subject: Some(window), native };
    run.settle(tree, rules);
    run
}

/// Due rules are positions in the rule list.
proof fn lemma_due_rules_bound(rules: Seq<WindowRule>, event: WindowRuleEvent, done: Seq<u64>, k: int)
    requires
        k <= rules.len(),
        k <= usize::MAX,
    ensures
        forall|j: int| 0 <= j < due_rules(rules, event, done, k).len() ==> #[trigger] due_rules(rules, event, done, k)[j] < k,
    decreases k,
{
    if k > 0 {
        lemma_due_rules_bound(rules, event, done, k - 1);
        let prev = due_rules(rules, event, done, k - 1);
        if rule_due(rules[k - 1], event, done) {
            assert forall|j: int| 0 <= j < prev.push((k - 1) as usize).len() implies #[trigger] prev.push((k - 1) as usize)[j] < k by {
                if j < prev.len() {
                    assert(prev.push((k - 1) as usize)[j] == prev[j]);
                }
            }
        }
    }
}

/// After a command detaches the window, the run goes on with the live
/// container of the same native window: the next command, if any, acts on it.
/// Where no such container is left, the run ends with `WindowGone`, and no
/// further command is handed out.
pub proof fn lemma_detached_subject_resolved(
    before: RuleRun,
    after: RuleRun,
    t: RootContainer,
    t2: RootContainer,
    rules: Seq<WindowRule>,
)
    requires
        before.subject is Some,
        t.parent_of(before.subject.unwrap() as int) is None,
        stepped(before, after, t, t2, rules),
    ensures
        live_window(t, before.native) is None ==> next_action_of(after) == RuleAction::WindowGone
            && t2 == t,
        live_window(t, before.native) matches Some(w) ==> (next_action_of(after) matches RuleAction::RunCommand { subject, .. } ==> subject == w),
        live_window(t, before.native) matches Some(w) ==> (next_action_of(after) matches RuleAction::Finished { window } ==> window == w),
{
}

} // verus!
