use vstd::prelude::*;

verus! {

/// A configured binding mode, known by its name.
#[derive(Debug)]
pub struct BindingModeConfig {
    pub name: String,
}

/// An event for subscribers.
#[derive(Debug)]
pub enum WmEvent {
    /// The active binding modes changed; the full new list, in order.
    BindingModesChanged { new_binding_modes: Vec<BindingModeConfig> },
}

/// The manager state that binding-mode commands act on: the active modes
/// and the events emitted so far, oldest first.
#[derive(Debug)]
pub struct WmState {
    pub binding_modes: Vec<BindingModeConfig>,
    pub events: Vec<WmEvent>,
}

/// The names of the first `k` modes, less those named `name`.
pub open spec fn names_without(modes: Seq<BindingModeConfig>, name: Seq<char>, k: int) -> Seq<Seq<char>>
    decreases k,
{
    if k <= 0 {
        Seq::empty()
    } else if modes[k - 1].name@ == name {
        names_without(modes, name, k - 1)
    } else {
        names_without(modes, name, k - 1).push(modes[k - 1].name@)
    }
}

pub open spec fn names_of(modes: Seq<BindingModeConfig>) -> Seq<Seq<char>> {
    modes.map_values(|m: BindingModeConfig| m.name@)
}

/// A copy of the modes.
fn copy_modes(modes: &Vec<BindingModeConfig>) -> (r: Vec<BindingModeConfig>)
    ensures
        names_of(r@) == names_of(modes@),
{
    let mut r: Vec<BindingModeConfig> = Vec::new();
    let mut i: usize = 0;
    while i < modes.len()
        invariant
            i <= modes@.len(),
            r@.len() == i,
            forall|k: int| 0 <= k < i ==> #[trigger] r@[k].name@ == modes@[k].name@,
        decreases modes.len() - i,
    {
        r.push(BindingModeConfig { name: modes[i].name.clone() });
        i = i + 1;
    }
    assert(names_of(r@) =~= names_of(modes@));
    r
}

/// Turns off the binding mode `name`: every active mode of that name leaves
/// the list, the others keep their order, and an event with the new list is
/// emitted.
pub fn disable_binding_mode(name: &str, state: &mut WmState)
    ensures
        names_of(final(state).binding_modes@) == names_without(
            old(state).binding_modes@,
            name@,
            old(state).binding_modes@.len() as int,
        ),
        final(state).events@.len() == old(state).events@.len() + 1,
        final(state).events@.take(old(state).events@.len() as int) == old(state).events@,
        final(state).events@.last() matches WmEvent::BindingModesChanged { new_binding_modes }
            && names_of(new_binding_modes@) == names_of(final(state).binding_modes@),
{
    broadcast use vstd::string::to_string_from_display_ensures_for_str;

    let target = name.to_string();
    let mut kept: Vec<BindingModeConfig> = Vec::new();
    let mut i: usize = 0;
    while i < state.binding_modes.len()
        invariant
            i <= state.binding_modes@.len(),
            target@ == name@,
            state.binding_modes == old(state).binding_modes,
            state.events == old(state).events,
            names_of(kept@) == names_without(state.binding_modes@, name@, i as int),
        decreases state.binding_modes.len() - i,
    {
        if state.binding_modes[i].name != target {
            kept.push(BindingModeConfig { name: state.binding_modes[i].name.clone() });
            assert(names_of(kept@) =~= names_without(state.binding_modes@, name@, i + 1));
        }
        i = i + 1;
    }
    state.binding_modes = kept;
    let copy = copy_modes(&state.binding_modes);
    let ghost before = state.events@;
    state.events.push(WmEvent::BindingModesChanged { new_binding_modes: copy });
    assert(state.events@.take(before.len() as int) =~= before);
}

} // verus!
