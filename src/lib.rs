//! Decision-making core of a tiling window manager: sizing values, the
//! container tree held in an arena, directional focus resolution, split
//! flattening, and the window-rule pipeline.

pub mod binding_mode;
pub mod delta;
pub mod error;
pub mod flatten;
pub mod focus;
pub mod length_value;
pub mod pending_sync;
pub mod root;
pub mod rules;
pub mod tree;
pub mod vec_ext;

pub use binding_mode::{disable_binding_mode, BindingModeConfig, WmEvent, WmState};
pub use delta::Delta;
pub use error::WmError;
pub use flatten::flatten_split_container;
pub use focus::{
    floating_focus_target, focus_in_direction, monitor_of_container, set_focused_descendant,
    tiling_focus_target, workspace_focus_target, Capability,
};
pub use length_value::{Fraction, LengthUnit, LengthValue, MAX_MAGNITUDE};
pub use pending_sync::PendingSync;
pub use root::{ContainerDto, Rect};
pub use rules::{run_window_rules, RuleAction, RuleRun, WindowRule, WindowRuleEvent};
pub use tree::{
    ContainerKind, Direction, Node, RootContainer, TilingDirection, WindowState, SIZE_SCALE,
};
pub use vec_ext::VecDequeExt;
