use vstd::prelude::*;

pub mod id;
pub mod lemmas;
pub mod group;
pub mod toast;

pub use group::{group_by_position, PositionGroups};
pub use id::ID;
pub use toast::{Icon, Position, ToastInfo, ToastManager, ToastManagerItem};

verus! {

} // verus!
