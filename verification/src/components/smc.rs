use crate::managers::component_manager::TypeKey;
use vstd::prelude::*;

verus! {

/// The component of the scheduler's control entity.
pub struct SystemManagerComponent {
    /// Set by any system that wants the frame loop to end.
    pub shutdown: bool,
}

/// What a world run by a scheduler stores as a component: the scheduler's
/// own control component, or a value of the user's component type.
pub enum Component<C> {
    Manager(SystemManagerComponent),
    User(C),
}

/// The type key under which the scheduler keeps its control component.
pub const MANAGER_TYPE: TypeKey = 0xffff_ffff_ffff_ffff;

} // verus!
