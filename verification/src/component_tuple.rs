use crate::entity::Entity;
use crate::managers::component_manager::TypeKey;
use crate::world_state::WorldState;
use vstd::prelude::*;

verus! {

/// A list of component types as a query on a [`WorldState`].
pub trait ComponentTuple {
    /// The types asked for.
    spec fn type_keys(&self) -> Seq<TypeKey>;

    /// The living entities that own a component of every type of the list,
    /// in allocation order.
    fn get_entities<C>(&self, world_state: &WorldState<C>) -> (entities: Vec<Entity>)
        requires
            world_state.wf(),
        ensures
            entities@ == world_state@.matching(self.type_keys()),
    ;

    /// The first of them; absent where there is none.
    fn get_single_entity<C>(&self, world_state: &WorldState<C>) -> (entity: Option<Entity>)
        requires
            world_state.wf(),
        ensures
            entity == world_state@.first_matching(self.type_keys()),
    ;
}

impl ComponentTuple for Vec<TypeKey> {
    open spec fn type_keys(&self) -> Seq<TypeKey> {
        self@
    }

    fn get_entities<C>(&self, world_state: &WorldState<C>) -> (entities: Vec<Entity>) {
        let mut types: Vec<TypeKey> = Vec::new();
        let mut i: usize = 0;
        while i < self.len()
            invariant
                i <= self@.len(),
                types@ == self@.take(i as int),
            decreases self@.len() - i,
        {
            types.push(self[i]);
            i = i + 1;
        }
        assert(types@ =~= self@);
        world_state.get_entities_with_types(types)
    }

    fn get_single_entity<C>(&self, world_state: &WorldState<C>) -> (entity: Option<Entity>) {
        let entities = self.get_entities(world_state);
        if entities.len() == 0 {
            None
        } else {
            Some(entities[0])
        }
    }
}

} // verus!
