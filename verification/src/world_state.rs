use crate::entity::Entity;
use crate::managers::component_manager::TypeKey;
use crate::world::{EntityComponentManager, WorldModel};
use vstd::prelude::*;

verus! {

/// A world behind one type, sized by 32-bit limits: entities, their
/// components, and queries by lists of component types.
pub struct WorldState<C> {
    world: EntityComponentManager<C>,
}

impl<C> View for WorldState<C> {
    type V = WorldModel<C>;

    closed spec fn view(&self) -> WorldModel<C> {
        self.world@
    }
}

impl<C> WorldState<C> {
    /// The invariant of the world.
    pub closed spec fn wf(&self) -> bool {
        self.world.wf()
    }

    /// A sound world has a sound state.
    pub proof fn lemma_wf(&self)
        requires
            self.wf(),
        ensures
            self@.wf(),
    {
        self.world.lemma_wf();
    }

    /// Create new `WorldState`
    ///
    /// # Arguments
    /// * `max_entities` - The maximum entities in the world
    /// * `max_components_type` - The maximum components type in the world.
    /// * `max_components_per_type` - The maximum components of one type.
    pub fn new(max_entities: u32, max_components_type: u32, max_components_per_type: u32) -> (state: WorldState<C>)
        ensures
            state.wf(),
            state@ == WorldModel::<C>::fresh(
                max_entities as nat,
                max_components_type as nat,
                max_components_per_type as nat,
            ),
    {
        WorldState {
            world: EntityComponentManager::new(
                max_entities as usize,
                max_components_type as usize,
                max_components_per_type as usize,
            ),
        }
    }

    /// Create an entity: the identifier on top of the free list becomes
    /// alive; absent where none is free.
    pub fn create_entity(&mut self) -> (entity: Option<Entity>)
        requires
            old(self).wf(),
        ensures
            final(self).wf(),
            entity == old(self)@.roster.next(),
            final(self)@ == old(self)@.create(),
    {
        self.world.create_entity()
    }

    /// Destroy an entity: its components are detached and its signature
    /// cleared, and it goes from the living list back to the free list.
    /// Returns whether it was alive.
    ///
    /// # Arguments
    /// * `entity` - The entity to destroy.
    pub fn destroy_entity(&mut self, entity: &Entity) -> (destroyed: bool)
        requires
            old(self).wf(),
        ensures
            final(self).wf(),
            destroyed == old(self)@.roster.is_living(*entity),
            final(self)@ == old(self)@.destroy(*entity),
    {
        self.world.destroy_entity(entity)
    }

    /// Add a component to an entity. Returns whether it was attached; where
    /// the registry does not accept it, nothing changes.
    ///
    /// # Arguments
    /// * `entity` - The entity on which we want to add the component.
    /// * `key` - The type of the component.
    /// * `component` - The component to be added to entity.
    pub fn add_component(&mut self, entity: &Entity, key: TypeKey, component: C) -> (added: bool)
        requires
            old(self).wf(),
        ensures
            final(self).wf(),
            added == old(self)@.registry.accepts(*entity, key),
            final(self)@ == old(self)@.add(*entity, key, component),
            !added ==> final(self)@ == old(self)@,
    {
        self.world.add_component(entity, key, component)
    }

    /// Remove a component of an entity; nothing happens where it owns none
    /// of that type.
    ///
    /// # Arguments
    /// * `entity` - The entity on which we want to remove the component.
    /// * `key` - The type of the component.
    pub fn rem_component(&mut self, entity: &Entity, key: TypeKey)
        requires
            old(self).wf(),
        ensures
            final(self).wf(),
            final(self)@ == old(self)@.remove(*entity, key),
    {
        self.world.remove_component(entity, key)
    }

    /// Get immutable reference of an entity component.
    ///
    /// # Arguments
    /// * `entity` - The entity that has the component we want to retrieve.
    /// * `key` - The type of the component.
    pub fn get_component_ref(&self, entity: &Entity, key: TypeKey) -> (component: Option<&C>)
        requires
            self.wf(),
        ensures
            component == if self@.registry.has(*entity, key) {
                Some(&self@.registry.components[(*entity, key)])
            } else {
                None
            },
    {
        self.world.get_component(entity, key)
    }

    /// Get mutable reference of an entity component. What is written
    /// through it becomes that component; nothing else changes.
    ///
    /// # Arguments
    /// * `entity` - The entity that has the component we want to retrieve.
    /// * `key` - The type of the component.
    pub fn get_component_mut(&mut self, entity: &Entity, key: TypeKey) -> (component: Option<&mut C>)
        requires
            old(self).wf(),
        ensures
            component.is_some() == old(self)@.registry.has(*entity, key),
            component matches Some(c) ==> {
                &&& *c == old(self)@.registry.components[(*entity, key)]
                &&& final(self)@ == old(self)@.write(*entity, key, *final(c))
            },
            component.is_none() ==> final(self)@ == old(self)@,
            final(self).wf(),
    {
        self.world.get_component_mut(entity, key)
    }

    /// The numeric id of the type `t`: its position in the order of first
    /// use. Absent where the type is not registered.
    pub fn get_type_id(&self, t: &TypeKey) -> (id: Option<usize>)
        requires
            self.wf(),
        ensures
            id == self@.registry.type_id(*t),
            id matches Some(i) ==> i < self@.registry.types.len() && self@.registry.types[i as int] == *t,
    {
        self.world.get_type_id(*t)
    }

    /// The living entities that own a component of every type in `t`, in
    /// allocation order. An entity counts by its signature; a type that is
    /// not registered is owned by nobody.
    pub fn get_entities_with_types(&self, t: Vec<TypeKey>) -> (entities: Vec<Entity>)
        requires
            self.wf(),
        ensures
            entities@ == self@.matching(t@),
    {
        self.world.get_entities_with_types(t.as_slice())
    }

    /// Whether bit `component_id` of the signature of `entity` is set.
    pub fn has_component(&self, entity: &Entity, component_id: usize) -> (owned: bool)
        requires
            self.wf(),
        ensures
            owned == (*entity < self@.registry.max_entities && self@.registry.signature(*entity).contains(
                component_id as nat,
            )),
    {
        self.world.has_component_id(entity, component_id)
    }
}

} // verus!
