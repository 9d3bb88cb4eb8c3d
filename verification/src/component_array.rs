use crate::entity::Entity;
use vstd::prelude::*;

verus! {

/// The index arrays of a store: which slot an entity has, and which entity
/// owns a slot.
pub struct Layout {
    /// The slot of every entity index that the store was made for. An entry
    /// counts only while the slot it names is live and names the entity
    /// back; every other entry is stale.
    pub slots: Seq<usize>,
    /// The owners of the live slots, in slot order.
    pub owners: Seq<Entity>,
    /// The bound on the number of live slots.
    pub capacity: nat,
}

impl Layout {
    /// The layout of an empty store for `entities` entity indices and at
    /// most `capacity` components: every slot entry is zero, and no slot is
    /// live.
    pub open spec fn fresh(entities: nat, capacity: nat) -> Layout {
        Layout { slots: Seq::new(entities, |i: int| 0usize), owners: Seq::empty(), capacity }
    }

    /// No more slots are live than the capacity allows, and the owner of
    /// every live slot is mapped back to that slot.
    pub open spec fn wf(self) -> bool {
        &&& self.owners.len() <= self.capacity <= usize::MAX
        &&& forall|i: int|
            0 <= i < self.owners.len() ==> (#[trigger] self.owners[i]) < self.slots.len()
                && self.slots[self.owners[i] as int] == i
    }

    /// Whether `entity` has a live slot that names it back.
    pub open spec fn owns(self, entity: Entity) -> bool {
        &&& entity < self.slots.len()
        &&& self.slots[entity as int] < self.owners.len()
        &&& self.owners[self.slots[entity as int] as int] == entity
    }

    /// Whether `entity` can be given a component: its index is one the
    /// store was made for, it owns no slot yet, and a slot is free.
    pub open spec fn accepts(self, entity: Entity) -> bool {
        &&& entity < self.slots.len()
        &&& !self.owns(entity)
        &&& self.owners.len() < self.capacity
    }

    /// The layout after an addition for `entity`: where it is accepted, the
    /// entity gets the slot behind the last live one, so that its slot is
    /// the number of slots that were live; otherwise nothing changes.
    pub open spec fn add(self, entity: Entity) -> Layout {
        if self.accepts(entity) {
            Layout {
                slots: self.slots.update(entity as int, self.owners.len() as usize),
                owners: self.owners.push(entity),
                ..self
            }
        } else {
            self
        }
    }

    /// The layout after the component of `entity` was removed by
    /// swap-removal: the owner of the last slot takes the freed slot, and
    /// the last slot goes. The entry of `entity` stays behind, stale.
    pub open spec fn remove(self, entity: Entity) -> Layout {
        if self.owns(entity) {
            let freed = self.slots[entity as int];
            let last = self.owners.last();
            Layout {
                slots: self.slots.update(last as int, freed),
                owners: self.owners.update(freed as int, last).drop_last(),
                ..self
            }
        } else {
            self
        }
    }

    /// Adding keeps a layout well formed and its sizes, appends where the
    /// entity is accepted, and changes no one else: the new owner has the
    /// slot that was the count, and every earlier owner keeps its slot.
    pub proof fn lemma_add(self, entity: Entity)
        requires
            self.wf(),
        ensures
            self.add(entity).wf(),
            self.add(entity).slots.len() == self.slots.len(),
            self.add(entity).capacity == self.capacity,
            self.add(entity).owns(entity) == (self.accepts(entity) || self.owns(entity)),
            self.accepts(entity) ==> {
                &&& self.add(entity).owners.len() == self.owners.len() + 1
                &&& self.add(entity).slots[entity as int] == self.owners.len()
                &&& self.add(entity).owners[self.owners.len() as int] == entity
            },
            !self.accepts(entity) ==> self.add(entity) == self,
            forall|other: Entity| other != entity ==> self.add(entity).owns(other) == self.owns(other),
            forall|other: Entity|
                other != entity && self.owns(other) ==> self.add(entity).slots[other as int]
                    == self.slots[other as int],
    {
    }

    /// Removing keeps a layout well formed and its sizes, ends the
    /// ownership of the entity, and changes no other ownership.
    pub proof fn lemma_remove(self, entity: Entity)
        requires
            self.wf(),
        ensures
            self.remove(entity).wf(),
            self.remove(entity).slots.len() == self.slots.len(),
            self.remove(entity).capacity == self.capacity,
            !self.remove(entity).owns(entity),
            forall|other: Entity| other != entity ==> self.remove(entity).owns(other) == self.owns(other),
            forall|other: Entity|
                other != entity && self.owns(other) && other != self.owners.last() ==> self.remove(
                    entity,
                ).slots[other as int] == self.slots[other as int],
            self.owns(entity) && self.owners.last() != entity ==> self.remove(entity).slots[self.owners.last() as int]
                == self.slots[entity as int],
    {
    }
}

/// Dense storage for the components of one type.
///
/// The components lie packed in `components`. Two index arrays tie them to
/// their owners: `entity_to_component`, as long as the number of entities,
/// gives the slot of an entity; `component_to_entity`, as long as the
/// capacity, gives the owner of a slot.
pub struct ComponentArray<T> {
    /// An array that contains the component
    /// index of each entities. The index of
    /// this array is an `Entity`.
    entity_to_component: Vec<usize>,
    /// An array that contains the entity index
    /// from a component index.
    component_to_entity: Vec<Entity>,
    /// The component of each entities.
    components: Vec<T>,
}

impl<T> View for ComponentArray<T> {
    type V = Map<Entity, T>;

    /// The components by owner.
    closed spec fn view(&self) -> Map<Entity, T> {
        Map::new(
            |e: Entity| self.layout().owns(e),
            |e: Entity| self.components@[self.entity_to_component@[e as int] as int],
        )
    }
}

impl<T> ComponentArray<T> {
    /// The index arrays of the store.
    pub closed spec fn layout(&self) -> Layout {
        Layout {
            slots: self.entity_to_component@,
            owners: self.component_to_entity@.take(self.components@.len() as int),
            capacity: self.component_to_entity@.len(),
        }
    }

    /// The configured capacity: the bound on the number of components.
    pub open spec fn capacity(&self) -> nat {
        self.layout().capacity
    }

    /// The number of entity indices that the store was made for.
    pub open spec fn entities(&self) -> nat {
        self.layout().slots.len()
    }

    /// The number of components stored.
    pub open spec fn len(&self) -> nat {
        self.layout().owners.len()
    }

    /// The invariant of the store: no more components are stored than the
    /// capacity allows, and the layout is well formed.
    pub closed spec fn wf(&self) -> bool {
        &&& self.components@.len() <= self.component_to_entity@.len()
        &&& self.layout().wf()
    }

    /// A sound store has a sound layout, and it holds a component for
    /// exactly the entities that its layout makes owners: an entity that
    /// owns a component has a live slot, and that slot names it back.
    pub proof fn lemma_view(&self)
        ensures
            self.wf() ==> self.layout().wf(),
            forall|e: Entity| self@.contains_key(e) <==> self.layout().owns(e),
            self.len() == 0 ==> self@ == Map::<Entity, T>::empty(),
    {
    }

    /// Create new `ComponentArray` for as many entities as components.
    ///
    /// # Arguments
    /// * `max_components` - The maximum components can be store the `ComponentArray`.
    pub fn new(max_components: usize) -> (array: Self)
        ensures
            array.wf(),
            array.layout() == Layout::fresh(max_components as nat, max_components as nat),
            array@ == Map::<Entity, T>::empty(),
    {
        Self::with_entities(max_components, max_components)
    }

    /// Create new `ComponentArray`
    ///
    /// # Arguments
    /// * `max_entities` - The number of entity indices, from zero on, that may own a component.
    /// * `max_components` - The maximum components can be store the `ComponentArray`.
    pub fn with_entities(max_entities: usize, max_components: usize) -> (array: Self)
        ensures
            array.wf(),
            array.layout() == Layout::fresh(max_entities as nat, max_components as nat),
            array@ == Map::<Entity, T>::empty(),
    {
        let mut etc: Vec<usize> = Vec::new();
        let mut n: usize = 0;
        while n < max_entities
            invariant
                n <= max_entities,
                etc@ == Seq::new(n as nat, |i: int| 0usize),
            decreases max_entities - n,
        {
            etc.push(0);
            n = n + 1;
        }
        let mut cte: Vec<usize> = Vec::new();
        let mut m: usize = 0;
        while m < max_components
            invariant
                m <= max_components,
                cte@.len() == m,
            decreases max_components - m,
        {
            cte.push(0);
            m = m + 1;
        }
        let array = Self { entity_to_component: etc, component_to_entity: cte, components: Vec::new() };
        proof {
            assert(array.layout().owners =~= Seq::<Entity>::empty());
        }
        array
    }

    /// The live slot of `entity`, if it owns one.
    fn slot_of(&self, entity: Entity) -> (slot: Option<usize>)
        requires
            self.wf(),
        ensures
            slot.is_some() == self.layout().owns(entity),
            slot matches Some(s) ==> s == self.entity_to_component@[entity as int],
    {
        if entity >= self.entity_to_component.len() {
            return None;
        }
        let slot = self.entity_to_component[entity];
        if slot < self.components.len() && self.component_to_entity[slot] == entity {
            Some(slot)
        } else {
            None
        }
    }

    /// Add a component to an entity: the component is appended to the dense
    /// array, and the new slot, which is the number of components that were
    /// stored, is recorded in both index arrays. Fails, changing nothing, if
    /// the entity index is not one the store was made for, if the entity
    /// owns a component here already, or if no slot is free.
    ///
    /// # Arguments
    /// * `entity` - The entity.
    /// * `component` - The component to add.
    pub fn add_component(&mut self, entity: &Entity, component: T) -> (added: bool)
        requires
            old(self).wf(),
        ensures
            final(self).wf(),
            added == old(self).layout().accepts(*entity),
            final(self).layout() == old(self).layout().add(*entity),
            added ==> {
                &&& final(self)@ == old(self)@.insert(*entity, component)
                &&& final(self).len() == old(self).len() + 1
                &&& final(self).layout().slots[*entity as int] == old(self).len()
                &&& final(self).layout().owners[old(self).len() as int] == *entity
            },
            !added ==> *final(self) == *old(self),
    {
        let e = *entity;
        if e >= self.entity_to_component.len() {
            return false;
        }
        if self.slot_of(e).is_some() {
            return false;
        }
        let component_index = self.components.len();
        if component_index >= self.component_to_entity.len() {
            return false;
        }
        self.components.push(component);
        self.entity_to_component[e] = component_index;
        self.component_to_entity[component_index] = e;
        assert(self.layout().owners =~= old(self).layout().owners.push(e));
        true
    }

    /// Remove an entity component by swap-removal: the component in the last
    /// slot moves into the freed slot and the dense array shrinks by one.
    /// Returns whether `entity` owned a component; where it did not, nothing
    /// changes.
    ///
    /// # Arguments
    /// * `entity` - The entity that has the component to remove.
    pub fn rem_component(&mut self, entity: &Entity) -> (removed: bool)
        requires
            old(self).wf(),
        ensures
            final(self).wf(),
            removed == old(self)@.contains_key(*entity),
            final(self).layout() == old(self).layout().remove(*entity),
            final(self)@ == old(self)@.remove(*entity),
            forall|other: Entity|
                other != *entity && old(self)@.contains_key(other) ==> #[trigger] final(self)@.contains_key(other)
                    && final(self)@[other] == old(self)@[other],
    {
        let e = *entity;
        match self.slot_of(e) {
            None => false,
            Some(curr_component_index) => {
                // The last component index
                let last_component_index = self.components.len() - 1;
                // The last component entity
                let last_entity = self.component_to_entity[last_component_index];
                assert(self.layout().owners[last_component_index as int] == last_entity);
                // Move the last component into the freed slot
                self.components.swap_remove(curr_component_index);
                // Update the last component index
                self.entity_to_component[last_entity] = curr_component_index;
                self.component_to_entity[curr_component_index] = last_entity;
                assert(self.layout().owners =~= old(self).layout().owners.update(
                    curr_component_index as int,
                    last_entity,
                ).drop_last());
                true
            },
        }
    }

    /// Get immutable reference to an entity component; absent where the
    /// entity owns none here.
    ///
    /// # Arguments
    /// * `entity` - The entity that own the component.
    pub fn get_component(&self, entity: &Entity) -> (component: Option<&T>)
        requires
            self.wf(),
        ensures
            component == if self@.contains_key(*entity) {
                Some(&self@[*entity])
            } else {
                None
            },
    {
        match self.slot_of(*entity) {
            Some(slot) => Some(&self.components[slot]),
            None => None,
        }
    }

    /// Get mutable reference to an entity component; absent where the entity
    /// owns none here. What is written through the reference becomes the
    /// entity's component; nothing else changes.
    ///
    /// # Arguments
    /// * `entity` - The entity that own the component.
    pub fn get_component_mut(&mut self, entity: &Entity) -> (component: Option<&mut T>)
        requires
            old(self).wf(),
        ensures
            component.is_some() == old(self)@.contains_key(*entity),
            component matches Some(c) ==> {
                &&& *c == old(self)@[*entity]
                &&& final(self)@ == old(self)@.insert(*entity, *final(c))
            },
            component.is_none() ==> final(self)@ == old(self)@,
            final(self).wf(),
            final(self).layout() == old(self).layout(),
    {
        match self.slot_of(*entity) {
            Some(slot) => Some(&mut self.components[slot]),
            None => None,
        }
    }

    /// The raw array of slots by entity. It has one entry for every entity
    /// index that the store was made for, and holds stale entries for
    /// entities that own no component, so membership is to be checked
    /// elsewhere.
    pub fn get_entities(&self) -> (slots: &Vec<Entity>)
        ensures
            slots@ == self.layout().slots,
    {
        &self.entity_to_component
    }
}

} // verus!
