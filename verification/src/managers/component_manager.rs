use crate::component_array::{ComponentArray, Layout};
use crate::entity::Entity;
use crate::signature::{bitset_ones, bitset_size};
use bitset::BitSet;
use std::collections::HashMap;
use vstd::prelude::*;

verus! {

/// The identity of a component type: a token that the caller picks once per
/// type and passes wherever the type is meant.
pub type TypeKey = u64;

/// The mathematical state of a [`ComponentsManager`].
pub struct Registry<C> {
    /// The bound on entity indices.
    pub max_entities: nat,
    /// The bound on the number of registered component types.
    pub max_types: nat,
    /// The bound on the number of components of each type.
    pub max_per_type: nat,
    /// The registered types in the order of their first use: the position of
    /// a type is its numeric type id.
    pub types: Seq<TypeKey>,
    /// The index arrays of the store of each type, by numeric type id.
    pub layouts: Seq<Layout>,
    /// The live components by owner and type.
    pub components: Map<(Entity, TypeKey), C>,
}

impl<C> Registry<C> {
    /// No type is registered twice, no more types than the bound allows,
    /// every type has a well-formed store layout of the configured sizes,
    /// every component belongs to an entity within bounds and to a
    /// registered type, and an entity owns a component of a type exactly
    /// when the layout of that type's store makes it an owner.
    pub open spec fn wf(self) -> bool {
        &&& self.types.no_duplicates()
        &&& self.types.len() <= self.max_types
        &&& self.max_per_type <= usize::MAX
        &&& self.layouts.len() == self.types.len()
        &&& forall|id: int|
            0 <= id < self.layouts.len() ==> {
                &&& (#[trigger] self.layouts[id]).wf()
                &&& self.layouts[id].slots.len() == self.max_entities
                &&& self.layouts[id].capacity == self.max_per_type
            }
        &&& forall|e: Entity, k: TypeKey| #[trigger]
            self.components.contains_key((e, k)) ==> e < self.max_entities && self.types.contains(k)
        &&& forall|e: Entity, id: int|
            0 <= id < self.types.len() ==> (self.components.contains_key((e, #[trigger] self.types[id]))
                <==> #[trigger] self.layouts[id].owns(e))
    }

    /// The registry of a fresh manager: no type, no component.
    pub open spec fn fresh(max_entities: nat, max_types: nat, max_per_type: nat) -> Self {
        Registry {
            max_entities,
            max_types,
            max_per_type,
            types: Seq::empty(),
            layouts: Seq::empty(),
            components: Map::empty(),
        }
    }

    /// Whether `entity` owns a component of type `key`.
    pub open spec fn has(self, entity: Entity, key: TypeKey) -> bool {
        self.components.contains_key((entity, key))
    }

    /// The numeric id of type `key`, if it is registered.
    pub open spec fn type_id(self, key: TypeKey) -> Option<usize> {
        if self.types.contains(key) {
            Some(self.types.index_of(key) as usize)
        } else {
            None
        }
    }

    /// The number of components of type `key`: the number of live slots of
    /// the store of that type, and zero for a type that is not registered.
    pub open spec fn count(self, key: TypeKey) -> nat {
        if self.types.contains(key) {
            self.layouts[self.types.index_of(key)].owners.len()
        } else {
            0
        }
    }

    /// Whether a component of type `key` can be attached to `entity`: the
    /// entity is within bounds and owns no such component yet, a slot for
    /// the type is free, and the type is registered or can still be.
    pub open spec fn accepts(self, entity: Entity, key: TypeKey) -> bool {
        &&& entity < self.max_entities
        &&& !self.has(entity, key)
        &&& self.count(key) < self.max_per_type
        &&& (self.types.contains(key) || self.types.len() < self.max_types)
    }

    /// The registry after attaching `component` of type `key` to `entity`:
    /// unchanged where that is not accepted; otherwise the type is
    /// registered on first use, with an empty store, and the component
    /// takes the slot behind the last live one of that store.
    pub open spec fn add(self, entity: Entity, key: TypeKey, component: C) -> Self {
        if self.accepts(entity, key) {
            if self.types.contains(key) {
                let id = self.types.index_of(key);
                Registry {
                    layouts: self.layouts.update(id, self.layouts[id].add(entity)),
                    components: self.components.insert((entity, key), component),
                    ..self
                }
            } else {
                Registry {
                    types: self.types.push(key),
                    layouts: self.layouts.push(Layout::fresh(self.max_entities, self.max_per_type).add(entity)),
                    components: self.components.insert((entity, key), component),
                    ..self
                }
            }
        } else {
            self
        }
    }

    /// The registry after the component of type `key` that `entity` owns
    /// was overwritten with `component`.
    pub open spec fn write(self, entity: Entity, key: TypeKey, component: C) -> Self {
        Registry { components: self.components.insert((entity, key), component), ..self }
    }

    /// The registry after detaching the component of type `key` from
    /// `entity`, by swap-removal in the store of that type. The type stays
    /// registered.
    pub open spec fn remove(self, entity: Entity, key: TypeKey) -> Self {
        if self.types.contains(key) {
            let id = self.types.index_of(key);
            Registry {
                layouts: self.layouts.update(id, self.layouts[id].remove(entity)),
                components: self.components.remove((entity, key)),
                ..self
            }
        } else {
            Registry { components: self.components.remove((entity, key)), ..self }
        }
    }

    /// The registry after detaching every component of `entity`.
    pub open spec fn clear(self, entity: Entity) -> Self {
        Registry {
            layouts: Seq::new(self.layouts.len(), |id: int| self.layouts[id].remove(entity)),
            components: Map::new(
                |p: (Entity, TypeKey)| p.0 != entity && self.components.contains_key(p),
                |p: (Entity, TypeKey)| self.components[p],
            ),
            ..self
        }
    }

    /// In a well-formed registry a component is accepted exactly when the
    /// layout of its type's store accepts the entity, or, for a type that
    /// is not registered, when the type and one component of it fit.
    pub proof fn lemma_accepts(self, entity: Entity, key: TypeKey)
        requires
            self.wf(),
        ensures
            self.accepts(entity, key) == if self.types.contains(key) {
                self.layouts[self.types.index_of(key)].accepts(entity)
            } else {
                entity < self.max_entities && self.types.len() < self.max_types && 0 < self.max_per_type
            },
    {
        if self.types.contains(key) {
            let id = self.types.index_of(key);
            assert(self.types[id] == key);
            assert(self.components.contains_key((entity, self.types[id])) <==> self.layouts[id].owns(entity));
        }
    }

    /// The signature of `entity`: the numeric ids of the types it owns a
    /// component of.
    pub open spec fn signature(self, entity: Entity) -> Set<nat> {
        Set::new(|id: nat| id < self.types.len() && self.has(entity, self.types[id as int]))
    }

    /// Whether `entity` owns a component of every type in `keys`.
    pub open spec fn has_all(self, entity: Entity, keys: Seq<TypeKey>) -> bool {
        forall|i: int| 0 <= i < keys.len() ==> self.has(entity, #[trigger] keys[i])
    }
}

pub struct ComponentsManager<C> {
    /// An array that store different type of components array.
    components_arrays: Vec<ComponentArray<C>>,
    // Hashmap that contains the id of each type of components.
    components_arrays_id: HashMap<TypeKey, usize>,
    /// An array that store the entities signature.
    signatures: Vec<BitSet>,
    /// The maximum amount of components type.
    max_components_type: usize,
    /// The maximum amount of components per types.
    max_components_per_types: usize,
    /// The registered types by numeric id.
    type_keys: Ghost<Seq<TypeKey>>,
}

impl<C> View for ComponentsManager<C> {
    type V = Registry<C>;

    closed spec fn view(&self) -> Registry<C> {
        Registry {
            max_entities: self.signatures@.len(),
            max_types: self.max_components_type as nat,
            max_per_type: self.max_components_per_types as nat,
            types: self.type_keys@,
            layouts: Seq::new(self.components_arrays@.len(), |id: int| self.store(id).layout()),
            components: Map::new(
                |p: (Entity, TypeKey)| self.holds(p.0, p.1),
                |p: (Entity, TypeKey)| self.store(self.components_arrays_id@[p.1] as int)@[p.0],
            ),
        }
    }
}

impl<C> ComponentsManager<C> {
    /// The store with numeric id `id`.
    spec fn store(&self, id: int) -> ComponentArray<C> {
        self.components_arrays@[id]
    }

    /// Whether the store of type `key` exists and holds a component of
    /// `entity`.
    spec fn holds(&self, entity: Entity, key: TypeKey) -> bool {
        &&& self.components_arrays_id@.contains_key(key)
        &&& self.store(self.components_arrays_id@[key] as int)@.contains_key(entity)
    }

    /// The registry of type ids agrees with the list of types, and every
    /// store is sound and of the configured sizes.
    spec fn stores_wf(&self) -> bool {
        &&& self.type_keys@.len() == self.components_arrays@.len()
        &&& self.type_keys@.len() <= self.max_components_type
        &&& self.type_keys@.no_duplicates()
        &&& forall|k: TypeKey|
            self.components_arrays_id@.contains_key(k) <==> self.type_keys@.contains(k)
        &&& forall|k: TypeKey| #[trigger]
            self.components_arrays_id@.contains_key(k) ==> {
                &&& self.components_arrays_id@[k] < self.components_arrays@.len()
                &&& self.type_keys@[self.components_arrays_id@[k] as int] == k
            }
        &&& forall|id: int|
            0 <= id < self.components_arrays@.len() ==> {
                &&& (#[trigger] self.store(id)).wf()
                &&& self.store(id).capacity() == self.max_components_per_types
                &&& self.store(id).entities() == self.signatures@.len()
            }
        &&& forall|id: int, e: Entity|
            0 <= id < self.components_arrays@.len() && #[trigger] self.store(id)@.contains_key(e)
                ==> e < self.signatures@.len()
        &&& forall|e: int|
            0 <= e < self.signatures@.len() ==> bitset_size(#[trigger] self.signatures@[e])
                == self.max_components_type
    }

    /// The signature of `entity` agrees with the stores from numeric id
    /// `from` on, and the stores below `from` hold nothing of `entity`.
    spec fn signature_ok(&self, entity: Entity, from: int) -> bool {
        forall|id: nat|
            {
                &&& id >= from ==> (#[trigger] bitset_ones(self.signatures@[entity as int]).contains(id) <==> id
                    < self.components_arrays@.len() && self.store(id as int)@.contains_key(entity))
                &&& id < from && id < self.components_arrays@.len() ==> !self.store(id as int)@.contains_key(
                    entity,
                )
            }
    }

    /// The invariant of the manager: the stores are sound, and bit `i` of an
    /// entity's signature is set exactly when the entity owns a component
    /// in the store with numeric id `i`.
    pub closed spec fn wf(&self) -> bool {
        &&& self.stores_wf()
        &&& forall|e: Entity| e < self.signatures@.len() ==> #[trigger] self.signature_ok(e, 0)
    }

    /// The signature bits of `entity`, as the bit set holds them.
    pub closed spec fn signature_bits(&self, entity: Entity) -> Set<nat> {
        bitset_ones(self.signatures@[entity as int])
    }

    /// The type with numeric id `id` is registered under that id.
    proof fn lemma_id_of(&self, id: int)
        requires
            self.stores_wf(),
            0 <= id < self.type_keys@.len(),
        ensures
            self.components_arrays_id@.contains_key(self.type_keys@[id]),
            self.components_arrays_id@[self.type_keys@[id]] == id,
            self.type_keys@.index_of(self.type_keys@[id]) == id,
    {
        let k = self.type_keys@[id];
        assert(self.type_keys@.contains(k));
        let i = self.type_keys@.index_of(k);
    }

    /// A sound manager has a sound registry, and the signature of every
    /// entity within bounds holds exactly the ids of the types it owns.
    pub proof fn lemma_wf(&self)
        requires
            self.wf(),
        ensures
            self@.wf(),
            forall|e: Entity| e < self@.max_entities ==> #[trigger] self.signature_bits(e) == self@.signature(e),
    {
        assert forall|id: int| 0 <= id < self@.layouts.len() implies (#[trigger] self@.layouts[id]).wf()
            && self@.layouts[id].slots.len() == self@.max_entities && self@.layouts[id].capacity
            == self@.max_per_type by {
            self.store(id).lemma_view();
        }
        assert forall|e: Entity, id: int| 0 <= id < self@.types.len() implies (self@.components.contains_key(
            (e, #[trigger] self@.types[id]),
        ) <==> #[trigger] self@.layouts[id].owns(e)) by {
            self.lemma_id_of(id);
            self.store(id).lemma_view();
        }
        assert forall|e: Entity| e < self@.max_entities implies #[trigger] self.signature_bits(e)
            == self@.signature(e) by {
            assert(self.signature_ok(e, 0));
            assert forall|id: nat| self.signature_bits(e).contains(id) <==> self@.signature(e).contains(id) by {
                if id < self.type_keys@.len() {
                    let k = self.type_keys@[id as int];
                    assert(self.type_keys@.contains(k));
                }
            }
        }
    }

    /// Create new `ComponentsManager`. No component type is registered: the
    /// store of a type is made when the type is first used.
    /// # Arguments
    /// * `max_entities` - The maximum amount of entities.
    /// * `max_components_type` - The maximum amount of components type.
    /// * `max_components_per_types` - The maximum amount of components per types.
    pub fn new(max_entities: usize, max_components_type: usize, max_components_per_types: usize) -> (manager: Self)
        ensures
            manager.wf(),
            manager@ == Registry::<C>::fresh(
                max_entities as nat,
                max_components_type as nat,
                max_components_per_types as nat,
            ),
    {
        // Init the entities signature
        let mut signatures: Vec<BitSet> = Vec::new();
        let mut n: usize = 0;
        while n < max_entities
            invariant
                n <= max_entities,
                signatures@.len() == n,
                forall|e: int|
                    0 <= e < n ==> bitset_size(#[trigger] signatures@[e]) == max_components_type
                        && bitset_ones(signatures@[e]) == Set::<nat>::empty(),
            decreases max_entities - n,
        {
            signatures.push(BitSet::with_capacity(max_components_type));
            n = n + 1;
        }
        let manager = Self {
            components_arrays: Vec::new(),
            components_arrays_id: HashMap::new(),
            signatures,
            max_components_type,
            max_components_per_types,
            type_keys: Ghost(Seq::empty()),
        };
        proof {
            assert(manager@.components =~= Map::<(Entity, TypeKey), C>::empty());
            assert(manager@.layouts =~= Seq::<Layout>::empty());
        }
        manager
    }

    /// The numeric id of the type `key`, if it is registered.
    pub fn get_type_id(&self, key: TypeKey) -> (id: Option<usize>)
        requires
            self.wf(),
        ensures
            id == self@.type_id(key),
            id matches Some(i) ==> i < self@.types.len() && self@.types[i as int] == key,
    {
        match self.components_arrays_id.get(&key) {
            Some(id) => {
                proof {
                    let i = self.type_keys@.index_of(key);
                }
                Some(*id)
            },
            None => None,
        }
    }

    /// Whether `entity` owns a component of type `key`, read off the
    /// entity's signature.
    pub fn has_component(&self, entity: &Entity, key: TypeKey) -> (owned: bool)
        requires
            self.wf(),
        ensures
            owned == self@.has(*entity, key),
    {
        let e = *entity;
        if e >= self.signatures.len() {
            return false;
        }
        match self.get_type_id(key) {
            Some(id) => {
                assert(self.signature_ok(e, 0));
                self.signatures[e].test(id)
            },
            None => false,
        }
    }

    /// Whether bit `component_id` of the signature of `entity` is set: whether
    /// the entity owns a component of the type with that numeric id. An
    /// entity or an id out of bounds owns nothing.
    pub fn has_component_id(&self, entity: &Entity, component_id: usize) -> (owned: bool)
        requires
            self.wf(),
        ensures
            owned == (*entity < self@.max_entities && self@.signature(*entity).contains(component_id as nat)),
    {
        let e = *entity;
        proof {
            self.lemma_wf();
        }
        if e >= self.signatures.len() || component_id >= self.components_arrays.len() {
            return false;
        }
        proof {
            assert(self.signature_bits(e) == self@.signature(e));
        }
        self.signatures[e].test(component_id)
    }

    /// Register the type `key`: an empty store is made for it, and it gets
    /// the next numeric id.
    fn register(&mut self, key: TypeKey) -> (id: usize)
        requires
            old(self).wf(),
            !old(self)@.types.contains(key),
            old(self)@.types.len() < old(self)@.max_types,
        ensures
            final(self).wf(),
            id == old(self)@.types.len(),
            final(self)@ == (Registry {
                types: old(self)@.types.push(key),
                layouts: old(self)@.layouts.push(Layout::fresh(old(self)@.max_entities, old(self)@.max_per_type)),
                ..old(self)@
            }),
    {
        let id = self.components_arrays.len();
        let array: ComponentArray<C> = ComponentArray::with_entities(
            self.signatures.len(),
            self.max_components_per_types,
        );
        self.components_arrays.push(array);
        self.components_arrays_id.insert(key, id);
        proof {
            self.type_keys@ = self.type_keys@.push(key);
            assert forall|k: TypeKey| self.components_arrays_id@.contains_key(k)
                <==> self.type_keys@.contains(k) by {
                if k == key {
                    assert(self.type_keys@[id as int] == key);
                } else if old(self).type_keys@.contains(k) {
                    let i = old(self).type_keys@.index_of(k);
                    assert(self.type_keys@[i] == k);
                }
            }
            assert forall|i: int| 0 <= i < self.components_arrays@.len() implies (#[trigger] self.store(i)).wf()
                && self.store(i).capacity() == self.max_components_per_types && self.store(i).entities()
                == self.signatures@.len() by {
                if i < id {
                    assert(self.store(i) == old(self).store(i));
                }
            }
            assert forall|i: int, x: Entity|
                0 <= i < self.components_arrays@.len() && #[trigger] self.store(i)@.contains_key(x) implies x
                < self.signatures@.len() by {
                if i < id {
                    assert(old(self).store(i)@.contains_key(x));
                }
            }
            assert forall|x: Entity| x < self.signatures@.len() implies #[trigger] self.signature_ok(x, 0) by {
                assert(old(self).signature_ok(x, 0));
            }
            assert(self@.components =~= old(self)@.components);
            assert(self@.layouts =~= old(self)@.layouts.push(
                Layout::fresh(old(self)@.max_entities, old(self)@.max_per_type),
            ));
        }
        id
    }

    /// Add a component to an entity: the store of the type is made and its
    /// numeric id recorded at first use, the value is appended to the store,
    /// and the signature bit is set. Returns whether the component was
    /// attached. Nothing changes where the registry does not accept it: the
    /// entity is out of bounds or owns a component of the type already, the
    /// store of the type is full, or the type cannot be registered.
    ///
    /// # Arguments
    /// * `entity` - The entity on which we want to add the component.
    /// * `key` - The type of the component.
    /// * `component` - The component to be added to entity.
    pub fn add_component(&mut self, entity: &Entity, key: TypeKey, component: C) -> (added: bool)
        requires
            old(self).wf(),
        ensures
            final(self).wf(),
            added == old(self)@.accepts(*entity, key),
            final(self)@ == old(self)@.add(*entity, key, component),
            !added ==> final(self)@ == old(self)@,
    {
        let e = *entity;
        if e >= self.signatures.len() {
            return false;
        }
        let id = match self.get_type_id(key) {
            Some(id) => id,
            None => {
                if self.components_arrays.len() >= self.max_components_type || self.max_components_per_types == 0 {
                    return false;
                }
                self.register(key)
            },
        };
        let ghost mid = *self;
        proof {
            old(self).lemma_wf();
            old(self)@.lemma_accepts(e, key);
            assert(mid.store(id as int).wf());
            assert(mid.signature_ok(e, 0));
        }
        let added = self.components_arrays[id].add_component(entity, component);
        if added {
            self.signatures[e].set(id, true);
        }
        proof {
            self.lemma_one_store_changed(mid, id as int, e, self.store(id as int)@);
            assert(self.store(id as int).layout() == mid@.layouts[id as int].add(e));
            if added {
                assert(self@.components =~= mid@.components.insert((e, key), component));
            } else {
                assert(self@.components =~= mid@.components);
            }
            if old(self)@.types.contains(key) {
                assert(self@.layouts =~= old(self)@.add(e, key, component).layouts);
            } else {
                assert(self@.layouts =~= old(self)@.layouts.push(
                    Layout::fresh(old(self)@.max_entities, old(self)@.max_per_type).add(e),
                ));
            }
        }
        added
    }

    /// What the stores and signatures look like after one store changed:
    /// the rest of the manager is as in `before`, the store with numeric id
    /// `id` holds what `after` says, and the signature of `entity` differs
    /// at most in bit `id`.
    proof fn lemma_one_store_changed(&self, before: Self, id: int, entity: Entity, after: Map<Entity, C>)
        requires
            before.wf(),
            0 <= id < before.components_arrays@.len(),
            entity < before.signatures@.len(),
            self.components_arrays_id == before.components_arrays_id,
            self.type_keys == before.type_keys,
            self.max_components_type == before.max_components_type,
            self.max_components_per_types == before.max_components_per_types,
            self.components_arrays@.len() == before.components_arrays@.len(),
            self.signatures@.len() == before.signatures@.len(),
            forall|i: int| 0 <= i < self.components_arrays@.len() && i != id ==> self.store(i) == before.store(i),
            forall|x: int|
                0 <= x < self.signatures@.len() && x != entity ==> self.signatures@[x] == before.signatures@[x],
            self.store(id).wf(),
            self.store(id).capacity() == before.store(id).capacity(),
            self.store(id).entities() == before.store(id).entities(),
            self.store(id)@ == after,
            forall|x: Entity| x != entity ==> (after.contains_key(x) <==> before.store(id)@.contains_key(x)),
            forall|x: Entity| x != entity && after.contains_key(x) ==> after[x] == before.store(id)@[x],
            bitset_size(self.signatures@[entity as int]) == bitset_size(before.signatures@[entity as int]),
            forall|i: nat| i != id ==> (bitset_ones(self.signatures@[entity as int]).contains(i)
                <==> bitset_ones(before.signatures@[entity as int]).contains(i)),
            bitset_ones(self.signatures@[entity as int]).contains(id as nat) <==> after.contains_key(entity),
        ensures
            self.wf(),
            forall|p: (Entity, TypeKey)|
                p != (entity, before.type_keys@[id]) ==> (#[trigger] self@.components.contains_key(p)
                    <==> before@.components.contains_key(p)),
            forall|p: (Entity, TypeKey)|
                p != (entity, before.type_keys@[id]) && #[trigger] self@.components.contains_key(p)
                    ==> self@.components[p] == before@.components[p],
            self@.components.contains_key((entity, before.type_keys@[id])) <==> after.contains_key(entity),
            after.contains_key(entity) ==> self@.components[(entity, before.type_keys@[id])] == after[entity],
            self@.types == before@.types,
            self@.max_entities == before@.max_entities,
            self@.max_types == before@.max_types,
            self@.max_per_type == before@.max_per_type,
            self@.layouts == before@.layouts.update(id, self.store(id).layout()),
            before@.types.index_of(before@.types[id]) == id,
    {
        let key = before.type_keys@[id];
        assert(before.type_keys@.contains(key));
        assert forall|x: Entity| x < self.signatures@.len() implies #[trigger] self.signature_ok(x, 0) by {
            assert(before.signature_ok(x, 0));
        }
    }

    /// Remove a component of an entity: the signature bit is cleared and the
    /// component leaves its store. Nothing happens where the type was never
    /// registered or the entity owns no such component.
    ///
    /// # Arguments
    /// * `entity` - The entity on which we want to remove the component.
    /// * `key` - The type of the component.
    pub fn remove_component(&mut self, entity: &Entity, key: TypeKey)
        requires
            old(self).wf(),
        ensures
            final(self).wf(),
            final(self)@ == old(self)@.remove(*entity, key),
    {
        let e = *entity;
        proof {
            old(self).lemma_wf();
        }
        if e >= self.signatures.len() {
            proof {
                assert(self@.components =~= old(self)@.remove(e, key).components);
                assert(self@.layouts =~= old(self)@.remove(e, key).layouts);
            }
            return ;
        }
        match self.get_type_id(key) {
            Some(id) => {
                self.signatures[e].set(id, false);
                self.components_arrays[id].rem_component(entity);
                proof {
                    self.lemma_one_store_changed(*old(self), id as int, e, old(self).store(id as int)@.remove(e));
                    assert(self@.components =~= old(self)@.remove(e, key).components);
                }
            },
            None => {
                assert(self@.components =~= old(self)@.remove(e, key).components);
            },
        }
    }

    /// Get immutable reference of an entity component; absent where the type
    /// is not registered or the entity owns no such component.
    ///
    /// # Arguments
    /// * `entity` - The entity that has the component we want to retrieve.
    /// * `key` - The type of the component.
    pub fn get_component(&self, entity: &Entity, key: TypeKey) -> (component: Option<&C>)
        requires
            self.wf(),
        ensures
            component == if self@.has(*entity, key) {
                Some(&self@.components[(*entity, key)])
            } else {
                None
            },
    {
        match self.get_type_id(key) {
            Some(id) => {
                assert(self.store(id as int).wf());
                self.components_arrays[id].get_component(entity)
            },
            None => None,
        }
    }

    /// Retrieve the raw slot array of the store of a type; see
    /// [`ComponentArray::get_entities`] for what its entries mean. Absent
    /// where the type is not registered.
    /// # Arguments
    /// * `key` - The type of the component.
    pub fn get_entities_with_component(&self, key: TypeKey) -> (slots: Option<&Vec<Entity>>)
        requires
            self.wf(),
        ensures
            slots.is_some() == self@.types.contains(key),
            slots matches Some(s) ==> s@ == self@.layouts[self@.types.index_of(key)].slots,
    {
        match self.get_type_id(key) {
            Some(id) => Some(self.components_arrays[id].get_entities()),
            None => None,
        }
    }

    /// This function need to be called when an entity was destroyed from the
    /// world: for every registered type whose signature bit is set it removes
    /// the component from that type's store, then it clears the signature.
    /// # Arguments
    /// * `entity` - The `Entity` that would be removed.
    pub fn on_entity_destroyed(&mut self, entity: &Entity)
        requires
            old(self).wf(),
        ensures
            final(self).wf(),
            final(self)@ == old(self)@.clear(*entity),
    {
        let e = *entity;
        if e >= self.signatures.len() {
            proof {
                assert(self@.components =~= old(self)@.clear(e).components);
                assert(self@.layouts =~= old(self)@.clear(e).layouts);
            }
            return ;
        }
        // Remove all component that is attached to this entity...
        let mut i: usize = 0;
        while i < self.components_arrays.len()
            invariant
                old(self).wf(),
                e == *entity,
                e < self.signatures@.len(),
                i <= self.components_arrays@.len(),
                self.stores_wf(),
                self.components_arrays_id == old(self).components_arrays_id,
                self.type_keys == old(self).type_keys,
                self.max_components_type == old(self).max_components_type,
                self.max_components_per_types == old(self).max_components_per_types,
                self.components_arrays@.len() == old(self).components_arrays@.len(),
                self.signatures == old(self).signatures,
                self.signature_ok(e, i as int),
                forall|id: int|
                    0 <= id < self.components_arrays@.len() ==> (#[trigger] self.store(id))@ == if id < i {
                        old(self).store(id)@.remove(e)
                    } else {
                        old(self).store(id)@
                    },
                forall|id: int|
                    0 <= id < self.components_arrays@.len() ==> (#[trigger] self.store(id)).layout() == if id < i {
                        old(self).store(id).layout().remove(e)
                    } else {
                        old(self).store(id).layout()
                    },
            decreases self.components_arrays@.len() - i,
        {
            let ghost before = *self;
            proof {
                before.store(i as int).lemma_view();
            }
            if self.signatures[e].test(i) {
                self.components_arrays[i].rem_component(entity);
            }
            proof {
                assert forall|id: int| 0 <= id < self.components_arrays@.len() implies (#[trigger] self.store(
                    id,
                )).layout() == if id < i + 1 {
                    old(self).store(id).layout().remove(e)
                } else {
                    old(self).store(id).layout()
                } by {
                    if id != i {
                        assert(self.store(id) == before.store(id));
                    }
                }
                assert forall|id: int| 0 <= id < self.components_arrays@.len() implies (#[trigger] self.store(id)).wf()
                    && self.store(id).capacity() == self.max_components_per_types && self.store(id).entities()
                    == self.signatures@.len() by {
                    if id != i {
                        assert(self.store(id) == before.store(id));
                    }
                }
                assert forall|id: int| 0 <= id < self.components_arrays@.len() implies (#[trigger] self.store(
                    id,
                ))@ == if id < i + 1 {
                    old(self).store(id)@.remove(e)
                } else {
                    old(self).store(id)@
                } by {
                    if id != i {
                        assert(self.store(id) == before.store(id));
                    }
                }
            }
            i = i + 1;
        }
        let ghost swept = *self;
        self.signatures[e].reset();
        proof {
            assert(self.stores_wf()) by {
                assert forall|id: int| 0 <= id < self.components_arrays@.len() implies (#[trigger] self.store(id)).wf()
                    && self.store(id).capacity() == self.max_components_per_types && self.store(id).entities()
                    == self.signatures@.len() by {
                    assert(self.store(id) == swept.store(id));
                }
                assert forall|id: int, x: Entity|
                    0 <= id < self.components_arrays@.len() && #[trigger] self.store(id)@.contains_key(x) implies x
                    < self.signatures@.len() by {
                    assert(self.store(id) == swept.store(id));
                }
            }
            assert forall|x: Entity| x < self.signatures@.len() implies #[trigger] self.signature_ok(x, 0) by {
                if x != e {
                    assert(old(self).signature_ok(x, 0));
                }
                assert forall|id: nat| #[trigger]
                    bitset_ones(self.signatures@[x as int]).contains(id) <==> id < self.components_arrays@.len()
                        && self.store(id as int)@.contains_key(x) by {
                    if id < self.components_arrays@.len() {
                        assert(self.store(id as int) == swept.store(id as int));
                    }
                }
            }
            assert(self@.layouts =~= old(self)@.clear(e).layouts) by {
                assert forall|id: int| 0 <= id < self.components_arrays@.len() implies self.store(id).layout() == old(
                    self,
                ).store(id).layout().remove(e) by {
                    assert(self.store(id) == swept.store(id));
                }
            }
            assert(self@.components =~= old(self)@.clear(e).components) by {
                assert forall|p: (Entity, TypeKey)|
                    self.holds(p.0, p.1) <==> (p.0 != e && old(self).holds(p.0, p.1)) by {
                    if self.components_arrays_id@.contains_key(p.1) {
                        let id = self.components_arrays_id@[p.1] as int;
                        assert(self.store(id) == swept.store(id));
                    }
                }
                assert forall|p: (Entity, TypeKey)| self.holds(p.0, p.1) implies self.store(
                    self.components_arrays_id@[p.1] as int,
                )@[p.0] == old(self).store(old(self).components_arrays_id@[p.1] as int)@[p.0] by {
                    let id = self.components_arrays_id@[p.1] as int;
                    assert(self.store(id) == swept.store(id));
                }
            }
        }
    }

    /// Whether `self` is `before` with the component of `entity` in the
    /// store with numeric id `id` overwritten with `component`.
    spec fn rewritten(&self, before: Self, id: int, entity: Entity, component: C) -> bool {
        &&& self.components_arrays_id == before.components_arrays_id
        &&& self.type_keys == before.type_keys
        &&& self.max_components_type == before.max_components_type
        &&& self.max_components_per_types == before.max_components_per_types
        &&& self.signatures == before.signatures
        &&& self.components_arrays@.len() == before.components_arrays@.len()
        &&& forall|i: int| 0 <= i < self.components_arrays@.len() && i != id ==> self.store(i) == before.store(i)
        &&& self.store(id).wf()
        &&& self.store(id).layout() == before.store(id).layout()
        &&& self.store(id)@ == before.store(id)@.insert(entity, component)
    }

    /// Get mutable reference of an entity component; absent where the type
    /// is not registered or the entity owns no such component. What is
    /// written through the reference becomes that component; nothing else
    /// changes.
    ///
    /// # Arguments
    /// * `entity` - The entity that has the component we want to retrieve.
    /// * `key` - The type of the component.
    pub fn get_component_mut(&mut self, entity: &Entity, key: TypeKey) -> (component: Option<&mut C>)
        requires
            old(self).wf(),
        ensures
            component.is_some() == old(self)@.has(*entity, key),
            component matches Some(c) ==> {
                &&& *c == old(self)@.components[(*entity, key)]
                &&& final(self)@ == old(self)@.write(*entity, key, *final(c))
            },
            component.is_none() ==> final(self)@ == old(self)@,
            final(self).wf(),
    {
        if !self.has_component(entity, key) {
            return None;
        }
        let id = match self.get_type_id(key) {
            Some(id) => id,
            None => {
                return None;
            },
        };
        proof {
            let before = *self;
            let e = *entity;
            assert(before.signature_ok(e, 0));
            assert forall|after: Self, v: C|
                #![trigger after@, before@.write(e, key, v)]
                after.rewritten(before, id as int, e, v) implies after.wf() && after@ == before@.write(e, key, v) by {
                after.lemma_one_store_changed(before, id as int, e, after.store(id as int)@);
                assert(after@.components =~= before@.components.insert((e, key), v));
                assert(after@.layouts =~= before@.layouts);
            }
        }
        self.components_arrays[id].get_component_mut(entity)
    }
}

/// A component that was attached is the one found afterwards: where the
/// registry accepts the component, the entity owns that value under that
/// type once it is added.
pub proof fn law_add_then_get<C>(r: Registry<C>, entity: Entity, key: TypeKey, component: C)
    requires
        r.accepts(entity, key),
    ensures
        r.add(entity, key, component).has(entity, key),
        r.add(entity, key, component).components[(entity, key)] == component,
        r.add(entity, key, component).type_id(key) is Some,
{
    let after = r.add(entity, key, component);
    if !r.types.contains(key) {
        assert(after.types[r.types.len() as int] == key);
    }
}

/// An addition appends: where the registry accepts the component, the
/// store of the type has one live slot more than before, the new slot is
/// the last one, and it is the slot of the entity, so that the entity's
/// slot is the number of components that the store held. Where the registry
/// does not accept the component, the addition changes nothing.
pub proof fn law_add_appends<C>(r: Registry<C>, entity: Entity, key: TypeKey, component: C)
    requires
        r.wf(),
    ensures
        !r.accepts(entity, key) ==> r.add(entity, key, component) == r,
        r.accepts(entity, key) ==> ({
            let after = r.add(entity, key, component);
            let id = after.types.index_of(key);
            &&& 0 <= id < after.layouts.len()
            &&& after.count(key) == r.count(key) + 1
            &&& after.layouts[id].slots[entity as int] == r.count(key)
            &&& after.layouts[id].owners[r.count(key) as int] == entity
        }),
        r.has(entity, key) || r.count(key) >= r.max_per_type ==> !r.accepts(entity, key),
{
    if r.accepts(entity, key) {
        let after = r.add(entity, key, component);
        if r.types.contains(key) {
            let id = r.types.index_of(key);
            assert(r.types[id] == key);
            r.layouts[id].lemma_add(entity);
            assert(r.components.contains_key((entity, r.types[id])) <==> r.layouts[id].owns(entity));
        } else {
            let id = r.types.len() as int;
            assert(after.types[id] == key);
            assert(after.types.index_of(key) == id) by {
                let i = after.types.index_of(key);
                assert(after.types[i] == key);
                if i < id {
                    assert(r.types[i] == key);
                }
            }
            Layout::fresh(r.max_entities, r.max_per_type).lemma_add(entity);
        }
    }
}

/// A component that was detached is found no more.
pub proof fn law_remove_then_get<C>(r: Registry<C>, entity: Entity, key: TypeKey)
    ensures
        !r.remove(entity, key).has(entity, key),
{
}

/// Detaching one component moves no other: whoever else owned a component,
/// of that type or of another, owns the same value afterwards. This holds
/// in particular for the owner of the last slot of the store, whose
/// component the removal moves into the freed slot.
pub proof fn law_remove_keeps_others<C>(r: Registry<C>, entity: Entity, key: TypeKey, other: Entity, other_key: TypeKey)
    requires
        (other, other_key) != (entity, key),
    ensures
        r.remove(entity, key).has(other, other_key) == r.has(other, other_key),
        r.has(other, other_key) ==> r.remove(entity, key).components[(other, other_key)] == r.components[(
            other,
            other_key,
        )],
{
}

/// Swap-removal spares the component it moves: where `entity` owns a
/// component of type `key` and another entity owns the last slot of that
/// type's store, detaching the component of `entity` leaves the other
/// entity as owner of the value it had, now in the slot that was freed.
pub proof fn law_swap_remove_keeps_last<C>(r: Registry<C>, entity: Entity, key: TypeKey)
    requires
        r.wf(),
        r.has(entity, key),
    ensures
        ({
            let id = r.types.index_of(key);
            let last = r.layouts[id].owners.last();
            let after = r.remove(entity, key);
            &&& r.has(last, key)
            &&& last != entity ==> {
                &&& after.has(last, key)
                &&& after.components[(last, key)] == r.components[(last, key)]
                &&& after.layouts[id].slots[last as int] == r.layouts[id].slots[entity as int]
            }
        }),
{
    let id = r.types.index_of(key);
    let layout = r.layouts[id];
    assert(r.components.contains_key((entity, r.types[id])) <==> layout.owns(entity));
    let last = layout.owners.last();
    assert(r.components.contains_key((last, r.types[id])) <==> layout.owns(last));
}

/// Attaching one component changes no other.
pub proof fn law_add_keeps_others<C>(
    r: Registry<C>,
    entity: Entity,
    key: TypeKey,
    component: C,
    other: Entity,
    other_key: TypeKey,
)
    requires
        (other, other_key) != (entity, key),
    ensures
        r.add(entity, key, component).has(other, other_key) == r.has(other, other_key),
        r.has(other, other_key) ==> r.add(entity, key, component).components[(other, other_key)]
            == r.components[(other, other_key)],
{
}

/// Attaching a component keeps a registry well formed.
pub proof fn law_add_keeps_wf<C>(r: Registry<C>, entity: Entity, key: TypeKey, component: C)
    requires
        r.wf(),
    ensures
        r.add(entity, key, component).wf(),
{
    let after = r.add(entity, key, component);
    if r.accepts(entity, key) {
        if r.types.contains(key) {
            let id = r.types.index_of(key);
            r.layouts[id].lemma_add(entity);
            assert forall|e: Entity, j: int| 0 <= j < after.types.len() implies (after.components.contains_key(
                (e, #[trigger] after.types[j]),
            ) <==> #[trigger] after.layouts[j].owns(e)) by {
                assert(r.components.contains_key((e, r.types[j])) <==> r.layouts[j].owns(e));
            }
        } else {
            assert(after.types[r.types.len() as int] == key);
            assert forall|e: Entity, k: TypeKey| #[trigger]
                after.components.contains_key((e, k)) implies after.types.contains(k) by {
                if (e, k) != (entity, key) {
                    let i = r.types.index_of(k);
                    assert(after.types[i] == k);
                }
            }
        }
    }
}

/// Detaching a component keeps a registry well formed.
pub proof fn law_remove_keeps_wf<C>(r: Registry<C>, entity: Entity, key: TypeKey)
    requires
        r.wf(),
    ensures
        r.remove(entity, key).wf(),
{
    let after = r.remove(entity, key);
    if r.types.contains(key) {
        let id = r.types.index_of(key);
        r.layouts[id].lemma_remove(entity);
        assert forall|e: Entity, j: int| 0 <= j < after.types.len() implies (after.components.contains_key(
            (e, #[trigger] after.types[j]),
        ) <==> #[trigger] after.layouts[j].owns(e)) by {
            assert(r.components.contains_key((e, r.types[j])) <==> r.layouts[j].owns(e));
        }
    }
}

/// Detaching every component of an entity keeps a registry well formed, and
/// leaves the entity with no component.
pub proof fn law_clear_keeps_wf<C>(r: Registry<C>, entity: Entity)
    requires
        r.wf(),
    ensures
        r.clear(entity).wf(),
        forall|k: TypeKey| !r.clear(entity).has(entity, k),
        r.clear(entity).signature(entity) == Set::<nat>::empty(),
{
    let after = r.clear(entity);
    assert forall|e: Entity, j: int| 0 <= j < after.types.len() implies (after.components.contains_key(
        (e, #[trigger] after.types[j]),
    ) <==> #[trigger] after.layouts[j].owns(e)) by {
        r.layouts[j].lemma_remove(entity);
        assert(r.components.contains_key((e, r.types[j])) <==> r.layouts[j].owns(e));
    }
}

/// Overwriting a component that an entity owns keeps a registry well
/// formed.
pub proof fn law_write_keeps_wf<C>(r: Registry<C>, entity: Entity, key: TypeKey, component: C)
    requires
        r.wf(),
        r.has(entity, key),
    ensures
        r.write(entity, key, component).wf(),
{
}

} // verus!
