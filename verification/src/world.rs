use crate::components::smc::Component;
use crate::entity::Entity;
use crate::managers::component_manager::{
    law_add_keeps_wf, law_clear_keeps_wf, law_remove_keeps_wf, law_write_keeps_wf, ComponentsManager,
    Registry, TypeKey,
};
use crate::managers::entity_manager::{
    lemma_create_keeps_wf, lemma_destroy_keeps_wf, EntityManager, Roster,
};
use crate::managers::system_manager::{can_host, control_flag, with_control, SystemManager};
use crate::sys::{ran_starts, ran_updates, Sys};
use vstd::prelude::*;

verus! {

/// The mathematical state of an [`EntityComponentManager`]: who is alive and
/// who owns what.
pub struct WorldModel<C> {
    /// The free and the living entities.
    pub roster: Roster,
    /// The registered types and the live components.
    pub registry: Registry<C>,
}

impl<C> WorldModel<C> {
    /// Both parts are well formed and agree on the number of entities.
    pub open spec fn wf(self) -> bool {
        &&& self.roster.wf()
        &&& self.registry.wf()
        &&& self.roster.capacity() == self.registry.max_entities
    }

    /// The state of a fresh world.
    pub open spec fn fresh(max_entities: nat, max_types: nat, max_per_type: nat) -> Self {
        WorldModel {
            roster: Roster::fresh(max_entities),
            registry: Registry::fresh(max_entities, max_types, max_per_type),
        }
    }

    /// The state after one creation.
    pub open spec fn create(self) -> Self {
        WorldModel { roster: self.roster.create(), ..self }
    }

    /// The state after destroying `entity`: its components are detached, and
    /// it leaves the living list if it was alive.
    pub open spec fn destroy(self, entity: Entity) -> Self {
        WorldModel { roster: self.roster.destroy(entity), registry: self.registry.clear(entity) }
    }

    /// The state after attaching `component` of type `key` to `entity`.
    pub open spec fn add(self, entity: Entity, key: TypeKey, component: C) -> Self {
        WorldModel { registry: self.registry.add(entity, key, component), ..self }
    }

    /// The state after detaching the component of type `key` from `entity`.
    pub open spec fn remove(self, entity: Entity, key: TypeKey) -> Self {
        WorldModel { registry: self.registry.remove(entity, key), ..self }
    }

    /// The state after overwriting the component of type `key` of `entity`.
    pub open spec fn write(self, entity: Entity, key: TypeKey, component: C) -> Self {
        WorldModel { registry: self.registry.write(entity, key, component), ..self }
    }

    /// The component of type `key` that `entity` owns, if any.
    pub open spec fn get(self, entity: Entity, key: TypeKey) -> Option<C> {
        if self.registry.has(entity, key) {
            Some(self.registry.components[(entity, key)])
        } else {
            None
        }
    }

    /// The entities of `candidates`, in their order, that own a component of
    /// every type in `keys`.
    pub open spec fn select(self, candidates: Seq<Entity>, keys: Seq<TypeKey>) -> Seq<Entity> {
        candidates.filter(|e: Entity| self.registry.has_all(e, keys))
    }

    /// The living entities, in allocation order, that own a component of
    /// every type in `keys`.
    pub open spec fn matching(self, keys: Seq<TypeKey>) -> Seq<Entity> {
        self.select(self.roster.living, keys)
    }

    /// The first living entity, in allocation order, that owns a component
    /// of every type in `keys`.
    pub open spec fn first_matching(self, keys: Seq<TypeKey>) -> Option<Entity> {
        if self.matching(keys).len() == 0 {
            None
        } else {
            Some(self.matching(keys)[0])
        }
    }
}

/// Every operation keeps the state of a world well formed.
pub proof fn law_world_stays_wf<C>(w: WorldModel<C>, entity: Entity, key: TypeKey, component: C)
    requires
        w.wf(),
    ensures
        w.create().wf(),
        w.destroy(entity).wf(),
        w.add(entity, key, component).wf(),
        w.remove(entity, key).wf(),
        w.registry.has(entity, key) ==> w.write(entity, key, component).wf(),
{
    lemma_create_keeps_wf(w.roster);
    lemma_destroy_keeps_wf(w.roster, entity);
    law_add_keeps_wf(w.registry, entity, key, component);
    law_remove_keeps_wf(w.registry, entity, key);
    law_clear_keeps_wf(w.registry, entity);
    if w.registry.has(entity, key) {
        law_write_keeps_wf(w.registry, entity, key, component);
    }
}

/// Who is selected: an entity is among the matches of `keys` exactly when
/// it is alive and owns a component of every type in `keys`.
pub proof fn law_query_members<C>(w: WorldModel<C>, keys: Seq<TypeKey>, entity: Entity)
    ensures
        w.matching(keys).contains(entity) <==> w.roster.is_living(entity) && w.registry.has_all(entity, keys),
{
    let pred = |e: Entity| w.registry.has_all(e, keys);
    let living = w.roster.living;
    if living.filter(pred).contains(entity) {
        living.lemma_filter_contains_rev(pred, entity);
        let i = choose|i: int| 0 <= i < living.filter(pred).len() && living.filter(pred)[i] == entity;
    }
    if living.contains(entity) && pred(entity) {
        let j = choose|j: int| 0 <= j < living.len() && living[j] == entity;
    }
}

/// Asking for two lists of types at once selects the entities that each
/// list selects on its own: the matches of `first` followed by `second` are
/// the matches of `first` that are also matches of `second`, in the same
/// order, and as sets the one is the intersection of the other two. With
/// one type in each list this is the query for two types against the two
/// queries for one.
pub proof fn law_query_is_intersection<C>(w: WorldModel<C>, first: Seq<TypeKey>, second: Seq<TypeKey>)
    ensures
        forall|e: Entity| #[trigger]
            w.matching(first + second).contains(e) <==> w.matching(first).contains(e) && w.matching(
                second,
            ).contains(e),
        w.matching(first + second).to_set() == w.matching(first).to_set().intersect(
            w.matching(second).to_set(),
        ),
        w.matching(first + second) == w.select(w.matching(first), second),
{
    let both = first + second;
    assert forall|e: Entity| w.registry.has_all(e, both) <==> w.registry.has_all(e, first) && w.registry.has_all(
        e,
        second,
    ) by {
        if w.registry.has_all(e, both) {
            assert forall|i: int| 0 <= i < first.len() implies w.registry.has(e, #[trigger] first[i]) by {
                assert(both[i] == first[i]);
            }
            assert forall|i: int| 0 <= i < second.len() implies w.registry.has(e, #[trigger] second[i]) by {
                assert(both[first.len() + i] == second[i]);
            }
        }
    }
    assert forall|e: Entity| #[trigger]
        w.matching(both).contains(e) <==> w.matching(first).contains(e) && w.matching(second).contains(e) by {
        law_query_members(w, both, e);
        law_query_members(w, second, e);
    }
    lemma_select_twice(w, w.roster.living, first, second);
}

/// Selecting by `first` and then by `second` is selecting by both.
proof fn lemma_select_twice<C>(w: WorldModel<C>, candidates: Seq<Entity>, first: Seq<TypeKey>, second: Seq<TypeKey>)
    requires
        forall|e: Entity|
            w.registry.has_all(e, first + second) <==> w.registry.has_all(e, first) && w.registry.has_all(
                e,
                second,
            ),
    ensures
        w.select(candidates, first + second) == w.select(w.select(candidates, first), second),
    decreases candidates.len(),
{
    let p_both = |e: Entity| w.registry.has_all(e, first + second);
    let p_first = |e: Entity| w.registry.has_all(e, first);
    let p_second = |e: Entity| w.registry.has_all(e, second);
    reveal(Seq::filter);
    if candidates.len() > 0 {
        let rest = candidates.drop_last();
        let last = candidates.last();
        lemma_select_twice(w, rest, first, second);
        rest.filter(p_first).lemma_filter_push(last, p_second);
    }
}

pub struct EntityComponentManager<C> {
    entity_manager: EntityManager,
    component_manager: ComponentsManager<C>,
}

impl<C> View for EntityComponentManager<C> {
    type V = WorldModel<C>;

    closed spec fn view(&self) -> WorldModel<C> {
        WorldModel { roster: self.entity_manager@, registry: self.component_manager@ }
    }
}

impl<C> EntityComponentManager<C> {
    /// The invariant of the world: both managers are sound and were made for
    /// the same number of entities.
    pub closed spec fn wf(&self) -> bool {
        &&& self.entity_manager.wf()
        &&& self.component_manager.wf()
        &&& self.entity_manager@.capacity() == self.component_manager@.max_entities
    }

    /// A sound world has a sound state.
    pub proof fn lemma_wf(&self)
        requires
            self.wf(),
        ensures
            self@.wf(),
    {
        self.component_manager.lemma_wf();
    }

    pub fn new(max_entities: usize, max_components_type: usize, max_components_per_types: usize) -> (world: Self)
        ensures
            world.wf(),
            world@ == WorldModel::<C>::fresh(
                max_entities as nat,
                max_components_type as nat,
                max_components_per_types as nat,
            ),
    {
        Self {
            entity_manager: EntityManager::new(max_entities),
            component_manager: ComponentsManager::new(max_entities, max_components_type, max_components_per_types),
        }
    }

    /// Create an `Entity`: the identifier on top of the free list becomes
    /// alive; absent where none is free.
    pub fn create_entity(&mut self) -> (entity: Option<Entity>)
        requires
            old(self).wf(),
        ensures
            final(self).wf(),
            entity == old(self)@.roster.next(),
            final(self)@ == old(self)@.create(),
    {
        self.entity_manager.create_entity()
    }

    /// Destroy an `Entity`: its components are detached and its signature
    /// cleared, and it goes from the living list back to the free list.
    /// Returns whether it was alive.
    /// # Arguments
    /// * `entity` - The entity to destroy.
    pub fn destroy_entity(&mut self, entity: &Entity) -> (destroyed: bool)
        requires
            old(self).wf(),
        ensures
            final(self).wf(),
            destroyed == old(self)@.roster.is_living(*entity),
            final(self)@ == old(self)@.destroy(*entity),
    {
        self.component_manager.on_entity_destroyed(entity);
        self.entity_manager.destroy_entity(entity)
    }

    /// Add a component to an entity. Returns whether it was attached; where
    /// the registry does not accept it, nothing changes.
    /// # Arguments
    /// * `entity` - The entity on which we want to add the component.
    /// * `key` - The type of the component.
    /// * `component` - The component to be added to entity.
    pub fn add_component(&mut self, entity: &Entity, key: TypeKey, component: C) -> (added: bool)
        requires
            old(self).wf(),
        ensures
            final(self).wf(),
            added == old(self)@.registry.accepts(*entity, key),
            final(self)@ == old(self)@.add(*entity, key, component),
            !added ==> final(self)@ == old(self)@,
    {
        self.component_manager.add_component(entity, key, component)
    }

    /// Remove a component from an entity; nothing happens where it owns
    /// none of that type.
    /// # Arguments
    /// * `entity` - The entity on which we want to remove the component.
    /// * `key` - The type of the component.
    pub fn remove_component(&mut self, entity: &Entity, key: TypeKey)
        requires
            old(self).wf(),
        ensures
            final(self).wf(),
            final(self)@ == old(self)@.remove(*entity, key),
    {
        self.component_manager.remove_component(entity, key);
    }

    /// Get reference of an entity component.
    /// # Arguments
    /// * `entity` - The entity that has the component we want to retrieve.
    /// * `key` - The type of the component.
    pub fn get_component(&self, entity: &Entity, key: TypeKey) -> (component: Option<&C>)
        requires
            self.wf(),
        ensures
            component == if self@.registry.has(*entity, key) {
                Some(&self@.registry.components[(*entity, key)])
            } else {
                None
            },
    {
        self.component_manager.get_component(entity, key)
    }

    /// Get mutable reference of an entity component. What is written
    /// through it becomes that component; nothing else changes.
    /// # Arguments
    /// * `entity` - The entity that has the component we want to retrieve.
    /// * `key` - The type of the component.
    pub fn get_component_mut(&mut self, entity: &Entity, key: TypeKey) -> (component: Option<&mut C>)
        requires
            old(self).wf(),
        ensures
            component.is_some() == old(self)@.registry.has(*entity, key),
            component matches Some(c) ==> {
                &&& *c == old(self)@.registry.components[(*entity, key)]
                &&& final(self)@ == old(self)@.write(*entity, key, *final(c))
            },
            component.is_none() ==> final(self)@ == old(self)@,
            final(self).wf(),
    {
        self.component_manager.get_component_mut(entity, key)
    }

    /// Whether `entity` owns a component of type `key`, read off its
    /// signature.
    pub fn has_component(&self, entity: &Entity, key: TypeKey) -> (owned: bool)
        requires
            self.wf(),
        ensures
            owned == self@.registry.has(*entity, key),
    {
        self.component_manager.has_component(entity, key)
    }

    /// Whether `entity` owns a component of the type with numeric id
    /// `component_id`, read off its signature.
    pub fn has_component_id(&self, entity: &Entity, component_id: usize) -> (owned: bool)
        requires
            self.wf(),
        ensures
            owned == (*entity < self@.registry.max_entities && self@.registry.signature(*entity).contains(
                component_id as nat,
            )),
    {
        self.component_manager.has_component_id(entity, component_id)
    }

    /// The numeric id of the type `key`: its position in the order of first
    /// use. Absent where the type is not registered.
    pub fn get_type_id(&self, key: TypeKey) -> (id: Option<usize>)
        requires
            self.wf(),
        ensures
            id == self@.registry.type_id(key),
            id matches Some(i) ==> i < self@.registry.types.len() && self@.registry.types[i as int] == key,
    {
        self.component_manager.get_type_id(key)
    }

    /// The raw slot array of the store of a type; absent where the type is
    /// not registered. Its entries are stale for entities that own no
    /// component of the type.
    pub fn get_entities_with_type(&self, key: TypeKey) -> (slots: Option<&Vec<Entity>>)
        requires
            self.wf(),
        ensures
            slots.is_some() == self@.registry.types.contains(key),
            slots matches Some(s) ==> s@ == self@.registry.layouts[self@.registry.types.index_of(key)].slots,
    {
        self.component_manager.get_entities_with_component(key)
    }

    /// Whether `entity` owns a component of every type in `type_keys`.
    fn has_components(&self, entity: &Entity, type_keys: &[TypeKey]) -> (owned: bool)
        requires
            self.wf(),
        ensures
            owned == self@.registry.has_all(*entity, type_keys@),
    {
        let mut j: usize = 0;
        while j < type_keys.len()
            invariant
                self.wf(),
                j <= type_keys@.len(),
                forall|k: int| 0 <= k < j ==> self@.registry.has(*entity, #[trigger] type_keys@[k]),
            decreases type_keys@.len() - j,
        {
            if !self.component_manager.has_component(entity, type_keys[j]) {
                return false;
            }
            j = j + 1;
        }
        true
    }

    /// The living entities that own a component of every type in
    /// `type_keys`, in allocation order. An entity counts by its signature.
    pub fn get_entities_with_types(&self, type_keys: &[TypeKey]) -> (entities: Vec<Entity>)
        requires
            self.wf(),
        ensures
            entities@ == self@.matching(type_keys@),
    {
        let living = self.entity_manager.living_entities();
        let mut entities: Vec<Entity> = Vec::new();
        let mut i: usize = 0;
        proof {
            reveal(Seq::filter);
        }
        while i < living.len()
            invariant
                self.wf(),
                living@ == self@.roster.living,
                i <= living@.len(),
                entities@ == self@.select(living@.take(i as int), type_keys@),
            decreases living@.len() - i,
        {
            let entity = living[i];
            let have_components = self.has_components(&entity, type_keys);
            if have_components {
                entities.push(entity);
            }
            proof {
                let pred = |e: Entity| self@.registry.has_all(e, type_keys@);
                living@.take(i as int).lemma_filter_push(entity, pred);
                assert(living@.take(i as int).push(entity) =~= living@.take(i as int + 1));
            }
            i = i + 1;
        }
        proof {
            assert(living@.take(i as int) =~= living@);
        }
        entities
    }

    /// The first living entity, in allocation order, that owns a component
    /// of every type in `type_keys`.
    pub fn get_first_entity_with_types(&self, type_keys: &[TypeKey]) -> (entity: Option<Entity>)
        requires
            self.wf(),
        ensures
            entity == self@.first_matching(type_keys@),
    {
        let entities = self.get_entities_with_types(type_keys);
        if entities.len() == 0 {
            None
        } else {
            Some(entities[0])
        }
    }
}

/// Whether `post` comes from `pre` by one frame: the shutdown flag on
/// `control` is clear in `pre`, and every system updates once, in order.
pub open spec fn tick_step<C, S: Sys<C>>(
    systems: Seq<S>,
    control: Entity,
    pre: WorldModel<Component<C>>,
    post: WorldModel<Component<C>>,
) -> bool {
    control_flag(pre, control) == Some(false) && ran_updates(systems, systems.len(), pre, post)
}

/// Whether `post` comes from `pre` by `n` frames.
pub open spec fn ran_ticks<C, S: Sys<C>>(
    systems: Seq<S>,
    control: Entity,
    n: nat,
    pre: WorldModel<Component<C>>,
    post: WorldModel<Component<C>>,
) -> bool
    decreases n,
{
    if n == 0 {
        post == pre
    } else {
        exists|mid: WorldModel<Component<C>>|
            ran_ticks(systems, control, (n - 1) as nat, pre, mid) && #[trigger] tick_step(
                systems,
                control,
                mid,
                post,
            )
    }
}

/// One more frame extends a run of frames.
pub proof fn lemma_ran_ticks_step<C, S: Sys<C>>(
    systems: Seq<S>,
    control: Entity,
    n: nat,
    pre: WorldModel<Component<C>>,
    mid: WorldModel<Component<C>>,
    post: WorldModel<Component<C>>,
)
    requires
        ran_ticks(systems, control, n, pre, mid),
        tick_step(systems, control, mid, post),
    ensures
        ran_ticks(systems, control, (n + 1) as nat, pre, post),
{
    let m: nat = (n + 1) as nat;
}

/// Why the frame loop ended.
#[derive(Debug, PartialEq, Eq, Structural)]
pub enum LoopExit {
    /// The world could not host the control entity: no system ran.
    NotStarted,
    /// A frame began with the shutdown flag set.
    Shutdown,
    /// A frame began with no control component on the control entity.
    ControlLost,
    /// The given number of frames ran and the flag was never seen set.
    OutOfTicks,
}

pub struct World<C, S> {
    pub entity_component_manager: EntityComponentManager<Component<C>>,
    pub system_manager: SystemManager<S>,
}

impl<C, S: Sys<C>> World<C, S> {
    /// The invariant of the world.
    pub open spec fn wf(&self) -> bool {
        self.entity_component_manager.wf()
    }

    /// Create new `World`
    /// # Arguments
    /// * `max_entities` - The maximum amount of entities in this world.
    /// * `max_components_type` - The maximum amount of components type in this world.
    /// * `max_components_per_types` - The maximum amount of components per components type.
    /// * `max_systems` - The maximum amount of systems in this world.
    pub fn new(
        max_entities: usize,
        max_components_type: usize,
        max_components_per_types: usize,
        max_systems: usize,
    ) -> (world: Self)
        ensures
            world.wf(),
            world.entity_component_manager@ == WorldModel::<Component<C>>::fresh(
                max_entities as nat,
                max_components_type as nat,
                max_components_per_types as nat,
            ),
            world.system_manager.systems() == Seq::<S>::empty(),
    {
        Self {
            entity_component_manager: EntityComponentManager::new(
                max_entities,
                max_components_type,
                max_components_per_types,
            ),
            system_manager: SystemManager::new(max_systems),
        }
    }

    /// Register a system behind those registered so far.
    pub fn add_system(&mut self, system: S)
        ensures
            final(self).system_manager.systems() == old(self).system_manager.systems().push(system),
            final(self).system_manager.control() == old(self).system_manager.control(),
            final(self).entity_component_manager == old(self).entity_component_manager,
    {
        self.system_manager.register(system)
    }

    /// Start the systems, then run frames until one begins with the
    /// shutdown flag set, or with the control component gone, or until
    /// `max_ticks` frames have run. Returns why the loop ended and how many
    /// frames ran.
    pub fn start_loop(&mut self, max_ticks: u64) -> (run: (LoopExit, u64))
        requires
            old(self).wf(),
        ensures
            final(self).wf(),
            final(self).system_manager.systems() == old(self).system_manager.systems(),
            run.0 == LoopExit::NotStarted <==> !can_host(old(self).entity_component_manager@),
            run.0 == LoopExit::NotStarted ==> run.1 == 0 && final(self).system_manager.control() == old(
                self,
            ).system_manager.control() && final(self).entity_component_manager@ == (match old(
                self,
            ).entity_component_manager@.roster.next() {
                Some(e) => old(self).entity_component_manager@.create().destroy(e),
                None => old(self).entity_component_manager@,
            }),
            run.0 != LoopExit::NotStarted ==> {
                let systems = old(self).system_manager.systems();
                let control = final(self).system_manager.control();
                &&& Some(control) == old(self).entity_component_manager@.roster.next()
                &&& run.1 <= max_ticks
                &&& exists|started: WorldModel<Component<C>>|
                    {
                        &&& #[trigger] ran_starts(
                            systems,
                            systems.len(),
                            with_control(old(self).entity_component_manager@),
                            started,
                        )
                        &&& ran_ticks(
                            systems,
                            control,
                            run.1 as nat,
                            started,
                            final(self).entity_component_manager@,
                        )
                    }
                &&& run.0 == LoopExit::Shutdown ==> control_flag(
                    final(self).entity_component_manager@,
                    control,
                ) == Some(true)
                &&& run.0 == LoopExit::ControlLost ==> control_flag(
                    final(self).entity_component_manager@,
                    control,
                ) is None
                &&& run.0 == LoopExit::OutOfTicks ==> run.1 == max_ticks
            },
    {
        if !self.system_manager.init(&mut self.entity_component_manager) {
            return (LoopExit::NotStarted, 0);
        }
        let ghost started = self.entity_component_manager@;
        let ghost systems = self.system_manager.systems();
        let ghost control = self.system_manager.control();
        let mut ticks: u64 = 0;
        while ticks < max_ticks
            invariant
                self.wf(),
                self.system_manager.systems() == systems,
                self.system_manager.control() == control,
                systems == old(self).system_manager.systems(),
                can_host(old(self).entity_component_manager@),
                Some(control) == old(self).entity_component_manager@.roster.next(),
                ran_starts(systems, systems.len(), with_control(old(self).entity_component_manager@), started),
                ticks <= max_ticks,
                ran_ticks(systems, control, ticks as nat, started, self.entity_component_manager@),
            decreases max_ticks - ticks,
        {
            let ghost before = self.entity_component_manager@;
            if self.system_manager.shutdown_requested(&self.entity_component_manager).is_none() {
                return (LoopExit::ControlLost, ticks);
            }
            if !self.system_manager.update(&mut self.entity_component_manager) {
                return (LoopExit::Shutdown, ticks);
            }
            proof {
                lemma_ran_ticks_step(
                    systems,
                    control,
                    ticks as nat,
                    started,
                    before,
                    self.entity_component_manager@,
                );
            }
            ticks = ticks + 1;
        }
        (LoopExit::OutOfTicks, ticks)
    }
}

/// A list of component types as a query: it selects the entities that own a
/// component of every type in the list.
pub trait EntitySelector {
    /// The types asked for.
    spec fn type_keys(&self) -> Seq<TypeKey>;

    /// The living entities that own a component of every type of the list,
    /// in allocation order.
    fn query_from<C>(&self, ecm: &EntityComponentManager<C>) -> (entities: Vec<Entity>)
        requires
            ecm.wf(),
        ensures
            entities@ == ecm@.matching(self.type_keys()),
    ;

    /// The first of them; absent where there is none.
    fn query_first_from<C>(&self, ecm: &EntityComponentManager<C>) -> (entity: Option<Entity>)
        requires
            ecm.wf(),
        ensures
            entity == ecm@.first_matching(self.type_keys()),
    ;
}

impl EntitySelector for [TypeKey] {
    open spec fn type_keys(&self) -> Seq<TypeKey> {
        self@
    }

    fn query_from<C>(&self, ecm: &EntityComponentManager<C>) -> (entities: Vec<Entity>) {
        ecm.get_entities_with_types(self)
    }

    fn query_first_from<C>(&self, ecm: &EntityComponentManager<C>) -> (entity: Option<Entity>) {
        let entities = self.query_from(ecm);
        if entities.len() == 0 {
            None
        } else {
            Some(entities[0])
        }
    }
}

} // verus!
