use crate::components::smc::{Component, SystemManagerComponent, MANAGER_TYPE};
use crate::entity::Entity;
use crate::sys::{lemma_ran_starts_step, lemma_ran_updates_step, ran_starts, ran_updates, Sys};
use crate::world::{EntityComponentManager, WorldModel};
use vstd::prelude::*;

verus! {

/// The shutdown flag that `entity` carries in `world`: absent where it owns
/// no control component.
pub open spec fn control_flag<C>(world: WorldModel<Component<C>>, entity: Entity) -> Option<bool> {
    match world.get(entity, MANAGER_TYPE) {
        Some(Component::Manager(smc)) => Some(smc.shutdown),
        _ => None,
    }
}

/// Whether a scheduler can set up its control entity in `world`: an entity
/// is free, and the registry accepts a control component for it.
pub open spec fn can_host<C>(world: WorldModel<Component<C>>) -> bool {
    world.roster.next() matches Some(e) && world.registry.accepts(e, MANAGER_TYPE)
}

/// The control component as `init` attaches it.
pub open spec fn fresh_control<C>() -> Component<C> {
    Component::Manager(SystemManagerComponent { shutdown: false })
}

/// The control component after a shutdown request.
pub open spec fn stopped_control<C>() -> Component<C> {
    Component::Manager(SystemManagerComponent { shutdown: true })
}

/// `world` after the next free entity was created and given a control
/// component with the flag clear.
pub open spec fn with_control<C>(world: WorldModel<Component<C>>) -> WorldModel<Component<C>> {
    world.create().add(world.roster.next().unwrap(), MANAGER_TYPE, fresh_control())
}

/// The scheduler: systems in registration order, and the control entity
/// whose component carries the shutdown flag.
///
/// Against a world a scheduler is in one of three states, told apart by
/// [`control_flag`] of its control entity: not initialised while the entity
/// carries no control component, running while the flag is clear, stopped
/// once the flag is set.
pub struct SystemManager<S> {
    systems: Vec<S>,
    smc_entity: Entity,
}

impl<S> SystemManager<S> {
    /// The registered systems in registration order.
    pub closed spec fn systems(&self) -> Seq<S> {
        self.systems@
    }

    /// The control entity.
    pub closed spec fn control(&self) -> Entity {
        self.smc_entity
    }

    /// Create new `SystemManager`.
    /// * `max_systems` - The maximum system amount.
    pub fn new(max_systems: usize) -> (manager: SystemManager<S>)
        ensures
            manager.systems() == Seq::<S>::empty(),
            manager.control() == 0,
    {
        SystemManager { systems: Vec::with_capacity(max_systems), smc_entity: 0 }
    }

    /// Register a system: it runs after those registered before it.
    /// * `sys` - The system to be register.
    pub fn register(&mut self, sys: S)
        ensures
            final(self).systems() == old(self).systems().push(sys),
            final(self).control() == old(self).control(),
    {
        self.systems.push(sys);
    }

    /// The shutdown flag on the control entity; absent where the control
    /// entity carries no control component.
    pub fn shutdown_requested<C>(&self, world: &EntityComponentManager<Component<C>>) -> (flag: Option<bool>)
        requires
            world.wf(),
        ensures
            flag == control_flag(world@, self.control()),
    {
        match world.get_component(&self.smc_entity, MANAGER_TYPE) {
            Some(Component::Manager(smc)) => Some(smc.shutdown),
            _ => None,
        }
    }

    /// Init all system: one entity is created and given the control
    /// component with the flag clear, then `on_start` of every system runs
    /// once, in registration order. Returns whether that was done. Where the
    /// world cannot host the control entity no system runs, and an entity
    /// that was created for it is destroyed again.
    /// * `world` - The world state.
    pub fn init<C>(&mut self, world: &mut EntityComponentManager<Component<C>>) -> (started: bool) where
        S: Sys<C>,

        requires
            old(world).wf(),
        ensures
            final(world).wf(),
            final(self).systems() == old(self).systems(),
            started == can_host(old(world)@),
            started ==> final(self).control() == old(world)@.roster.next().unwrap() && ran_starts(
                old(self).systems(),
                old(self).systems().len(),
                with_control(old(world)@),
                final(world)@,
            ),
            !started ==> final(self).control() == old(self).control() && final(world)@ == (match old(
                world,
            )@.roster.next() {
                Some(e) => old(world)@.create().destroy(e),
                None => old(world)@,
            }),
    {
        let entity = match world.create_entity() {
            Some(entity) => entity,
            None => {
                return false;
            },
        };
        let control = Component::Manager(SystemManagerComponent { shutdown: false });
        if !world.add_component(&entity, MANAGER_TYPE, control) {
            world.destroy_entity(&entity);
            return false;
        }
        self.smc_entity = entity;
        let ghost armed = world@;
        let mut i: usize = 0;
        while i < self.systems.len()
            invariant
                world.wf(),
                i <= self.systems@.len(),
                ran_starts(self.systems@, i as nat, armed, world@),
            decreases self.systems@.len() - i,
        {
            let ghost before = world@;
            self.systems[i].on_start(world);
            proof {
                lemma_ran_starts_step(self.systems@, i as nat, armed, before, world@);
            }
            i = i + 1;
        }
        true
    }

    /// Update all system: where the shutdown flag on the control entity is
    /// set, no system runs and the result is `false`; otherwise `on_update`
    /// of every system runs once, in registration order, and the result is
    /// `true`. A flag set during this call is seen by the next one.
    /// * `world` - The world state.
    pub fn update<C>(&mut self, world: &mut EntityComponentManager<Component<C>>) -> (running: bool) where
        S: Sys<C>,

        requires
            old(world).wf(),
            control_flag(old(world)@, old(self).control()) is Some,
        ensures
            final(world).wf(),
            final(self).systems() == old(self).systems(),
            final(self).control() == old(self).control(),
            running == (control_flag(old(world)@, old(self).control()) == Some(false)),
            !running ==> final(world)@ == old(world)@,
            running ==> ran_updates(
                old(self).systems(),
                old(self).systems().len(),
                old(world)@,
                final(world)@,
            ),
    {
        match self.shutdown_requested(world) {
            Some(false) => {},
            _ => {
                return false;
            },
        }
        let mut i: usize = 0;
        while i < self.systems.len()
            invariant
                world.wf(),
                i <= self.systems@.len(),
                ran_updates(self.systems@, i as nat, old(world)@, world@),
            decreases self.systems@.len() - i,
        {
            let ghost before = world@;
            self.systems[i].on_update(world);
            proof {
                lemma_ran_updates_step(self.systems@, i as nat, old(world)@, before, world@);
            }
            i = i + 1;
        }
        true
    }
}

/// Ask the scheduler to stop: the first living entity that owns a component
/// under the control key has the shutdown flag of its control component
/// set. Returns whether a flag was set; otherwise nothing changes.
pub fn request_shutdown<C>(world: &mut EntityComponentManager<Component<C>>) -> (requested: bool)
    requires
        old(world).wf(),
    ensures
        final(world).wf(),
        requested == (old(world)@.first_matching(seq![MANAGER_TYPE]) matches Some(e) && control_flag(
            old(world)@,
            e,
        ) is Some),
        requested ==> final(world)@ == old(world)@.write(
            old(world)@.first_matching(seq![MANAGER_TYPE]).unwrap(),
            MANAGER_TYPE,
            stopped_control(),
        ),
        !requested ==> final(world)@ == old(world)@,
{
    let keys = [MANAGER_TYPE];
    assert(keys@ =~= seq![MANAGER_TYPE]);
    match world.get_first_entity_with_types(keys.as_slice()) {
        Some(entity) => {
            proof {
                let model = world@;
                if model.registry.has(entity, MANAGER_TYPE) {
                    let current = model.registry.components[(entity, MANAGER_TYPE)];
                    assert(model.registry.components.insert((entity, MANAGER_TYPE), current)
                        =~= model.registry.components);
                }
            }
            match world.get_component_mut(&entity, MANAGER_TYPE) {
                Some(Component::Manager(smc)) => {
                    smc.shutdown = true;
                    true
                },
                _ => false,
            }
        },
        None => false,
    }
}

/// A shutdown request stops the scheduler at its next update and not
/// before: once the flag of the control entity is set, by `request_shutdown`
/// or by writing the component, the state is the stopped one, in which
/// `update` runs no system; whoever else owns a component keeps it.
pub proof fn law_shutdown_request_is_seen<C>(world: WorldModel<Component<C>>, control: Entity)
    requires
        control_flag(world, control) is Some,
    ensures
        control_flag(world.write(control, MANAGER_TYPE, stopped_control()), control) == Some(true),
        forall|entity: Entity, key: u64|
            (entity, key) != (control, MANAGER_TYPE) ==> #[trigger] world.write(
                control,
                MANAGER_TYPE,
                stopped_control(),
            ).get(entity, key) == world.get(entity, key),
{
}

} // verus!
