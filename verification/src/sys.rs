use crate::components::smc::Component;
use crate::world::{EntityComponentManager, WorldModel};
use vstd::prelude::*;

verus! {

/// A unit of behaviour that the scheduler runs against the world: once at
/// start-up, then once per frame. A system writes both hooks; one that has
/// nothing to do at start-up or in a frame writes an empty body.
///
/// `starts` and `updates` say what the hooks do to the state of the world:
/// every call of a hook turns the state into one that its relation allows,
/// and leaves the world sound. A system that overrides neither relation
/// says nothing about its hooks, and nothing is then known of them.
pub trait Sys<C> {
    /// What a call of `on_start` turns `pre` into.
    open spec fn starts(&self, pre: WorldModel<Component<C>>, post: WorldModel<Component<C>>) -> bool {
        true
    }

    /// What a call of `on_update` turns `pre` into.
    open spec fn updates(&self, pre: WorldModel<Component<C>>, post: WorldModel<Component<C>>) -> bool {
        true
    }

    /// Called once after all system was registred.
    fn on_start(&self, world: &mut EntityComponentManager<Component<C>>)
        requires
            old(world).wf(),
        ensures
            final(world).wf(),
            self.starts(old(world)@, final(world)@),
    ;

    /// Called once per frame.
    fn on_update(&self, world: &mut EntityComponentManager<Component<C>>)
        requires
            old(world).wf(),
        ensures
            final(world).wf(),
            self.updates(old(world)@, final(world)@),
    ;
}

/// A boxed system is the system in the box, so that one scheduler can hold
/// systems of different types.
impl<C> Sys<C> for Box<dyn Sys<C>> {
    open spec fn starts(&self, pre: WorldModel<Component<C>>, post: WorldModel<Component<C>>) -> bool {
        (**self).starts(pre, post)
    }

    open spec fn updates(&self, pre: WorldModel<Component<C>>, post: WorldModel<Component<C>>) -> bool {
        (**self).updates(pre, post)
    }

    fn on_start(&self, world: &mut EntityComponentManager<Component<C>>) {
        (**self).on_start(world)
    }

    fn on_update(&self, world: &mut EntityComponentManager<Component<C>>) {
        (**self).on_update(world)
    }
}

/// Whether one `on_start` of `system` turns `pre` into `post`.
pub open spec fn start_step<C, S: Sys<C>>(
    system: S,
    pre: WorldModel<Component<C>>,
    post: WorldModel<Component<C>>,
) -> bool {
    system.starts(pre, post)
}

/// Whether one `on_update` of `system` turns `pre` into `post`.
pub open spec fn update_step<C, S: Sys<C>>(
    system: S,
    pre: WorldModel<Component<C>>,
    post: WorldModel<Component<C>>,
) -> bool {
    system.updates(pre, post)
}

/// Whether `post` comes from `pre` by one `on_start` of each of the first
/// `n` systems, in the order of the sequence.
pub open spec fn ran_starts<C, S: Sys<C>>(
    systems: Seq<S>,
    n: nat,
    pre: WorldModel<Component<C>>,
    post: WorldModel<Component<C>>,
) -> bool
    decreases n,
{
    if n == 0 {
        post == pre
    } else {
        exists|mid: WorldModel<Component<C>>|
            ran_starts(systems, (n - 1) as nat, pre, mid) && #[trigger] start_step(systems[n - 1], mid, post)
    }
}

/// Whether `post` comes from `pre` by one `on_update` of each of the first
/// `n` systems, in the order of the sequence.
pub open spec fn ran_updates<C, S: Sys<C>>(
    systems: Seq<S>,
    n: nat,
    pre: WorldModel<Component<C>>,
    post: WorldModel<Component<C>>,
) -> bool
    decreases n,
{
    if n == 0 {
        post == pre
    } else {
        exists|mid: WorldModel<Component<C>>|
            ran_updates(systems, (n - 1) as nat, pre, mid) && #[trigger] update_step(systems[n - 1], mid, post)
    }
}

/// One more `on_start`, of the next system, extends a run of start hooks.
pub proof fn lemma_ran_starts_step<C, S: Sys<C>>(
    systems: Seq<S>,
    n: nat,
    pre: WorldModel<Component<C>>,
    mid: WorldModel<Component<C>>,
    post: WorldModel<Component<C>>,
)
    requires
        n < systems.len(),
        ran_starts(systems, n, pre, mid),
        start_step(systems[n as int], mid, post),
    ensures
        ran_starts(systems, (n + 1) as nat, pre, post),
{
    let m: nat = (n + 1) as nat;
    assert(ran_starts(systems, (m - 1) as nat, pre, mid) && start_step(systems[m - 1], mid, post));
}

/// One more `on_update`, of the next system, extends a run of update hooks.
pub proof fn lemma_ran_updates_step<C, S: Sys<C>>(
    systems: Seq<S>,
    n: nat,
    pre: WorldModel<Component<C>>,
    mid: WorldModel<Component<C>>,
    post: WorldModel<Component<C>>,
)
    requires
        n < systems.len(),
        ran_updates(systems, n, pre, mid),
        update_step(systems[n as int], mid, post),
    ensures
        ran_updates(systems, (n + 1) as nat, pre, post),
{
    let m: nat = (n + 1) as nat;
    assert(ran_updates(systems, (m - 1) as nat, pre, mid) && update_step(systems[m - 1], mid, post));
}

/// Systems take effect in registration order: with three systems
/// registered, a frame turns `pre` into `post` exactly when the first system
/// turns `pre` into some state, the second turns that into another, and the
/// third turns that one into `post`.
pub proof fn law_three_systems_update_in_order<C, S: Sys<C>>(
    first: S,
    second: S,
    third: S,
    pre: WorldModel<Component<C>>,
    post: WorldModel<Component<C>>,
)
    ensures
        ran_updates(seq![first, second, third], 3, pre, post) <==> exists|
            a: WorldModel<Component<C>>,
            b: WorldModel<Component<C>>,
        |
            #![trigger update_step(first, pre, a), update_step(second, a, b)]
            update_step(first, pre, a) && update_step(second, a, b) && update_step(third, b, post),
{
    let systems = seq![first, second, third];
    reveal_with_fuel(ran_updates, 4);
    if ran_updates(systems, 3, pre, post) {
        let b = choose|b: WorldModel<Component<C>>|
            ran_updates(systems, 2, pre, b) && #[trigger] update_step(systems[2], b, post);
        let a = choose|a: WorldModel<Component<C>>|
            ran_updates(systems, 1, pre, a) && #[trigger] update_step(systems[1], a, b);
        let z = choose|z: WorldModel<Component<C>>|
            ran_updates(systems, 0, pre, z) && #[trigger] update_step(systems[0], z, a);
    }
    if exists|a: WorldModel<Component<C>>, b: WorldModel<Component<C>>|
        #![trigger update_step(first, pre, a), update_step(second, a, b)]
        update_step(first, pre, a) && update_step(second, a, b) && update_step(third, b, post) {
        let (a, b) = choose|a: WorldModel<Component<C>>, b: WorldModel<Component<C>>|
            #![trigger update_step(first, pre, a), update_step(second, a, b)]
            update_step(first, pre, a) && update_step(second, a, b) && update_step(third, b, post);
        lemma_ran_updates_step(systems, 0, pre, pre, a);
        lemma_ran_updates_step(systems, 1, pre, a, b);
        lemma_ran_updates_step(systems, 2, pre, b, post);
    }
}

/// A frame of the systems in `systems` followed by one update of `next` is
/// a frame of `systems` with `next` registered last: a system registered
/// later acts on what those registered earlier left.
pub proof fn law_later_system_runs_after<C, S: Sys<C>>(
    systems: Seq<S>,
    next: S,
    pre: WorldModel<Component<C>>,
    mid: WorldModel<Component<C>>,
    post: WorldModel<Component<C>>,
)
    requires
        ran_updates(systems, systems.len(), pre, mid),
        update_step(next, mid, post),
    ensures
        ran_updates(systems.push(next), systems.len() + 1, pre, post),
{
    lemma_ran_updates_prefix(systems, next, systems.len(), pre, mid);
    lemma_ran_updates_step(systems.push(next), systems.len(), pre, mid, post);
}

/// Registering a system does not change what the systems before it do.
proof fn lemma_ran_updates_prefix<C, S: Sys<C>>(
    systems: Seq<S>,
    next: S,
    n: nat,
    pre: WorldModel<Component<C>>,
    post: WorldModel<Component<C>>,
)
    requires
        n <= systems.len(),
        ran_updates(systems, n, pre, post),
    ensures
        ran_updates(systems.push(next), n, pre, post),
    decreases n,
{
    if n > 0 {
        let mid = choose|mid: WorldModel<Component<C>>|
            ran_updates(systems, (n - 1) as nat, pre, mid) && #[trigger] update_step(systems[n - 1], mid, post);
        lemma_ran_updates_prefix(systems, next, (n - 1) as nat, pre, mid);
        lemma_ran_updates_step(systems.push(next), (n - 1) as nat, pre, mid, post);
    }
}

} // verus!
