use crate::entity::Entity;
use vstd::prelude::*;

verus! {

/// The mathematical state of an [`EntityManager`]: the free list and the
/// living list, both in the order the manager holds them.
pub struct Roster {
    /// Identifiers that may be handed out; the last one is handed out next.
    pub available: Seq<Entity>,
    /// Identifiers currently alive, oldest allocation first.
    pub living: Seq<Entity>,
}

impl Roster {
    /// The fixed number of identifiers the manager was built with.
    pub open spec fn capacity(self) -> nat {
        self.available.len() + self.living.len()
    }

    /// Every identifier below the capacity occurs exactly once, either on
    /// the free list or on the living list.
    pub open spec fn wf(self) -> bool {
        let all = self.available + self.living;
        &&& all.no_duplicates()
        &&& forall|i: int| 0 <= i < all.len() ==> #[trigger] all[i] < all.len()
    }

    /// The roster of a fresh manager of `n` identifiers: all of them free,
    /// in ascending order.
    pub open spec fn fresh(n: nat) -> Roster {
        Roster { available: Seq::new(n, |i: int| i as usize), living: Seq::empty() }
    }

    /// Whether `entity` is alive.
    pub open spec fn is_living(self, entity: Entity) -> bool {
        self.living.contains(entity)
    }

    /// The identifier that the next creation hands out, if any is free.
    pub open spec fn next(self) -> Option<Entity> {
        if self.available.len() == 0 {
            None
        } else {
            Some(self.available.last())
        }
    }

    /// The roster after one creation.
    pub open spec fn create(self) -> Roster {
        if self.available.len() == 0 {
            self
        } else {
            Roster {
                available: self.available.drop_last(),
                living: self.living.push(self.available.last()),
            }
        }
    }

    /// The roster after destroying `entity`: unchanged unless it is alive.
    pub open spec fn destroy(self, entity: Entity) -> Roster {
        if self.living.contains(entity) {
            Roster {
                available: self.available.push(entity),
                living: self.living.remove(self.living.index_of(entity)),
            }
        } else {
            self
        }
    }
}

pub struct EntityManager {
    /// List of available entities.
    entities_available: Vec<Entity>,
    /// List of all living entities.
    entities_living: Vec<Entity>,
}

impl View for EntityManager {
    type V = Roster;

    closed spec fn view(&self) -> Roster {
        Roster { available: self.entities_available@, living: self.entities_living@ }
    }
}

impl EntityManager {
    /// The invariant of the manager.
    pub open spec fn wf(&self) -> bool {
        self@.wf()
    }

    /// Create new `EntityManager`
    /// # Arguments
    /// * `max_entities` - The maximum amount of entities.
    pub fn new(max_entities: usize) -> (manager: Self)
        ensures
            manager.wf(),
            manager@ == Roster::fresh(max_entities as nat),
    {
        let mut entities_available: Vec<Entity> = Vec::new();
        let mut e: usize = 0;
        while e < max_entities
            invariant
                e <= max_entities,
                entities_available@ == Seq::new(e as nat, |i: int| i as usize),
            decreases max_entities - e,
        {
            entities_available.push(e);
            e = e + 1;
        }
        Self { entities_available, entities_living: Vec::new() }
    }

    /// Create new `Entity`
    pub fn create_entity(&mut self) -> (entity: Option<Entity>)
        requires
            old(self).wf(),
        ensures
            final(self).wf(),
            entity == old(self)@.next(),
            final(self)@ == old(self)@.create(),
    {
        match self.entities_available.pop() {
            None => None,
            Some(entity) => {
                self.entities_living.push(entity);
                proof {
                    lemma_create_keeps_wf(old(self)@);
                }
                Some(entity)
            },
        }
    }

    /// Destroy an `Entity`: it leaves the living list and goes back to the
    /// free list. Returns whether `entity` was alive; where it was not,
    /// nothing changes.
    ///
    /// # Arguments
    /// * `entity` - The entity to destroy.
    pub fn destroy_entity(&mut self, entity: &Entity) -> (destroyed: bool)
        requires
            old(self).wf(),
        ensures
            final(self).wf(),
            destroyed == old(self)@.is_living(*entity),
            final(self)@ == old(self)@.destroy(*entity),
    {
        let mut i: usize = 0;
        while i < self.entities_living.len()
            invariant
                *self == *old(self),
                old(self).wf(),
                i <= self.entities_living.len(),
                forall|j: int| 0 <= j < i ==> self.entities_living@[j] != *entity,
            decreases self.entities_living.len() - i,
        {
            if self.entities_living[i] == *entity {
                proof {
                    lemma_destroy_keeps_wf(old(self)@, *entity);
                    lemma_living_distinct(old(self)@);
                }
                self.entities_living.remove(i);
                self.entities_available.push(*entity);
                return true;
            }
            i = i + 1;
        }
        false
    }

    /// The living entities in allocation order.
    pub fn living_entities(&self) -> (living: &Vec<Entity>)
        ensures
            living@ == self@.living,
    {
        &self.entities_living
    }
}

/// In a well-formed roster no identifier is alive twice, and every living
/// identifier is below the capacity.
pub proof fn lemma_living_distinct(r: Roster)
    requires
        r.wf(),
    ensures
        r.living.no_duplicates(),
        r.available.no_duplicates(),
        forall|i: int| 0 <= i < r.living.len() ==> #[trigger] r.living[i] < r.capacity(),
        forall|i: int, j: int|
            0 <= i < r.available.len() && 0 <= j < r.living.len() ==> r.available[i] != r.living[j],
{
    let all = r.available + r.living;
    let a = r.available.len() as int;
    assert forall|i: int, j: int|
        0 <= i < r.living.len() && 0 <= j < r.living.len() && i != j implies r.living[i] != r.living[j] by {
        assert(all[a + i] == r.living[i]);
        assert(all[a + j] == r.living[j]);
    }
    assert forall|i: int, j: int|
        0 <= i < r.available.len() && 0 <= j < r.available.len() && i != j implies r.available[i]
        != r.available[j] by {
        assert(all[i] == r.available[i]);
        assert(all[j] == r.available[j]);
    }
    assert forall|i: int| 0 <= i < r.living.len() implies #[trigger] r.living[i] < r.capacity() by {
        assert(all[a + i] == r.living[i]);
    }
    assert forall|i: int, j: int|
        0 <= i < r.available.len() && 0 <= j < r.living.len() implies r.available[i] != r.living[j] by {
        assert(all[i] == r.available[i]);
        assert(all[a + j] == r.living[j]);
    }
}

/// Creation keeps the roster well formed and its capacity.
pub proof fn lemma_create_keeps_wf(r: Roster)
    requires
        r.wf(),
    ensures
        r.create().wf(),
        r.create().capacity() == r.capacity(),
{
    if r.available.len() > 0 {
        let before = r.available + r.living;
        let after = r.create().available + r.create().living;
        assert forall|i: int, j: int|
            0 <= i < after.len() && 0 <= j < after.len() && i != j implies after[i] != after[j] by {
            let n = r.available.len() as int - 1;
            let pi = if i < n { i } else if i == after.len() - 1 { n } else { i + 1 };
            let pj = if j < n { j } else if j == after.len() - 1 { n } else { j + 1 };
            assert(after[i] == before[pi]);
            assert(after[j] == before[pj]);
        }
        assert forall|i: int| 0 <= i < after.len() implies #[trigger] after[i] < after.len() by {
            let n = r.available.len() as int - 1;
            let pi = if i < n { i } else if i == after.len() - 1 { n } else { i + 1 };
            assert(after[i] == before[pi]);
        }
    }
}

/// Destruction keeps the roster well formed and its capacity.
pub proof fn lemma_destroy_keeps_wf(r: Roster, entity: Entity)
    requires
        r.wf(),
    ensures
        r.destroy(entity).wf(),
        r.destroy(entity).capacity() == r.capacity(),
{
    if r.living.contains(entity) {
        let k = r.living.index_of(entity);
        let a = r.available.len() as int;
        let before = r.available + r.living;
        let after = r.destroy(entity).available + r.destroy(entity).living;
        assert forall|i: int, j: int|
            0 <= i < after.len() && 0 <= j < after.len() && i != j implies after[i] != after[j] by {
            let pi = if i < a { i } else if i == a { a + k } else if i - 1 < a + k { i - 1 } else { i };
            let pj = if j < a { j } else if j == a { a + k } else if j - 1 < a + k { j - 1 } else { j };
            assert(after[i] == before[pi]);
            assert(after[j] == before[pj]);
        }
        assert forall|i: int| 0 <= i < after.len() implies #[trigger] after[i] < after.len() by {
            let pi = if i < a { i } else if i == a { a + k } else if i - 1 < a + k { i - 1 } else { i };
            assert(after[i] == before[pi]);
        }
    }
}

/// One step of a manager's life.
pub enum RosterOp {
    /// A call of `create_entity`.
    Create,
    /// A call of `destroy_entity` with the given identifier.
    Destroy(Entity),
}

impl Roster {
    /// The roster after one step.
    pub open spec fn step(self, op: RosterOp) -> Roster {
        match op {
            RosterOp::Create => self.create(),
            RosterOp::Destroy(entity) => self.destroy(entity),
        }
    }

    /// The roster after the steps of `ops`, first to last.
    pub open spec fn run(self, ops: Seq<RosterOp>) -> Roster
        decreases ops.len(),
    {
        if ops.len() == 0 {
            self
        } else {
            self.run(ops.drop_last()).step(ops.last())
        }
    }
}

/// Whatever creations and destructions a fresh manager of `n` identifiers
/// goes through, in whatever order and with whatever arguments, it stays
/// well formed, keeps its capacity, and never has more than `n` entities
/// alive at once.
pub proof fn law_living_never_exceed_capacity(n: nat, ops: Seq<RosterOp>)
    requires
        n <= usize::MAX,
    ensures
        Roster::fresh(n).run(ops).wf(),
        Roster::fresh(n).run(ops).capacity() == n,
        Roster::fresh(n).run(ops).living.len() <= n,
        Roster::fresh(n).run(ops).living.no_duplicates(),
    decreases ops.len(),
{
    let fresh = Roster::fresh(n);
    if ops.len() > 0 {
        law_living_never_exceed_capacity(n, ops.drop_last());
        let before = fresh.run(ops.drop_last());
        match ops.last() {
            RosterOp::Create => lemma_create_keeps_wf(before),
            RosterOp::Destroy(entity) => lemma_destroy_keeps_wf(before, entity),
        }
    }
    lemma_living_distinct(fresh.run(ops));
}

/// A destroyed identifier is the next one handed out: once a living entity
/// is destroyed it is alive no more, and the creation that follows returns
/// its identifier and makes it alive again.
pub proof fn law_destroyed_id_is_reused(r: Roster, entity: Entity)
    requires
        r.wf(),
        r.is_living(entity),
    ensures
        !r.destroy(entity).is_living(entity),
        r.destroy(entity).next() == Some(entity),
        r.destroy(entity).create().is_living(entity),
{
    lemma_living_distinct(r);
    let again = r.destroy(entity).create();
    assert(again.living[again.living.len() - 1] == entity);
}

} // verus!
