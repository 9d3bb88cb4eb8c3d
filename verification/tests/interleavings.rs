use cacti::world::EntityComponentManager;
use std::collections::{BTreeMap, BTreeSet};

/// A small deterministic generator, so that a failure can be replayed.
struct Dice(u64);

impl Dice {
    fn roll(&mut self, sides: u64) -> u64 {
        self.0 = self.0.wrapping_mul(6364136223846793005).wrapping_add(1442695040888963407);
        (self.0 >> 33) % sides
    }
}

/// What the world is expected to hold, kept in plain collections.
struct Expected {
    available: Vec<usize>,
    living: Vec<usize>,
    types: Vec<u64>,
    components: BTreeMap<(usize, u64), i64>,
}

const MAX_ENTITIES: usize = 6;
const MAX_TYPES: usize = 3;
const MAX_PER_TYPE: usize = 4;

impl Expected {
    fn accepts(&self, entity: usize, key: u64) -> bool {
        if entity >= MAX_ENTITIES {
            return false;
        }
        if self.types.contains(&key) {
            let owners = self.components.keys().filter(|(_, k)| *k == key).count();
            !self.components.contains_key(&(entity, key)) && owners < MAX_PER_TYPE
        } else {
            self.types.len() < MAX_TYPES
        }
    }

    fn matching(&self, keys: &[u64]) -> Vec<usize> {
        self.living
            .iter()
            .copied()
            .filter(|e| keys.iter().all(|k| self.components.contains_key(&(*e, *k))))
            .collect()
    }
}

fn compare(world: &EntityComponentManager<i64>, expected: &Expected, keys: &[u64]) {
    for entity in 0..MAX_ENTITIES + 2 {
        for key in keys {
            assert_eq!(world.get_component(&entity, *key), expected.components.get(&(entity, *key)));
            assert_eq!(world.has_component(&entity, *key), expected.components.contains_key(&(entity, *key)));
        }
    }
    for key in keys {
        let id = expected.types.iter().position(|k| k == key);
        assert_eq!(world.get_type_id(*key), id);
    }
    assert_eq!(world.get_entities_with_types(&[]), expected.living);
    for first in keys {
        let one = world.get_entities_with_types(&[*first]);
        assert_eq!(one, expected.matching(&[*first]));
        for second in keys {
            let both = world.get_entities_with_types(&[*first, *second]);
            let other: BTreeSet<usize> = world.get_entities_with_types(&[*second]).into_iter().collect();
            let meet: Vec<usize> = one.iter().copied().filter(|e| other.contains(e)).collect();
            assert_eq!(both, meet);
            assert_eq!(both, expected.matching(&[*first, *second]));
        }
    }
    assert!(expected.living.len() <= MAX_ENTITIES);
}

fn run(seed: u64, steps: usize) {
    let keys = [11u64, 22, 33, 44];
    let mut dice = Dice(seed);
    let mut world: EntityComponentManager<i64> = EntityComponentManager::new(MAX_ENTITIES, MAX_TYPES, MAX_PER_TYPE);
    let mut expected = Expected {
        available: (0..MAX_ENTITIES).collect(),
        living: Vec::new(),
        types: Vec::new(),
        components: BTreeMap::new(),
    };
    for step in 0..steps {
        let entity = dice.roll(MAX_ENTITIES as u64 + 2) as usize;
        let key = keys[dice.roll(4) as usize];
        match dice.roll(6) {
            0 => {
                let created = world.create_entity();
                let awaited = expected.available.pop();
                if let Some(e) = awaited {
                    expected.living.push(e);
                }
                assert_eq!(created, awaited);
            },
            1 => {
                let destroyed = world.destroy_entity(&entity);
                expected.components.retain(|(e, _), _| *e != entity);
                let position = expected.living.iter().position(|e| *e == entity);
                if let Some(p) = position {
                    expected.living.remove(p);
                    expected.available.push(entity);
                }
                assert_eq!(destroyed, position.is_some());
            },
            2 | 3 => {
                let value = step as i64;
                let accepted = expected.accepts(entity, key);
                assert_eq!(world.add_component(&entity, key, value), accepted);
                if accepted {
                    if !expected.types.contains(&key) {
                        expected.types.push(key);
                    }
                    expected.components.insert((entity, key), value);
                }
            },
            4 => {
                world.remove_component(&entity, key);
                expected.components.remove(&(entity, key));
            },
            _ => {
                if let Some(value) = world.get_component_mut(&entity, key) {
                    *value += 1000;
                }
                if let Some(value) = expected.components.get_mut(&(entity, key)) {
                    *value += 1000;
                }
            },
        }
        compare(&world, &expected, &keys);
    }
}

#[test]
fn world_agrees_with_plain_collections_under_interleavings() {
    run(1, 600);
    run(2024, 600);
    run(0xdead_beef, 600);
}
