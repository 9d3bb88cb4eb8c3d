use cacti::managers::entity_manager::EntityManager;

#[test]
fn entities_come_from_the_top_of_the_free_list() {
    let mut manager = EntityManager::new(3);
    assert_eq!(manager.create_entity(), Some(2));
    assert_eq!(manager.create_entity(), Some(1));
    assert_eq!(manager.create_entity(), Some(0));
    assert_eq!(manager.create_entity(), None);
    assert_eq!(manager.living_entities(), &vec![2, 1, 0]);
}

#[test]
fn living_entities_never_exceed_the_capacity() {
    let mut manager = EntityManager::new(4);
    let mut step = 0usize;
    for round in 0..50usize {
        if round % 3 == 2 {
            let victim = manager.living_entities().get(step % 4).copied();
            if let Some(e) = victim {
                assert!(manager.destroy_entity(&e));
            }
            step += 1;
        } else {
            manager.create_entity();
        }
        assert!(manager.living_entities().len() <= 4);
    }
}

#[test]
fn destroyed_id_is_handed_out_again() {
    let mut manager = EntityManager::new(4);
    let a = manager.create_entity().unwrap();
    let b = manager.create_entity().unwrap();
    assert!(manager.destroy_entity(&a));
    assert_eq!(manager.living_entities(), &vec![b]);
    assert_eq!(manager.create_entity(), Some(a));
    assert_eq!(manager.living_entities(), &vec![b, a]);
}

#[test]
fn destroying_twice_changes_nothing() {
    let mut manager = EntityManager::new(2);
    let a = manager.create_entity().unwrap();
    assert!(manager.destroy_entity(&a));
    assert!(!manager.destroy_entity(&a));
    assert!(!manager.destroy_entity(&7));
    assert_eq!(manager.create_entity(), Some(a));
    assert_eq!(manager.create_entity(), Some(0));
    assert_eq!(manager.create_entity(), None);
}

#[test]
fn empty_manager_has_no_entity() {
    let mut manager = EntityManager::new(0);
    assert_eq!(manager.create_entity(), None);
    assert!(manager.living_entities().is_empty());
}
