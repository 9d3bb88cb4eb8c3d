use cacti::managers::component_manager::ComponentsManager;

const HEALTH: u64 = 7;
const NAME: u64 = 8;

#[test]
fn manager_registers_types_lazily() {
    let mut manager: ComponentsManager<i64> = ComponentsManager::new(4, 2, 4);
    assert_eq!(manager.get_type_id(HEALTH), None);
    assert!(manager.get_entities_with_component(HEALTH).is_none());
    assert!(manager.add_component(&1, HEALTH, 100));
    assert_eq!(manager.get_type_id(HEALTH), Some(0));
    assert_eq!(manager.get_entities_with_component(HEALTH), Some(&vec![0, 0, 0, 0]));
    assert!(manager.add_component(&3, HEALTH, 50));
    assert_eq!(manager.get_entities_with_component(HEALTH), Some(&vec![0, 0, 0, 1]));
    assert!(manager.add_component(&3, NAME, 1));
    assert_eq!(manager.get_type_id(NAME), Some(1));
    // the bound on types is reached
    assert!(!manager.add_component(&3, 9, 1));
    assert_eq!(manager.get_type_id(9), None);
}

#[test]
fn manager_sets_and_clears_signature_bits() {
    let mut manager: ComponentsManager<i64> = ComponentsManager::new(4, 4, 4);
    assert!(!manager.has_component(&2, HEALTH));
    assert!(manager.add_component(&2, HEALTH, 1));
    assert!(manager.has_component(&2, HEALTH));
    assert!(manager.has_component_id(&2, 0));
    assert!(!manager.has_component(&1, HEALTH));
    manager.remove_component(&2, HEALTH);
    assert!(!manager.has_component(&2, HEALTH));
    assert!(!manager.has_component_id(&2, 0));
    assert_eq!(manager.get_component(&2, HEALTH), None);
}

#[test]
fn on_entity_destroyed_detaches_every_component() {
    let mut manager: ComponentsManager<i64> = ComponentsManager::new(4, 4, 4);
    assert!(manager.add_component(&0, HEALTH, 10));
    assert!(manager.add_component(&1, HEALTH, 11));
    assert!(manager.add_component(&2, HEALTH, 12));
    assert!(manager.add_component(&0, NAME, 20));
    assert!(manager.add_component(&2, NAME, 22));
    manager.on_entity_destroyed(&0);
    assert_eq!(manager.get_component(&0, HEALTH), None);
    assert_eq!(manager.get_component(&0, NAME), None);
    assert!(!manager.has_component(&0, HEALTH));
    assert!(!manager.has_component(&0, NAME));
    assert_eq!(manager.get_component(&1, HEALTH), Some(&11));
    assert_eq!(manager.get_component(&2, HEALTH), Some(&12));
    assert_eq!(manager.get_component(&2, NAME), Some(&22));
    // entity 2 held the last slot of both stores and took the freed ones
    assert_eq!(manager.get_entities_with_component(HEALTH), Some(&vec![0, 1, 0, 0]));
    assert_eq!(manager.get_entities_with_component(NAME), Some(&vec![0, 0, 0, 0]));
    // an index that is no entity
    manager.on_entity_destroyed(&9);
    assert_eq!(manager.get_component(&1, HEALTH), Some(&11));
}

#[test]
fn manager_writes_through_mutable_reference() {
    let mut manager: ComponentsManager<i64> = ComponentsManager::new(4, 4, 4);
    assert!(manager.add_component(&0, HEALTH, 10));
    assert!(manager.add_component(&1, HEALTH, 11));
    *manager.get_component_mut(&1, HEALTH).unwrap() -= 5;
    assert_eq!(manager.get_component(&1, HEALTH), Some(&6));
    assert_eq!(manager.get_component(&0, HEALTH), Some(&10));
    assert!(manager.get_component_mut(&1, NAME).is_none());
    assert!(manager.get_component_mut(&9, HEALTH).is_none());
}
