use cacti::component_tuple::ComponentTuple;
use cacti::world::{EntityComponentManager, EntitySelector};
use cacti::world_state::WorldState;

const POSITION: u64 = 10;
const COLOR: u64 = 20;
const TAG: u64 = 30;

#[test]
fn world_state_scenario_of_two_types() {
    let mut state: WorldState<(i32, i32)> = WorldState::new(4, 4, 4);
    let e0 = state.create_entity().unwrap();
    let _e1 = state.create_entity().unwrap();
    let e2 = state.create_entity().unwrap();
    let _e3 = state.create_entity().unwrap();
    assert!(state.add_component(&e0, POSITION, (0, 0)));
    assert!(state.add_component(&e0, TAG, (0, 0)));
    assert!(state.add_component(&e2, POSITION, (0, 0)));
    assert_eq!(state.get_entities_with_types(vec![POSITION, TAG]), vec![e0]);
    assert!(state.destroy_entity(&e0));
    assert_eq!(state.get_entities_with_types(vec![POSITION, TAG]), Vec::<usize>::new());
    assert_eq!(state.get_entities_with_types(vec![POSITION]), vec![e2]);
}

#[test]
fn type_ids_follow_first_use() {
    let mut state: WorldState<u8> = WorldState::new(8, 8, 8);
    let e = state.create_entity().unwrap();
    assert_eq!(state.get_type_id(&COLOR), None);
    assert!(state.add_component(&e, COLOR, 1));
    assert!(state.add_component(&e, POSITION, 2));
    assert!(!state.add_component(&e, COLOR, 3));
    assert_eq!(state.get_component_ref(&e, COLOR), Some(&1));
    assert_eq!(state.get_type_id(&COLOR), Some(0));
    assert_eq!(state.get_type_id(&POSITION), Some(1));
    assert_eq!(state.get_type_id(&TAG), None);
    // removal keeps the type registered
    state.rem_component(&e, COLOR);
    assert_eq!(state.get_type_id(&COLOR), Some(0));
}

#[test]
fn signature_bits_follow_ownership() {
    let mut state: WorldState<u8> = WorldState::new(8, 8, 8);
    let e = state.create_entity().unwrap();
    let other = state.create_entity().unwrap();
    assert!(state.add_component(&e, COLOR, 1));
    assert!(state.add_component(&other, POSITION, 2));
    assert!(state.has_component(&e, 0));
    assert!(!state.has_component(&e, 1));
    assert!(!state.has_component(&other, 0));
    assert!(state.has_component(&other, 1));
    // a type id that is not in use, an entity that does not exist
    assert!(!state.has_component(&e, 2));
    assert!(!state.has_component(&e, 700));
    assert!(!state.has_component(&99, 0));
    state.rem_component(&e, COLOR);
    assert!(!state.has_component(&e, 0));
    assert!(state.destroy_entity(&other));
    assert!(!state.has_component(&other, 1));
}

#[test]
fn world_state_components_are_read_and_written() {
    let mut state: WorldState<String> = WorldState::new(2, 2, 2);
    let e = state.create_entity().unwrap();
    assert!(state.add_component(&e, COLOR, String::from("red")));
    assert_eq!(state.get_component_ref(&e, COLOR), Some(&String::from("red")));
    state.get_component_mut(&e, COLOR).unwrap().push_str("dish");
    assert_eq!(state.get_component_ref(&e, COLOR), Some(&String::from("reddish")));
    assert_eq!(state.get_component_ref(&e, TAG), None);
    assert!(state.get_component_mut(&e, TAG).is_none());
}

#[test]
fn signatures_hold_more_than_one_block_of_types() {
    let mut state: WorldState<u32> = WorldState::new(2, 130, 2);
    let e = state.create_entity().unwrap();
    for key in 0..130u64 {
        assert!(state.add_component(&e, 1000 + key, key as u32));
    }
    assert!(!state.add_component(&e, 5000, 0));
    for id in 0..130usize {
        assert!(state.has_component(&e, id));
    }
    assert!(!state.has_component(&e, 130));
    state.rem_component(&e, 1064);
    assert!(!state.has_component(&e, 64));
    assert!(state.has_component(&e, 63));
    assert!(state.has_component(&e, 65));
    assert_eq!(state.get_component_ref(&e, 1129), Some(&129));
}

#[test]
fn component_tuple_queries_a_world_state() {
    let mut state: WorldState<u8> = WorldState::new(4, 4, 4);
    let a = state.create_entity().unwrap();
    let b = state.create_entity().unwrap();
    assert!(state.add_component(&a, COLOR, 1));
    assert!(state.add_component(&b, COLOR, 1));
    assert!(state.add_component(&b, TAG, 1));
    assert_eq!(vec![COLOR].get_entities(&state), vec![a, b]);
    assert_eq!(vec![COLOR, TAG].get_entities(&state), vec![b]);
    assert_eq!(vec![COLOR].get_single_entity(&state), Some(a));
    assert_eq!(vec![TAG].get_single_entity(&state), Some(b));
    assert_eq!(vec![POSITION].get_single_entity(&state), None);
}

#[test]
fn entity_selector_queries_a_world() {
    let mut world: EntityComponentManager<u8> = EntityComponentManager::new(4, 4, 4);
    let a = world.create_entity().unwrap();
    let b = world.create_entity().unwrap();
    assert!(world.add_component(&a, COLOR, 1));
    assert!(world.add_component(&b, COLOR, 1));
    assert!(world.add_component(&b, TAG, 1));
    assert_eq!([COLOR].query_from(&world), vec![a, b]);
    assert_eq!([COLOR, TAG].query_from(&world), vec![b]);
    assert_eq!([TAG, COLOR].query_first_from(&world), Some(b));
    assert_eq!(vec![COLOR].as_slice().query_first_from(&world), Some(a));
    assert_eq!([POSITION].query_first_from(&world), None);
    assert_eq!(world.get_type_id(TAG), Some(1));
    assert!(world.has_component_id(&b, 1));
    assert!(!world.has_component_id(&a, 1));
}

#[test]
fn world_without_room_for_types_takes_no_component() {
    let mut state: WorldState<u8> = WorldState::new(2, 0, 2);
    let e = state.create_entity().unwrap();
    assert!(!state.add_component(&e, COLOR, 1));
    assert_eq!(state.get_component_ref(&e, COLOR), None);
    assert!(!state.has_component(&e, 0));
    assert!(state.destroy_entity(&e));
    assert_eq!(state.get_entities_with_types(vec![]), Vec::<usize>::new());
}
