use cacti::component_array::ComponentArray;

#[test]
fn add_get_remove() {
    let mut array: ComponentArray<&'static str> = ComponentArray::new(4);
    assert!(array.add_component(&2, "two"));
    assert!(array.add_component(&0, "zero"));
    assert_eq!(array.get_component(&2), Some(&"two"));
    assert_eq!(array.get_component(&0), Some(&"zero"));
    assert_eq!(array.get_component(&1), None);
    assert!(array.rem_component(&2));
    assert_eq!(array.get_component(&2), None);
    assert_eq!(array.get_component(&0), Some(&"zero"));
    assert!(!array.rem_component(&2));
}

#[test]
fn add_fails_at_and_above_the_capacity() {
    let mut array: ComponentArray<u8> = ComponentArray::new(2);
    assert!(!array.add_component(&2, 1));
    assert!(!array.add_component(&9, 1));
    assert!(array.add_component(&1, 1));
    assert!(array.add_component(&0, 2));
    // the store holds two components: no slot is free, for anyone
    assert!(!array.add_component(&1, 3));
    assert!(!array.add_component(&0, 4));
    assert_eq!(array.get_component(&1), Some(&1));
    assert_eq!(array.get_component(&0), Some(&2));
    assert_eq!(array.get_entities(), &vec![1, 0]);
    let mut none: ComponentArray<u8> = ComponentArray::new(0);
    assert!(!none.add_component(&0, 1));
    assert_eq!(none.get_component(&0), None);
    assert!(!none.rem_component(&0));
}

#[test]
fn swap_remove_moves_the_last_component() {
    let mut array: ComponentArray<u32> = ComponentArray::new(4);
    assert!(array.add_component(&3, 30));
    assert!(array.add_component(&1, 10));
    assert!(array.add_component(&2, 20));
    assert_eq!(array.get_entities(), &vec![0, 1, 2, 0]);
    assert!(array.rem_component(&3));
    // entity 2 held the last slot and now holds the freed one
    assert_eq!(array.get_component(&2), Some(&20));
    assert_eq!(array.get_component(&1), Some(&10));
    assert_eq!(array.get_entities()[2], 0);
    assert_eq!(array.get_entities()[1], 1);
    // the entry of entity 3 is stale and not trusted
    assert_eq!(array.get_component(&3), None);
    assert_eq!(array.get_component(&0), None);
}

#[test]
fn get_component_mut_changes_one_component() {
    let mut array: ComponentArray<u32> = ComponentArray::new(4);
    assert!(array.add_component(&0, 1));
    assert!(array.add_component(&1, 2));
    *array.get_component_mut(&1).unwrap() += 40;
    assert_eq!(array.get_component(&1), Some(&42));
    assert_eq!(array.get_component(&0), Some(&1));
    assert!(array.get_component_mut(&2).is_none());
    assert!(array.get_component_mut(&7).is_none());
}

#[test]
fn fresh_array_has_zeroed_slots() {
    let array: ComponentArray<u32> = ComponentArray::new(3);
    assert_eq!(array.get_entities(), &vec![0, 0, 0]);
    assert_eq!(array.get_component(&0), None);
}

#[test]
fn store_holds_no_more_components_than_its_capacity() {
    let mut array: ComponentArray<char> = ComponentArray::with_entities(8, 2);
    assert_eq!(array.get_entities().len(), 8);
    assert!(array.add_component(&7, 'a'));
    assert!(array.add_component(&3, 'b'));
    // full: a third owner is refused, and so is an owner
    assert!(!array.add_component(&5, 'c'));
    assert_eq!(array.get_component(&5), None);
    assert!(!array.add_component(&3, 'd'));
    assert_eq!(array.get_component(&3), Some(&'b'));
    // an index that the store was not made for
    assert!(!array.add_component(&8, 'e'));
    assert!(array.rem_component(&7));
    assert!(array.add_component(&5, 'c'));
    assert_eq!(array.get_component(&5), Some(&'c'));
    assert_eq!(array.get_component(&3), Some(&'b'));
    assert_eq!(array.get_component(&7), None);
}

#[test]
fn an_addition_takes_the_slot_behind_the_last() {
    let mut array: ComponentArray<u8> = ComponentArray::new(5);
    for (count, entity) in [4usize, 0, 2, 3].into_iter().enumerate() {
        assert!(array.add_component(&entity, entity as u8));
        assert_eq!(array.get_entities()[entity], count);
    }
    // an owner takes no second slot, even while slots are free
    assert!(!array.add_component(&2, 9));
    assert_eq!(array.get_entities(), &vec![1, 0, 2, 3, 0]);
    assert_eq!(array.get_component(&2), Some(&2));
    // after a removal the next addition takes the slot that is now last
    assert!(array.rem_component(&0));
    assert_eq!(array.get_entities()[3], 1);
    assert!(array.add_component(&1, 1));
    assert_eq!(array.get_entities()[1], 3);
}

#[test]
fn a_full_store_refuses_every_entity() {
    let mut array: ComponentArray<u8> = ComponentArray::new(3);
    for entity in 0..3usize {
        assert!(array.add_component(&entity, entity as u8));
    }
    for entity in 0..5usize {
        assert!(!array.add_component(&entity, 99));
    }
    for entity in 0..3usize {
        assert_eq!(array.get_component(&entity), Some(&(entity as u8)));
    }
    assert_eq!(array.get_entities(), &vec![0, 1, 2]);
}
