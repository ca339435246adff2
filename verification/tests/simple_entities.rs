use orbit_engine::entity::EntityManager;

#[test]
fn entities_are_numbered_from_one() {
    let mut man = EntityManager::new();
    let id1 = man.new_entity("sun").id;
    let id2 = man.new_entity("earth").id;
    assert_eq!((id1, id2), (1, 2));
    assert_eq!(man.get_entity(2).map(|e| e.name.clone()), Some(String::from("earth")));
    assert!(man.get_entity(3).is_none());
    assert!(man.get_entity(0).is_none());
}

#[test]
fn entities_can_be_edited_in_place() {
    let mut man = EntityManager::new();
    man.new_entity("moon").name = String::from("luna");
    assert_eq!(man.get_entity(1).unwrap().name, "luna");
}

#[test]
fn numbers_held_are_one_to_k() {
    let mut man = EntityManager::new();
    for name in ["a", "b", "c"] {
        man.new_entity(name);
    }
    assert!(man.get_entity(0).is_none());
    for id in 1..=3 {
        assert_eq!(man.get_entity(id).map(|e| e.id), Some(id));
    }
    assert!(man.get_entity(4).is_none());
}
