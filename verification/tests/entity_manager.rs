use orbit_engine::managers::entity::{EntityID, EntityManager};

#[test]
fn new_manager_is_empty() {
    let man = EntityManager::new();
    assert_eq!(man.get_num_entities(), 0);
    assert_eq!(man.get_entity_index_by_uuid(EntityID(1)), None);
}

#[test]
fn new_entities_take_increasing_indices() {
    let mut man = EntityManager::new();
    let a = man.new_entity();
    let b = man.new_entity();
    let c = man.new_entity();
    assert_eq!(man.get_entity_index(&a), Some(0));
    assert_eq!(man.get_entity_index(&b), Some(1));
    assert_eq!(man.get_entity_index(&c), Some(2));
    assert_eq!(man.get_num_entities(), 3);
    assert!(man.is_live(&a) && man.is_live(&b) && man.is_live(&c));
    assert_eq!(man.get_entity_index_by_uuid(EntityID(1)), Some(0));
    assert_eq!(man.get_entity_index_by_uuid(EntityID(3)), Some(2));
    assert_eq!(man.get_entity_index_by_uuid(EntityID(4)), None);
}

#[test]
fn deleted_slot_is_reused_first() {
    let mut man = EntityManager::new();
    let a = man.new_entity();
    let b = man.new_entity();
    let c = man.new_entity();
    assert!(man.delete_entity(&b));
    assert!(!man.is_live(&b));
    assert_eq!(man.get_entity_index(&b), None);
    // the count is of storage slots, live or free
    assert_eq!(man.get_num_entities(), 3);
    let d = man.new_entity();
    assert_eq!(man.get_entity_index(&d), Some(1));
    assert!(d != b);
    assert!(man.is_live(&a) && man.is_live(&c));
}

#[test]
fn deleting_twice_fails() {
    let mut man = EntityManager::new();
    let a = man.new_entity();
    assert!(man.delete_entity(&a));
    assert!(!man.delete_entity(&a));
    assert_eq!(man.get_num_entities(), 1);
}

#[test]
fn deleting_a_parent_deletes_its_descendants() {
    let mut man = EntityManager::new();
    let root = man.new_entity();
    let child = man.new_entity();
    let grandchild = man.new_entity();
    let other = man.new_entity();
    man.set_entity_parent(&root, &child);
    man.set_entity_parent(&child, &grandchild);
    assert!(man.delete_entity(&root));
    assert!(!man.is_live(&root));
    assert!(!man.is_live(&child));
    assert!(!man.is_live(&grandchild));
    assert!(man.is_live(&other));
    assert_eq!(man.get_num_entities(), 4);
    let again = man.new_entity();
    assert_eq!(man.get_entity_index(&again), Some(0));
}

#[test]
fn deleting_a_child_unlinks_it_from_its_parent() {
    let mut man = EntityManager::new();
    let root = man.new_entity();
    let child = man.new_entity();
    man.set_entity_parent(&root, &child);
    assert_eq!(man.get_entity_children(&root).map(|c| c.len()), Some(1));
    assert!(man.delete_entity(&child));
    assert_eq!(man.get_entity_children(&root).map(|c| c.len()), Some(0));
    assert!(man.is_live(&root));
}

#[test]
fn parent_and_children_are_recorded() {
    let mut man = EntityManager::new();
    let p = man.new_entity();
    let c1 = man.new_entity();
    let c2 = man.new_entity();
    let swaps = man.set_entity_parent(&p, &c1);
    assert!(swaps.is_empty());
    man.set_entity_parent(&p, &c2);
    assert_eq!(man.get_entity_parent(&c1), Some(p));
    assert_eq!(man.get_entity_parent(&c2), Some(p));
    assert_eq!(man.get_entity_parent(&p), None);
    let children = man.get_entity_children(&p).unwrap();
    assert_eq!(children.len(), 2);
    assert!(children.contains(&c1) && children.contains(&c2));
    assert_eq!(man.get_parent_index_from_index(1), Some(0));
    assert_eq!(man.get_parent_index_from_index(0), None);
}

#[test]
fn a_parent_stored_after_its_child_is_moved_before_it() {
    let mut man = EntityManager::new();
    let child = man.new_entity();
    let parent = man.new_entity();
    let swaps = man.set_entity_parent(&parent, &child);
    assert!(!swaps.is_empty());
    let pi = man.get_entity_index(&parent).unwrap();
    let ci = man.get_entity_index(&child).unwrap();
    assert!(pi < ci);
    assert_eq!(man.get_entity_parent(&child), Some(parent));
    assert_eq!(man.get_parent_index_from_index(ci), Some(pi));
}

#[test]
fn reparenting_moves_the_child() {
    let mut man = EntityManager::new();
    let a = man.new_entity();
    let b = man.new_entity();
    let c = man.new_entity();
    man.set_entity_parent(&a, &c);
    man.set_entity_parent(&b, &c);
    assert_eq!(man.get_entity_parent(&c), Some(b));
    assert_eq!(man.get_entity_children(&a).map(|v| v.len()), Some(0));
    assert_eq!(man.get_entity_children(&b).map(|v| v.len()), Some(1));
}

#[test]
fn ancestor_is_the_topmost_parent() {
    let mut man = EntityManager::new();
    let a = man.new_entity();
    let b = man.new_entity();
    let c = man.new_entity();
    man.set_entity_parent(&a, &b);
    man.set_entity_parent(&b, &c);
    assert_eq!(man.get_entity_ancestor(&c), a);
    assert_eq!(man.get_entity_ancestor(&a), a);
}

#[test]
fn swapping_indices_keeps_handles_valid() {
    let mut man = EntityManager::new();
    let a = man.new_entity();
    let b = man.new_entity();
    let r = man.swap_entity_indices(&a, &b);
    assert_eq!(r, Some((0, 1)));
    assert_eq!(man.get_entity_index(&a), Some(1));
    assert_eq!(man.get_entity_index(&b), Some(0));
}

#[test]
fn moving_from_another_manager_appends_its_entities() {
    let mut man = EntityManager::new();
    let a = man.new_entity();
    let mut other = EntityManager::new();
    let p = other.new_entity();
    let q = other.new_entity();
    other.set_entity_parent(&p, &q);
    let map = man.move_from_other(other);
    assert_eq!(map, vec![1, 2]);
    assert_eq!(man.get_num_entities(), 3);
    assert!(man.is_live(&a));
    assert_eq!(man.get_entity_index_by_uuid(EntityID(2)), Some(1));
    assert_eq!(man.get_entity_index_by_uuid(EntityID(3)), Some(2));
    assert_eq!(man.get_parent_index_from_index(2), Some(1));
}

#[test]
fn reserving_space_changes_nothing_visible() {
    let mut man = EntityManager::new();
    man.reserve_space_for_entities(10);
    assert_eq!(man.get_num_entities(), 0);
    let a = man.new_entity();
    assert_eq!(man.get_entity_index(&a), Some(0));
}

#[test]
fn deleting_a_new_entity_restores_the_live_set() {
    let mut man = EntityManager::new();
    let a = man.new_entity();
    let b = man.new_entity();
    man.set_entity_parent(&a, &b);
    let c = man.new_entity();
    assert!(man.is_live(&c));
    assert!(man.delete_entity(&c));
    assert!(!man.is_live(&c));
    assert!(man.is_live(&a) && man.is_live(&b));
    assert_eq!(man.get_entity_parent(&b), Some(a));
}

#[test]
fn successive_new_entities_take_increasing_slots_after_deletes() {
    let mut man = EntityManager::new();
    let ents: Vec<_> = (0..5).map(|_| man.new_entity()).collect();
    man.delete_entity(&ents[3]);
    man.delete_entity(&ents[1]);
    let x = man.new_entity();
    let y = man.new_entity();
    let z = man.new_entity();
    assert_eq!(man.get_entity_index(&x), Some(1));
    assert_eq!(man.get_entity_index(&y), Some(3));
    assert_eq!(man.get_entity_index(&z), Some(5));
}

#[test]
fn a_child_moves_to_the_first_free_slot_after_its_parent() {
    let mut m = EntityManager::new();
    let a = m.new_entity();
    let b = m.new_entity();
    let swaps = m.set_entity_parent(&b, &a);
    assert_eq!(swaps, vec![(2, 0)]);
    assert_eq!(m.get_entity_parent(&a), Some(b));
    assert_eq!(m.get_entity_children(&b), Some(&vec![a]));
    assert!(m.is_live(&a) && m.is_live(&b));
    assert_eq!(m.get_entity_index(&b), Some(1));
    assert_eq!(m.get_entity_index(&a), Some(2));
    assert_eq!(m.get_num_entities(), 3);
    assert_eq!(m.get_parent_index_from_index(2), Some(1));
    assert!(m.is_descendant(&a, &b));
    assert!(!m.is_descendant(&b, &a));
    assert!(m.is_descendant(&a, &a));
}

#[test]
fn a_child_takes_a_vacant_slot_after_its_parent_when_there_is_one() {
    let mut m = EntityManager::new();
    let a = m.new_entity();
    let b = m.new_entity();
    let c = m.new_entity();
    let d = m.new_entity();
    m.delete_entity(&c);
    m.set_entity_parent(&b, &a);
    assert_eq!(m.get_entity_index(&a), Some(2));
    assert_eq!(m.get_num_entities(), 4);
    assert!(m.is_live(&d));
}

#[test]
fn reparenting_moves_only_the_childs_subtree() {
    let mut man = EntityManager::new();
    let a = man.new_entity();
    let b = man.new_entity();
    let c = man.new_entity();
    assert!(man.delete_entity(&c));
    let swaps = man.set_entity_parent(&b, &a);
    assert_eq!(swaps.len(), 1);
    let x = man.new_entity();
    let y = man.new_entity();
    let ia = man.get_entity_index(&a).unwrap();
    let ib = man.get_entity_index(&b).unwrap();
    let ix = man.get_entity_index(&x).unwrap();
    let iy = man.get_entity_index(&y).unwrap();
    assert_eq!(ib, 1);
    assert!(ib < ia);
    let mut all = vec![ia, ib, ix, iy];
    all.sort();
    all.dedup();
    assert_eq!(all.len(), 4);
    assert_eq!(man.get_entity_parent(&a), Some(b));
}

#[test]
fn a_reused_slot_keeps_the_slot_count() {
    let mut man = EntityManager::new();
    let a = man.new_entity();
    let _b = man.new_entity();
    assert!(man.delete_entity(&a));
    assert_eq!(man.get_num_entities(), 2);
    let c = man.new_entity();
    assert_eq!(man.get_entity_index(&c), Some(0));
    assert_eq!(man.get_num_entities(), 2);
}
