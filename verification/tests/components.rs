use orbit_engine::components::light::LightType;
use orbit_engine::components::{ComponentIndex, MetadataComponent, UIComponent, WidgetType};
use orbit_engine::managers::component::ComponentManager;
use orbit_engine::managers::entity::EntityManager;

#[test]
fn ui_component_defaults_and_toggle() {
    let mut c = UIComponent::new();
    assert!(!c.get_enabled());
    assert_eq!(c.widget_type, WidgetType::NoWidget);
    c.set_enabled(true);
    assert!(c.get_enabled());
    assert!(!UIComponent::default().get_enabled());
}

#[test]
fn metadata_set_get_clear() {
    let mut m = MetadataComponent::new();
    assert_eq!(m.get_metadata("name"), None);
    m.set_metadata("name", "Earth");
    m.set_metadata("kind", "planet");
    assert_eq!(m.get_metadata("name").map(|s| s.as_str()), Some("Earth"));
    m.set_metadata("name", "Terra");
    assert_eq!(m.get_metadata("name").map(|s| s.as_str()), Some("Terra"));
    m.clear_metadata("name");
    assert_eq!(m.get_metadata("name"), None);
    assert_eq!(m.get_metadata("kind").map(|s| s.as_str()), Some("planet"));
    m.clear_metadata("missing");
    assert_eq!(MetadataComponent::default().get_metadata("kind"), None);
}

#[test]
fn light_and_component_numbers() {
    assert_eq!(LightType::Point.shader_value(), 0);
    assert_eq!(LightType::Directional.shader_value(), 1);
    assert_eq!(ComponentIndex::Transform.position(), 0);
    assert_eq!(ComponentIndex::Ui.position(), 3);
}

#[test]
fn swapping_components_grows_the_columns() {
    let mut m: ComponentManager<u32, u32, u32> = ComponentManager::new();
    m.swap_components(0, 2);
    assert_eq!(m.physics.len(), 3);
    assert_eq!(m.interface.len(), 3);
    m.physics[0] = 10;
    m.physics[2] = 12;
    m.mesh[0] = 20;
    m.swap_components(0, 2);
    assert_eq!(m.physics, vec![12, 0, 10]);
    assert_eq!(m.mesh, vec![0, 0, 20]);
    m.swap_components(1, 1);
    assert_eq!(m.physics, vec![12, 0, 10]);
}

#[test]
fn moving_components_follows_the_index_map() {
    let mut m: ComponentManager<u32, u32, u32> = ComponentManager::new();
    m.swap_components(0, 1);
    m.physics[0] = 5;
    let mut other: ComponentManager<u32, u32, u32> = ComponentManager::new();
    other.swap_components(0, 1);
    other.physics[0] = 100;
    other.physics[1] = 101;
    other.transform[1] = 7;
    m.move_from_other(other, &vec![1, 3]);
    assert_eq!(m.physics, vec![5, 100, 0, 101]);
    assert_eq!(m.transform, vec![0, 0, 0, 7]);
    assert_eq!(m.interface.len(), 4);
}

#[test]
fn components_follow_entity_swaps() {
    let mut ents = EntityManager::new();
    let a = ents.new_entity();
    let b = ents.new_entity();
    let mut comps: ComponentManager<u32, u32, u32> = ComponentManager::new();
    comps.swap_components(0, 1);
    comps.physics[0] = 100;
    comps.physics[1] = 200;
    let swaps = ents.set_entity_parent(&b, &a);
    comps.apply_swaps(&swaps);
    let ia = ents.get_entity_index(&a).unwrap() as usize;
    let ib = ents.get_entity_index(&b).unwrap() as usize;
    assert_eq!(comps.physics[ia], 100);
    assert_eq!(comps.physics[ib], 200);
    assert_eq!(comps.mesh.len(), comps.physics.len());
}

#[test]
fn applying_no_swaps_changes_nothing() {
    let mut comps: ComponentManager<u32, u32, u32> = ComponentManager::new();
    comps.swap_components(0, 1);
    comps.physics[1] = 5;
    comps.apply_swaps(&vec![]);
    comps.apply_swaps(&vec![(1, 1)]);
    assert_eq!(comps.physics, vec![0, 5]);
}

#[test]
fn swapping_twice_puts_every_slot_back() {
    let mut m: ComponentManager<u32, u32, u32> = ComponentManager::new();
    m.swap_components(0, 1);
    m.physics[0] = 7;
    m.physics[1] = 8;
    m.swap_components(1, 3);
    m.swap_components(1, 3);
    assert_eq!(m.physics, vec![7, 8, 0, 0]);
    assert_eq!(m.transform, vec![0, 0, 0, 0]);
}
