use orbit_engine::managers::event::{Event, EventData, EventManager, EventTransmitter};

#[test]
fn events_are_delivered_in_push_order() {
    let mut man = EventManager::new();
    let e1 = Event {
        source: EventTransmitter::ECManager,
        dest: EventTransmitter::SceneManager,
        data: EventData::SetBoundingBox,
    };
    let e2 = Event {
        source: EventTransmitter::ResourceManager,
        dest: EventTransmitter::SystemsEtc,
        data: EventData::SetBoundingBox,
    };
    man.push_event(e1);
    man.push_event(e2);
    assert_eq!(man.pump_events(), vec![e1, e2]);
    assert!(man.pump_events().is_empty());
}

#[test]
fn pumping_an_empty_queue_delivers_nothing() {
    let mut man = EventManager::new();
    assert!(man.pump_events().is_empty());
}
