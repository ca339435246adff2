use orbit_engine::managers::resource::cubemap::{FaceReceipt, TempCubemap};

#[test]
fn faces_by_file_name() {
    assert_eq!(TempCubemap::face_slot_from_filename("Left"), Some(0));
    assert_eq!(TempCubemap::face_slot_from_filename("Back"), Some(5));
    assert_eq!(TempCubemap::face_slot_from_filename("left"), None);
}

#[test]
fn cube_map_targets() {
    assert_eq!(TempCubemap::get_target_from_index(0), Some(0x8518));
    assert_eq!(TempCubemap::get_target_from_index(1), Some(0x8517));
    assert_eq!(TempCubemap::get_target_from_index(2), Some(0x8519));
    assert_eq!(TempCubemap::get_target_from_index(3), Some(0x8516));
    assert_eq!(TempCubemap::get_target_from_index(4), Some(0x851A));
    assert_eq!(TempCubemap::get_target_from_index(5), Some(0x8515));
    assert_eq!(TempCubemap::get_target_from_index(6), None);
}

#[test]
fn cubemap_completes_with_the_sixth_face() {
    let mut c = TempCubemap::new();
    assert!(!c.is_ready_to_convert());
    let names = ["Left", "Right", "Top", "Bottom", "Front"];
    for (i, n) in names.iter().enumerate() {
        assert_eq!(c.receive_face(n, &[i as u8 + 1]), FaceReceipt::Pending);
    }
    assert_eq!(c.receive_face("Unknown", &[9]), FaceReceipt::Pending);
    assert_eq!(c.receive_face("Back", &[6, 6]), FaceReceipt::Completed);
    assert_eq!(c.face(0), &[1]);
    assert_eq!(c.face(5), &[6, 6]);
    assert!(!c.is_ready_to_convert());
    assert_eq!(c.receive_face("Left", &[7]), FaceReceipt::AlreadyComplete);
    assert_eq!(c.face(0), &[1]);
}

#[test]
fn empty_face_does_not_count() {
    let mut c = TempCubemap::default();
    for n in ["Left", "Right", "Top", "Bottom", "Front"] {
        c.receive_face(n, &[1]);
    }
    assert_eq!(c.receive_face("Back", &[]), FaceReceipt::Pending);
}

#[test]
fn face_buffer_by_file_name() {
    let mut c = TempCubemap::new();
    c.get_face_from_filename("Top").unwrap().extend_from_slice(&[3, 4]);
    assert_eq!(c.face(2), &[3, 4]);
    assert!(c.get_face_from_filename("Side").is_none());
}
