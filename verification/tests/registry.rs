use orbit_engine::managers::resource::cubemap::FaceReceipt;
use orbit_engine::managers::resource::registry::{
    MaterialPlan, MeshPlan, NameSet, ResourceManager, TextureArrival, TexturePlan,
};
use orbit_engine::managers::resource::requests::MeshRecipe;

#[test]
fn name_sets_hold_each_name_once() {
    let mut s = NameSet::new();
    assert!(!s.contains("a"));
    assert!(s.insert("a"));
    assert!(!s.insert("a"));
    assert!(s.contains("a"));
    assert!(!s.contains("b"));
}

#[test]
fn materials_are_created_once() {
    let mut res = ResourceManager::new();
    match res.get_or_create_material("phong") {
        MaterialPlan::Create(t) => assert_eq!(t.frag, "phong.frag"),
        _ => panic!("expected a new material"),
    }
    assert!(res.get_material("phong"));
    assert!(matches!(res.get_or_create_material("phong"), MaterialPlan::Cached));
    assert!(matches!(res.get_or_create_material("nonsense"), MaterialPlan::Unknown));
    assert!(!res.get_material("nonsense"));
}

#[test]
fn meshes_are_generated_or_requested() {
    let mut res = ResourceManager::new();
    assert!(matches!(res.get_or_create_mesh("cube").0, MeshPlan::Generate(MeshRecipe::Cube)));
    assert!(matches!(res.get_or_create_mesh("cube").0, MeshPlan::Cached));
    match res.get_or_create_mesh("ship.glb").0 {
        MeshPlan::Request(path) => assert_eq!(path, "public/gltf/ship.glb"),
        _ => panic!("expected a request"),
    }
    // the placeholder is kept under the request path, not the identifier
    assert!(res.get_mesh("public/gltf/ship.glb"));
    assert!(!res.get_mesh("ship.glb"));
    assert!(matches!(res.get_or_create_mesh("ship.glb").0, MeshPlan::Request(_)));
}

#[test]
fn new_meshes_ask_for_their_materials_first() {
    let mut res = ResourceManager::new();
    let (plan, mats) = res.get_or_create_mesh("cube");
    assert!(matches!(plan, MeshPlan::Generate(MeshRecipe::Cube)));
    assert_eq!(mats.len(), 2);
    assert_eq!(mats[0].0, "default");
    assert_eq!(mats[1].0, "default_screenspace");
    match &mats[0].1 {
        MaterialPlan::Create(t) => assert_eq!(t.frag, "white.frag"),
        _ => panic!("expected a new material"),
    }
    assert!(matches!(mats[1].1, MaterialPlan::Create(_)));
    assert!(res.get_material("default"));
    assert!(res.get_material("default_screenspace"));
    assert!(!res.get_material("vertex_color"));

    let (plan, mats) = res.get_or_create_mesh("axes");
    assert!(matches!(plan, MeshPlan::Generate(MeshRecipe::Axes)));
    assert_eq!(mats.len(), 3);
    assert!(matches!(mats[0].1, MaterialPlan::Cached));
    assert!(matches!(mats[1].1, MaterialPlan::Cached));
    assert_eq!(mats[2].0, "vertex_color");
    assert!(matches!(mats[2].1, MaterialPlan::Create(_)));
    assert!(res.get_material("vertex_color"));

    let (plan, mats) = res.get_or_create_mesh("cube");
    assert!(matches!(plan, MeshPlan::Cached));
    assert!(mats.is_empty());
}

#[test]
fn textures_are_requested_with_a_fallback_made_once() {
    let mut res = ResourceManager::new();
    match res.get_or_request_texture("public/textures/earth.jpg", false) {
        TexturePlan::Request { urls, make_fallback } => {
            assert_eq!(urls, vec!["public/textures/earth.jpg"]);
            assert_eq!(make_fallback, Some(String::from("public/textures/default_texture")));
        }
        _ => panic!("expected a request"),
    }
    match res.get_or_request_texture("sky", true) {
        TexturePlan::Request { urls, make_fallback } => {
            assert_eq!(urls.len(), 6);
            assert_eq!(urls[0], "sky/Right.jpg");
            assert_eq!(make_fallback, None);
        }
        _ => panic!("expected a request"),
    }
    assert!(matches!(res.get_or_request_texture("sky", true), TexturePlan::Cached));
    assert_eq!(res.receive_texture_file_bytes("sky"), TextureArrival::Replace);
    assert_eq!(res.receive_texture_file_bytes("moon.png"), TextureArrival::Insert);
    assert!(matches!(res.get_or_request_texture("moon.png", false), TexturePlan::Cached));
}

#[test]
fn cubemap_faces_are_gathered_per_cubemap() {
    let mut res = ResourceManager::new();
    assert_eq!(res.cubemap_face("sky", 0), None);
    for face in ["Left", "Right", "Top", "Bottom", "Front"] {
        assert_eq!(res.receive_cubemap_face("sky", face, &[1]), FaceReceipt::Pending);
    }
    assert_eq!(res.receive_cubemap_face("stars", "Back", &[9]), FaceReceipt::Pending);
    assert_eq!(res.receive_cubemap_face("sky", "Back", &[2, 3]), FaceReceipt::Completed);
    assert_eq!(res.cubemap_face("sky", 5), Some(&[2u8, 3][..]));
    assert_eq!(res.cubemap_face("stars", 5), Some(&[9u8][..]));
    assert_eq!(res.cubemap_face("stars", 0), Some(&[][..]));
    assert_eq!(res.receive_cubemap_face("sky", "Back", &[4]), FaceReceipt::AlreadyComplete);
    assert_eq!(res.cubemap_face("sky", 5), Some(&[2u8, 3][..]));
}

#[test]
fn cubemap_face_files_are_split_by_path() {
    let mut res = ResourceManager::new();
    for face in ["Left", "Right", "Top", "Bottom", "Front"] {
        let path = format!("textures/sky/{}.jpg", face);
        assert!(res.receive_cubemap_face_file_bytes(&path, &[7]).is_none());
    }
    assert!(res.receive_cubemap_face_file_bytes("textures/sky/Side.jpg", &[1]).is_none());
    let (id, faces) = res.receive_cubemap_face_file_bytes("textures/sky/Back.jpg", &[8, 9]).unwrap();
    assert_eq!(id, "textures/sky");
    assert_eq!(faces, vec![vec![7], vec![7], vec![7], vec![7], vec![7], vec![8, 9]]);
    assert!(res.receive_cubemap_face_file_bytes("textures/sky/Back.jpg", &[1]).is_none());
    assert_eq!(res.cubemap_face("textures/sky", 5), Some(&[8u8, 9][..]));
}

#[test]
fn a_face_path_without_a_file_name_is_ignored() {
    let mut res = ResourceManager::new();
    assert!(res.receive_cubemap_face_file_bytes("", &[1]).is_none());
    assert_eq!(res.cubemap_face("", 0), None);
}

#[test]
fn a_cubemap_completes_once_at_its_last_missing_face() {
    let mut res = ResourceManager::new();
    let files = ["Top", "Top", "Side", "Left", "Right", "Bottom", "Front", "Left", "Back", "Top", "Back"];
    let mut receipts = Vec::new();
    for f in files.iter() {
        receipts.push(res.receive_cubemap_face("moon", f, &[1]));
    }
    let completed: Vec<usize> = receipts
        .iter()
        .enumerate()
        .filter(|(_, r)| **r == FaceReceipt::Completed)
        .map(|(i, _)| i)
        .collect();
    assert_eq!(completed, vec![8]);
    assert!(receipts[..8].iter().all(|r| *r == FaceReceipt::Pending));
    assert!(receipts[9..].iter().all(|r| *r == FaceReceipt::AlreadyComplete));
}
