use orbit_engine::managers::resource::requests::{
    bytes_route, cubemap_face_urls, decimal_string, default_texture_path, gltf_identifier,
    gltf_request_path, mesh_recipe, text_route, BytesRoute, GltfResourceKind, MeshRecipe,
    TextRoute,
};

#[test]
fn built_in_meshes() {
    assert_eq!(mesh_recipe("cube"), Some(MeshRecipe::Cube));
    assert_eq!(mesh_recipe("grid"), Some(MeshRecipe::Grid { num_lines: 11 }));
    assert_eq!(mesh_recipe("circle"), Some(MeshRecipe::Circle { num_pts: 100 }));
    assert_eq!(
        mesh_recipe("lat_long_sphere"),
        Some(MeshRecipe::LatLongSphere {
            num_lat_segs: 32,
            num_long_segs: 32,
            smooth_normals: true,
            shared_vertices: true
        })
    );
    assert_eq!(
        mesh_recipe("ico_sphere"),
        Some(MeshRecipe::IcoSphere { num_subdiv: 2, smooth_normals: false })
    );
    assert_eq!(mesh_recipe("teapot.gltf"), None);
}

#[test]
fn request_paths() {
    assert_eq!(gltf_request_path("ship.glb"), "public/gltf/ship.glb");
    assert_eq!(default_texture_path("default_texture"), "public/textures/default_texture");
    let urls = cubemap_face_urls("sky");
    assert_eq!(
        urls,
        vec![
            "sky/Right.jpg",
            "sky/Left.jpg",
            "sky/Top.jpg",
            "sky/Bottom.jpg",
            "sky/Front.jpg",
            "sky/Back.jpg"
        ]
    );
}

#[test]
fn content_routes() {
    assert_eq!(text_route("scene"), Some(TextRoute::Scene));
    assert_eq!(text_route("vectors_database"), Some(TextRoute::Database));
    assert_eq!(text_route("texture"), None);
    assert_eq!(bytes_route("cubemap_face"), Some(BytesRoute::CubemapFace));
    assert_eq!(bytes_route("gltf"), Some(BytesRoute::Gltf));
    assert_eq!(bytes_route("scene"), None);
}

#[test]
fn decimal_notation() {
    assert_eq!(decimal_string(0), "0");
    assert_eq!(decimal_string(7), "7");
    assert_eq!(decimal_string(10), "10");
    assert_eq!(decimal_string(4096), "4096");
    assert_eq!(decimal_string(usize::MAX), usize::MAX.to_string());
}

#[test]
fn gltf_resource_identifiers() {
    assert_eq!(gltf_identifier("ship.glb", GltfResourceKind::Mesh, 3), "ship.glb_mesh_3");
    assert_eq!(gltf_identifier("ship.glb", GltfResourceKind::Material, 12), "ship.glb_mesh_12");
    assert_eq!(gltf_identifier("ship.glb", GltfResourceKind::Texture, 0), "ship.glb_mesh_0");
    assert_eq!(gltf_identifier("ship.glb", GltfResourceKind::Node, 5), "ship.glb_node_5");
    assert_eq!(gltf_identifier("ship.glb", GltfResourceKind::Scene, 1), "ship.glb_scene_1");
}
