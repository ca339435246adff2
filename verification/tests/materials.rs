use orbit_engine::managers::resource::material::{
    material_template, Material, ShaderDefine, UniformName,
};
use orbit_engine::managers::resource::mesh::{mesh_collider_choice, ColliderChoice, PrimitiveInfo};
use orbit_engine::managers::resource::texture::TextureUnit;

fn phong() -> Material<u32, String, f32> {
    let t = material_template("phong").unwrap();
    let uniforms: Vec<(UniformName, f32)> = t.uniforms.iter().map(|u| (*u, 0.0)).collect();
    Material::new("phong", t.vert, t.frag, uniforms)
}

#[test]
fn templates_of_built_in_materials() {
    let t = material_template("default").unwrap();
    assert_eq!(t.vert, "relay_color.vert");
    assert_eq!(t.frag, "white.frag");
    assert_eq!(t.uniforms, vec![UniformName::WVPTrans, UniformName::Fcoef]);

    let t = material_template("skybox").unwrap();
    assert_eq!(t.vert, "screenspace.vert");
    assert_eq!(t.frag, "skybox.frag");
    assert_eq!(t.uniforms, vec![UniformName::VPInvTrans, UniformName::ExposureFactor]);

    let t = material_template("gltf_metal_rough").unwrap();
    assert_eq!(t.frag, "gltf_metal_rough.frag");
    assert_eq!(t.uniforms.len(), 18);
    assert_eq!(t.uniforms[0], UniformName::WVTrans);
    assert_eq!(t.uniforms[17], UniformName::Fcoef);
}

#[test]
fn unknown_material_has_no_template() {
    assert!(material_template("does_not_exist").is_none());
    assert!(material_template("").is_none());
    assert!(material_template("Phong").is_none());
}

#[test]
fn uniform_and_define_names() {
    assert_eq!(UniformName::WVPTrans.as_str(), "u_wvp_trans");
    assert_eq!(UniformName::LightPosDir.as_str(), "u_light_pos_or_dir_c");
    assert_eq!(UniformName::BaseColor.as_str(), "us_basecolor");
    assert_eq!(ShaderDefine::HasUV0.as_str(), "HAS_UV0");
    assert_eq!(
        ShaderDefine::HasMetallicroughnessTexture.as_str(),
        "HAS_METALLICROUGHNESS_TEXTURE"
    );
}

#[test]
fn new_material_has_its_uniforms_and_nothing_else() {
    let m = phong();
    assert_eq!(m.get_name(), "phong");
    assert_eq!(m.get_compatible_prim_hash(), 0);
    assert!(m.needs_program());
    assert!(!m.has_failed_to_compile());
    assert_eq!(m.get_uniform(UniformName::LightTypes), Some(&0.0));
    assert_eq!(m.get_uniform(UniformName::BaseColor), None);
    assert_eq!(m.get_texture(TextureUnit::Normal), None);
    assert_eq!(m.prefix_defines(), "");
}

#[test]
fn later_uniform_entries_replace_earlier_ones() {
    let m: Material<u32, String, i32> = Material::new(
        "m",
        "a.vert",
        "b.frag",
        vec![(UniformName::Fcoef, 1), (UniformName::Fcoef, 2)],
    );
    assert_eq!(m.get_uniform(UniformName::Fcoef), Some(&2));
}

#[test]
fn setting_a_uniform_only_changes_known_ones() {
    let mut m = phong();
    m.set_uniform_value(UniformName::Fcoef, 2.5);
    assert_eq!(m.get_uniform(UniformName::Fcoef), Some(&2.5));
    m.set_uniform_value(UniformName::Emissive, 1.0);
    assert_eq!(m.get_uniform(UniformName::Emissive), None);
}

#[test]
fn defines_are_prefixed_in_order() {
    let mut m = phong();
    m.set_define(ShaderDefine::HasUV0);
    m.set_define(ShaderDefine::HasNormals);
    assert_eq!(m.prefix_defines(), "#define HAS_NORMALS\n#define HAS_UV0");
    m.clear_define(ShaderDefine::HasNormals);
    assert_eq!(m.prefix_defines(), "#define HAS_UV0");
}

#[test]
fn changing_defines_drops_the_program() {
    let mut m = phong();
    m.set_program(7);
    assert!(!m.needs_program());
    assert_eq!(m.get_program(), Some(&7));
    m.set_define(ShaderDefine::HasColors);
    assert!(m.needs_program());
    assert_eq!(m.get_program(), None);
    m.set_program(8);
    m.set_define(ShaderDefine::HasColors);
    assert_eq!(m.get_program(), Some(&8));
}

#[test]
fn failed_compilation_is_remembered_until_defines_change() {
    let mut m = phong();
    m.mark_failed_to_compile();
    assert!(m.has_failed_to_compile());
    assert!(!m.needs_program());
    m.clear_define(ShaderDefine::HasColors);
    assert!(m.has_failed_to_compile());
    m.set_define(ShaderDefine::HasColors);
    assert!(!m.has_failed_to_compile());
    assert!(m.needs_program());
}

#[test]
fn textures_switch_their_defines() {
    let mut m = phong();
    m.set_texture(TextureUnit::BaseColor, Some(String::from("albedo")));
    assert_eq!(m.get_texture(TextureUnit::BaseColor), Some(&String::from("albedo")));
    assert_eq!(m.prefix_defines(), "#define HAS_BASECOLOR_TEXTURE");
    m.set_texture(TextureUnit::BaseColor, None);
    assert_eq!(m.get_texture(TextureUnit::BaseColor), None);
    assert_eq!(m.prefix_defines(), "");
}

#[test]
fn primitive_attributes_set_defines_and_hash() {
    let mut m = phong();
    let prim = PrimitiveInfo::new(false, true, false, true, false);
    m.set_prim_defines(&prim);
    assert_eq!(m.get_compatible_prim_hash(), prim.compatible_hash);
    assert_eq!(m.prefix_defines(), "#define HAS_NORMALS\n#define HAS_UV0");
    let other = PrimitiveInfo::new(true, true, true, true, true);
    m.set_prim_defines(&other);
    assert_eq!(
        m.prefix_defines(),
        "#define HAS_NORMALS\n#define HAS_TANGENTS\n#define HAS_COLORS\n#define HAS_UV0\n#define HAS_UV1"
    );
}

#[test]
fn equal_attributes_hash_alike() {
    let a = PrimitiveInfo::new(true, false, true, false, true);
    let b = PrimitiveInfo::new(true, false, true, false, true);
    let c = PrimitiveInfo::new(false, false, true, false, true);
    assert_eq!(a.compatible_hash, b.compatible_hash);
    assert_ne!(a.compatible_hash, c.compatible_hash);
}

#[test]
fn texture_units() {
    assert_eq!(TextureUnit::BaseColor.unit_number(), 0);
    assert_eq!(TextureUnit::Occlusion.unit_number(), 4);
    assert_eq!(TextureUnit::Normal.get_define(), ShaderDefine::HasNormalTexture);
}

#[test]
fn attribute_flags_follow_the_vertex_data() {
    let p = PrimitiveInfo::from_attribute_counts(0, 24, 0, 24, 0);
    assert!(!p.has_tangents);
    assert!(p.has_normals);
    assert!(!p.has_colors);
    assert!(p.has_uv0);
    assert!(!p.has_uv1);
    assert_eq!(p, PrimitiveInfo::new(false, true, false, true, false));
    assert_ne!(p.compatible_hash, PrimitiveInfo::from_attribute_counts(1, 24, 0, 24, 0).compatible_hash);
}

#[test]
fn a_mesh_collider_comes_from_its_primitives() {
    assert!(matches!(mesh_collider_choice(&vec![true]), ColliderChoice::OfOnlyPrimitive));
    assert!(matches!(mesh_collider_choice(&vec![false]), ColliderChoice::OfOnlyPrimitive));
    match mesh_collider_choice(&vec![true, false, true]) {
        ColliderChoice::Compound(v) => assert_eq!(v, vec![0, 2]),
        _ => panic!("expected a compound collider"),
    }
    match mesh_collider_choice(&vec![]) {
        ColliderChoice::Compound(v) => assert!(v.is_empty()),
        _ => panic!("expected a compound collider"),
    }
}
