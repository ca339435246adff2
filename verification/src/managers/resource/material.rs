use super::mesh::PrimitiveInfo;
use super::texture::{define_for_unit, TextureUnit};
use crate::text::str_eq;
use vstd::prelude::*;

verus! {

/// The uniform variables that material shaders read.
#[derive(Clone, Copy, Debug, PartialEq, Eq, Hash, Structural)]
pub enum UniformName {
    WVTrans,
    WVInvTranspTrans,
    WVPTrans,
    VPInvTrans,
    LightTypes,
    LightPosDir,
    LightColors,
    LightIntensities,
    BaseColor,
    BaseColorFactor,
    MetallicRoughness,
    MetallicFactor,
    RoughnessFactor,
    Normal,
    Emissive,
    EmissiveFactor,
    Occlusion,
    ExposureFactor,
    Fcoef,
}

/// The name of `u` in shader source.
pub open spec fn uniform_name_str(u: UniformName) -> Seq<char> {
    match u {
        UniformName::WVTrans => "u_wv_trans"@,
        UniformName::WVInvTranspTrans => "u_wv_inv_transp_trans"@,
        UniformName::WVPTrans => "u_wvp_trans"@,
        UniformName::VPInvTrans => "u_vp_inv_trans"@,
        UniformName::LightTypes => "u_light_types"@,
        UniformName::LightPosDir => "u_light_pos_or_dir_c"@,
        UniformName::LightColors => "u_light_colors"@,
        UniformName::LightIntensities => "u_light_intensities"@,
        UniformName::BaseColor => "us_basecolor"@,
        UniformName::BaseColorFactor => "u_basecolor_factor"@,
        UniformName::MetallicRoughness => "us_metal_rough"@,
        UniformName::MetallicFactor => "u_metallic_factor"@,
        UniformName::RoughnessFactor => "u_roughness_factor"@,
        UniformName::Normal => "us_normal"@,
        UniformName::Emissive => "us_emissive"@,
        UniformName::EmissiveFactor => "u_emissive_factor"@,
        UniformName::Occlusion => "us_occlusion"@,
        UniformName::ExposureFactor => "u_exposure_factor"@,
        UniformName::Fcoef => "u_f_coef"@,
    }
}

impl UniformName {
    pub fn as_str(&self) -> (r: &'static str)
        ensures
            r@ == uniform_name_str(*self),
    {
        match *self {
            UniformName::WVTrans => "u_wv_trans",
            UniformName::WVInvTranspTrans => "u_wv_inv_transp_trans",
            UniformName::WVPTrans => "u_wvp_trans",
            UniformName::VPInvTrans => "u_vp_inv_trans",
            UniformName::LightTypes => "u_light_types",
            UniformName::LightPosDir => "u_light_pos_or_dir_c",
            UniformName::LightColors => "u_light_colors",
            UniformName::LightIntensities => "u_light_intensities",
            UniformName::BaseColor => "us_basecolor",
            UniformName::BaseColorFactor => "u_basecolor_factor",
            UniformName::MetallicRoughness => "us_metal_rough",
            UniformName::MetallicFactor => "u_metallic_factor",
            UniformName::RoughnessFactor => "u_roughness_factor",
            UniformName::Normal => "us_normal",
            UniformName::Emissive => "us_emissive",
            UniformName::EmissiveFactor => "u_emissive_factor",
            UniformName::Occlusion => "us_occlusion",
            UniformName::ExposureFactor => "u_exposure_factor",
            UniformName::Fcoef => "u_f_coef",
        }
    }
}

/// The preprocessor symbols that select shader features.
#[derive(Clone, Copy, Debug, PartialEq, Eq, Hash, Structural)]
pub enum ShaderDefine {
    HasNormals,
    HasTangents,
    HasColors,
    HasUV0,
    HasUV1,
    HasBasecolorTexture,
    HasMetallicroughnessTexture,
    HasNormalTexture,
    HasEmissiveTexture,
    HasOcclusionTexture,
}

/// The name of `d` in shader source.
pub open spec fn define_name_str(d: ShaderDefine) -> Seq<char> {
    match d {
        ShaderDefine::HasNormals => "HAS_NORMALS"@,
        ShaderDefine::HasTangents => "HAS_TANGENTS"@,
        ShaderDefine::HasColors => "HAS_COLORS"@,
        ShaderDefine::HasUV0 => "HAS_UV0"@,
        ShaderDefine::HasUV1 => "HAS_UV1"@,
        ShaderDefine::HasBasecolorTexture => "HAS_BASECOLOR_TEXTURE"@,
        ShaderDefine::HasMetallicroughnessTexture => "HAS_METALLICROUGHNESS_TEXTURE"@,
        ShaderDefine::HasNormalTexture => "HAS_NORMAL_TEXTURE"@,
        ShaderDefine::HasEmissiveTexture => "HAS_EMISSIVE_TEXTURE"@,
        ShaderDefine::HasOcclusionTexture => "HAS_OCCLUSION_TEXTURE"@,
    }
}

impl ShaderDefine {
    pub fn as_str(&self) -> (r: &'static str)
        ensures
            r@ == define_name_str(*self),
    {
        match *self {
            ShaderDefine::HasNormals => "HAS_NORMALS",
            ShaderDefine::HasTangents => "HAS_TANGENTS",
            ShaderDefine::HasColors => "HAS_COLORS",
            ShaderDefine::HasUV0 => "HAS_UV0",
            ShaderDefine::HasUV1 => "HAS_UV1",
            ShaderDefine::HasBasecolorTexture => "HAS_BASECOLOR_TEXTURE",
            ShaderDefine::HasMetallicroughnessTexture => "HAS_METALLICROUGHNESS_TEXTURE",
            ShaderDefine::HasNormalTexture => "HAS_NORMAL_TEXTURE",
            ShaderDefine::HasEmissiveTexture => "HAS_EMISSIVE_TEXTURE",
            ShaderDefine::HasOcclusionTexture => "HAS_OCCLUSION_TEXTURE",
        }
    }
}

/// The lines that switch on the defines `ds`, one `#define` line each,
/// joined by line breaks.
pub open spec fn define_lines(ds: Seq<ShaderDefine>) -> Seq<char>
    decreases ds.len(),
{
    if ds.len() == 0 {
        Seq::empty()
    } else if ds.len() == 1 {
        "#define "@ + define_name_str(ds[0])
    } else {
        define_lines(ds.drop_last()) + "\n"@ + "#define "@ + define_name_str(ds.last())
    }
}

/// The shaders and uniforms of one of the built-in materials.
pub struct MaterialTemplate {
    pub vert: &'static str,
    pub frag: &'static str,
    pub uniforms: Vec<UniformName>,
}

/// The vertex shader, fragment shader and uniforms of the built-in material
/// called `id`, if there is one.
pub open spec fn material_template_spec(id: Seq<char>) -> Option<
    (Seq<char>, Seq<char>, Seq<UniformName>),
> {
    if id == "default"@ {
        Some(("relay_color.vert"@, "white.frag"@, seq![UniformName::WVPTrans, UniformName::Fcoef]))
    } else
    if id == "default_screenspace"@ {
        Some(("screenspace.vert"@, "screenspace.frag"@, seq![UniformName::BaseColor]))
    } else
    if id == "default_points"@ {
        Some(("relay_points.vert"@, "color.frag"@, seq![UniformName::Fcoef]))
    } else
    if id == "skybox"@ {
        Some(("screenspace.vert"@, "skybox.frag"@, seq![UniformName::VPInvTrans, UniformName::ExposureFactor]))
    } else
    if id == "vertex_color"@ {
        Some(("relay_color.vert"@, "color.frag"@, seq![UniformName::WVPTrans, UniformName::Fcoef]))
    } else
    if id == "local_normals"@ {
        Some(("relay_locals.vert"@, "normals.frag"@, seq![UniformName::WVTrans, UniformName::WVInvTranspTrans, UniformName::WVPTrans, UniformName::Fcoef]))
    } else
    if id == "world_normals"@ {
        Some(("relay_all.vert"@, "normals.frag"@, seq![UniformName::WVTrans, UniformName::WVInvTranspTrans, UniformName::WVPTrans, UniformName::Fcoef]))
    } else
    if id == "local_tangents"@ {
        Some(("relay_locals.vert"@, "tangents.frag"@, seq![UniformName::WVTrans, UniformName::WVInvTranspTrans, UniformName::WVPTrans, UniformName::Fcoef]))
    } else
    if id == "world_tangents"@ {
        Some(("relay_all.vert"@, "tangents.frag"@, seq![UniformName::WVTrans, UniformName::WVInvTranspTrans, UniformName::WVPTrans, UniformName::Fcoef]))
    } else
    if id == "uv0"@ {
        Some(("relay_all.vert"@, "uv0.frag"@, seq![UniformName::WVTrans, UniformName::WVInvTranspTrans, UniformName::WVPTrans, UniformName::Fcoef]))
    } else
    if id == "uv1"@ {
        Some(("relay_all.vert"@, "uv1.frag"@, seq![UniformName::WVTrans, UniformName::WVInvTranspTrans, UniformName::WVPTrans, UniformName::Fcoef]))
    } else
    if id == "basecolor"@ {
        Some(("relay_all.vert"@, "basecolor.frag"@, seq![UniformName::WVTrans, UniformName::WVInvTranspTrans, UniformName::WVPTrans, UniformName::BaseColor, UniformName::Fcoef]))
    } else
    if id == "phong"@ {
        Some(("relay_all.vert"@, "phong.frag"@, seq![UniformName::WVTrans, UniformName::WVInvTranspTrans, UniformName::WVPTrans, UniformName::LightTypes, UniformName::LightPosDir, UniformName::LightColors, UniformName::LightIntensities, UniformName::Fcoef]))
    } else
    if id == "gltf_metal_rough"@ {
        Some(("relay_all.vert"@, "gltf_metal_rough.frag"@, seq![UniformName::WVTrans, UniformName::WVInvTranspTrans, UniformName::WVPTrans, UniformName::LightTypes, UniformName::LightPosDir, UniformName::LightColors, UniformName::LightIntensities, UniformName::BaseColor, UniformName::BaseColorFactor, UniformName::MetallicRoughness, UniformName::MetallicFactor, UniformName::RoughnessFactor, UniformName::Normal, UniformName::Emissive, UniformName::EmissiveFactor, UniformName::Occlusion, UniformName::ExposureFactor, UniformName::Fcoef]))
    } else {
        None
    }
}

/// The template of the built-in material called `identifier`, if any.
pub fn material_template(identifier: &str) -> (r: Option<MaterialTemplate>)
    ensures
        match r {
            Some(t) => material_template_spec(identifier@) == Some((t.vert@, t.frag@, t.uniforms@)),
            None => material_template_spec(identifier@) is None,
        },
{
    if str_eq(identifier, "default") {
        Some(MaterialTemplate { vert: "relay_color.vert", frag: "white.frag", uniforms: vec![UniformName::WVPTrans, UniformName::Fcoef] })
    } else
    if str_eq(identifier, "default_screenspace") {
        Some(MaterialTemplate { vert: "screenspace.vert", frag: "screenspace.frag", uniforms: vec![UniformName::BaseColor] })
    } else
    if str_eq(identifier, "default_points") {
        Some(MaterialTemplate { vert: "relay_points.vert", frag: "color.frag", uniforms: vec![UniformName::Fcoef] })
    } else
    if str_eq(identifier, "skybox") {
        Some(MaterialTemplate { vert: "screenspace.vert", frag: "skybox.frag", uniforms: vec![UniformName::VPInvTrans, UniformName::ExposureFactor] })
    } else
    if str_eq(identifier, "vertex_color") {
        Some(MaterialTemplate { vert: "relay_color.vert", frag: "color.frag", uniforms: vec![UniformName::WVPTrans, UniformName::Fcoef] })
    } else
    if str_eq(identifier, "local_normals") {
        Some(MaterialTemplate { vert: "relay_locals.vert", frag: "normals.frag", uniforms: vec![UniformName::WVTrans, UniformName::WVInvTranspTrans, UniformName::WVPTrans, UniformName::Fcoef] })
    } else
    if str_eq(identifier, "world_normals") {
        Some(MaterialTemplate { vert: "relay_all.vert", frag: "normals.frag", uniforms: vec![UniformName::WVTrans, UniformName::WVInvTranspTrans, UniformName::WVPTrans, UniformName::Fcoef] })
    } else
    if str_eq(identifier, "local_tangents") {
        Some(MaterialTemplate { vert: "relay_locals.vert", frag: "tangents.frag", uniforms: vec![UniformName::WVTrans, UniformName::WVInvTranspTrans, UniformName::WVPTrans, UniformName::Fcoef] })
    } else
    if str_eq(identifier, "world_tangents") {
        Some(MaterialTemplate { vert: "relay_all.vert", frag: "tangents.frag", uniforms: vec![UniformName::WVTrans, UniformName::WVInvTranspTrans, UniformName::WVPTrans, UniformName::Fcoef] })
    } else
    if str_eq(identifier, "uv0") {
        Some(MaterialTemplate { vert: "relay_all.vert", frag: "uv0.frag", uniforms: vec![UniformName::WVTrans, UniformName::WVInvTranspTrans, UniformName::WVPTrans, UniformName::Fcoef] })
    } else
    if str_eq(identifier, "uv1") {
        Some(MaterialTemplate { vert: "relay_all.vert", frag: "uv1.frag", uniforms: vec![UniformName::WVTrans, UniformName::WVInvTranspTrans, UniformName::WVPTrans, UniformName::Fcoef] })
    } else
    if str_eq(identifier, "basecolor") {
        Some(MaterialTemplate { vert: "relay_all.vert", frag: "basecolor.frag", uniforms: vec![UniformName::WVTrans, UniformName::WVInvTranspTrans, UniformName::WVPTrans, UniformName::BaseColor, UniformName::Fcoef] })
    } else
    if str_eq(identifier, "phong") {
        Some(MaterialTemplate { vert: "relay_all.vert", frag: "phong.frag", uniforms: vec![UniformName::WVTrans, UniformName::WVInvTranspTrans, UniformName::WVPTrans, UniformName::LightTypes, UniformName::LightPosDir, UniformName::LightColors, UniformName::LightIntensities, UniformName::Fcoef] })
    } else
    if str_eq(identifier, "gltf_metal_rough") {
        Some(MaterialTemplate { vert: "relay_all.vert", frag: "gltf_metal_rough.frag", uniforms: vec![UniformName::WVTrans, UniformName::WVInvTranspTrans, UniformName::WVPTrans, UniformName::LightTypes, UniformName::LightPosDir, UniformName::LightColors, UniformName::LightIntensities, UniformName::BaseColor, UniformName::BaseColorFactor, UniformName::MetallicRoughness, UniformName::MetallicFactor, UniformName::RoughnessFactor, UniformName::Normal, UniformName::Emissive, UniformName::EmissiveFactor, UniformName::Occlusion, UniformName::ExposureFactor, UniformName::Fcoef] })
    } else {
        None
    }
}

pub open spec fn uniform_slot_spec(x: UniformName) -> int {
    match x {
        UniformName::WVTrans => 0,
        UniformName::WVInvTranspTrans => 1,
        UniformName::WVPTrans => 2,
        UniformName::VPInvTrans => 3,
        UniformName::LightTypes => 4,
        UniformName::LightPosDir => 5,
        UniformName::LightColors => 6,
        UniformName::LightIntensities => 7,
        UniformName::BaseColor => 8,
        UniformName::BaseColorFactor => 9,
        UniformName::MetallicRoughness => 10,
        UniformName::MetallicFactor => 11,
        UniformName::RoughnessFactor => 12,
        UniformName::Normal => 13,
        UniformName::Emissive => 14,
        UniformName::EmissiveFactor => 15,
        UniformName::Occlusion => 16,
        UniformName::ExposureFactor => 17,
        UniformName::Fcoef => 18,
    }
}

fn uniform_slot(x: UniformName) -> (r: usize)
    ensures
        r as int == uniform_slot_spec(x),
{
    match x {
        UniformName::WVTrans => 0,
        UniformName::WVInvTranspTrans => 1,
        UniformName::WVPTrans => 2,
        UniformName::VPInvTrans => 3,
        UniformName::LightTypes => 4,
        UniformName::LightPosDir => 5,
        UniformName::LightColors => 6,
        UniformName::LightIntensities => 7,
        UniformName::BaseColor => 8,
        UniformName::BaseColorFactor => 9,
        UniformName::MetallicRoughness => 10,
        UniformName::MetallicFactor => 11,
        UniformName::RoughnessFactor => 12,
        UniformName::Normal => 13,
        UniformName::Emissive => 14,
        UniformName::EmissiveFactor => 15,
        UniformName::Occlusion => 16,
        UniformName::ExposureFactor => 17,
        UniformName::Fcoef => 18,
    }
}

pub open spec fn define_slot_spec(x: ShaderDefine) -> int {
    match x {
        ShaderDefine::HasNormals => 0,
        ShaderDefine::HasTangents => 1,
        ShaderDefine::HasColors => 2,
        ShaderDefine::HasUV0 => 3,
        ShaderDefine::HasUV1 => 4,
        ShaderDefine::HasBasecolorTexture => 5,
        ShaderDefine::HasMetallicroughnessTexture => 6,
        ShaderDefine::HasNormalTexture => 7,
        ShaderDefine::HasEmissiveTexture => 8,
        ShaderDefine::HasOcclusionTexture => 9,
    }
}

fn define_slot(x: ShaderDefine) -> (r: usize)
    ensures
        r as int == define_slot_spec(x),
{
    match x {
        ShaderDefine::HasNormals => 0,
        ShaderDefine::HasTangents => 1,
        ShaderDefine::HasColors => 2,
        ShaderDefine::HasUV0 => 3,
        ShaderDefine::HasUV1 => 4,
        ShaderDefine::HasBasecolorTexture => 5,
        ShaderDefine::HasMetallicroughnessTexture => 6,
        ShaderDefine::HasNormalTexture => 7,
        ShaderDefine::HasEmissiveTexture => 8,
        ShaderDefine::HasOcclusionTexture => 9,
    }
}

pub open spec fn define_slot_spec_at(i: int) -> ShaderDefine {
    if i == 0 {
        ShaderDefine::HasNormals
    } else
    if i == 1 {
        ShaderDefine::HasTangents
    } else
    if i == 2 {
        ShaderDefine::HasColors
    } else
    if i == 3 {
        ShaderDefine::HasUV0
    } else
    if i == 4 {
        ShaderDefine::HasUV1
    } else
    if i == 5 {
        ShaderDefine::HasBasecolorTexture
    } else
    if i == 6 {
        ShaderDefine::HasMetallicroughnessTexture
    } else
    if i == 7 {
        ShaderDefine::HasNormalTexture
    } else
    if i == 8 {
        ShaderDefine::HasEmissiveTexture
    } else {
        ShaderDefine::HasOcclusionTexture
    }
}

pub open spec fn unit_slot_spec(x: TextureUnit) -> int {
    match x {
        TextureUnit::BaseColor => 0,
        TextureUnit::MetallicRoughness => 1,
        TextureUnit::Normal => 2,
        TextureUnit::Emissive => 3,
        TextureUnit::Occlusion => 4,
    }
}

fn unit_slot(x: TextureUnit) -> (r: usize)
    ensures
        r as int == unit_slot_spec(x),
{
    match x {
        TextureUnit::BaseColor => 0,
        TextureUnit::MetallicRoughness => 1,
        TextureUnit::Normal => 2,
        TextureUnit::Emissive => 3,
        TextureUnit::Occlusion => 4,
    }
}

/// The defines among the first `n` slots of `flags` that are switched on, in
/// slot order.
pub open spec fn selected_defines(flags: Seq<bool>, n: int) -> Seq<ShaderDefine>
    decreases n,
{
    if n <= 0 {
        Seq::empty()
    } else if flags[n - 1] {
        selected_defines(flags, n - 1).push(define_slot_spec_at(n - 1))
    } else {
        selected_defines(flags, n - 1)
    }
}

/// The table that a list of uniform names and values builds, later entries
/// replacing earlier ones.
pub open spec fn uniform_table<U>(s: Seq<(UniformName, U)>) -> Map<UniformName, U>
    decreases s.len(),
{
    if s.len() == 0 {
        Map::empty()
    } else {
        uniform_table(s.drop_last()).insert(s.last().0, s.last().1)
    }
}

/// A material: shaders, the defines they are compiled with, textures by unit
/// and uniform values by name, and the compiled program if there is one.
/// `P` is the compiled program, `T` a texture and `U` a uniform value with
/// whatever the renderer keeps beside it.
pub struct Material<P, T, U> {
    name: String,
    vert: String,
    frag: String,
    compatible_prim_hash: u64,
    program: Option<P>,
    textures: Vec<Option<T>>,
    uniforms: Vec<Option<U>>,
    defines: Vec<bool>,
    pub double_sided: bool,
    failed_to_compile: bool,
}

impl<P, T, U> Material<P, T, U> {
    pub closed spec fn wf(&self) -> bool {
        &&& self.textures@.len() == 5
        &&& self.uniforms@.len() == 19
        &&& self.defines@.len() == 10
    }

    pub closed spec fn spec_name(&self) -> Seq<char> {
        self.name@
    }

    pub closed spec fn spec_vert(&self) -> Seq<char> {
        self.vert@
    }

    pub closed spec fn spec_frag(&self) -> Seq<char> {
        self.frag@
    }

    pub closed spec fn spec_hash(&self) -> u64 {
        self.compatible_prim_hash
    }

    pub closed spec fn spec_program(&self) -> Option<P> {
        self.program
    }

    pub closed spec fn spec_failed(&self) -> bool {
        self.failed_to_compile
    }

    pub closed spec fn spec_double_sided(&self) -> bool {
        self.double_sided
    }

    /// The defines the shaders are compiled with.
    pub closed spec fn defines(&self) -> Set<ShaderDefine> {
        Set::new(|d: ShaderDefine| self.defines@[define_slot_spec(d)])
    }

    /// The `#define` lines of the material, in the order of `ShaderDefine`.
    pub closed spec fn define_prefix(&self) -> Seq<char> {
        define_lines(selected_defines(self.defines@, 10))
    }

    /// The textures by unit.
    pub closed spec fn textures(&self) -> Map<TextureUnit, T> {
        Map::new(
            |u: TextureUnit| self.textures@[unit_slot_spec(u)] is Some,
            |u: TextureUnit| self.textures@[unit_slot_spec(u)]->0,
        )
    }

    /// The uniform values by name.
    pub closed spec fn uniforms(&self) -> Map<UniformName, U> {
        Map::new(
            |n: UniformName| self.uniforms@[uniform_slot_spec(n)] is Some,
            |n: UniformName| self.uniforms@[uniform_slot_spec(n)]->0,
        )
    }

    /// A material named `master` from the two shaders, with the uniforms of
    /// `uniforms`, no defines, no textures and no program yet.
    pub fn new(master: &str, vert: &str, frag: &str, uniforms: Vec<(UniformName, U)>) -> (m: Self)
        ensures
            m.wf(),
            m.spec_name() == master@,
            m.spec_vert() == vert@,
            m.spec_frag() == frag@,
            m.spec_hash() == 0,
            m.spec_program() is None,
            !m.spec_failed(),
            !m.spec_double_sided(),
            m.defines() == Set::<ShaderDefine>::empty(),
            m.textures() == Map::<TextureUnit, T>::empty(),
            m.uniforms() == uniform_table(uniforms@),
    {
        let mut textures: Vec<Option<T>> = Vec::new();
        let mut k: usize = 0;
        while k < 5
            invariant
                k <= 5,
                textures@.len() == k,
                forall|j: int| 0 <= j < k ==> textures@[j] is None,
            decreases 5 - k,
        {
            textures.push(None);
            k = k + 1;
        }
        let mut slots: Vec<Option<U>> = Vec::new();
        let mut k: usize = 0;
        while k < 19
            invariant
                k <= 19,
                slots@.len() == k,
                forall|j: int| 0 <= j < k ==> slots@[j] is None,
            decreases 19 - k,
        {
            slots.push(None);
            k = k + 1;
        }
        let mut defines: Vec<bool> = Vec::new();
        let mut k: usize = 0;
        while k < 10
            invariant
                k <= 10,
                defines@.len() == k,
                forall|j: int| 0 <= j < k ==> !defines@[j],
            decreases 10 - k,
        {
            defines.push(false);
            k = k + 1;
        }
        let ghost all = uniforms@;
        let mut rest = uniforms;
        let ghost mut done: Seq<(UniformName, U)> = Seq::empty();
        while rest.len() > 0
            invariant
                slots@.len() == 19,
                done + rest@ == all,
                forall|n: UniformName| #[trigger] uniform_table(done).contains_key(n) == (slots@[uniform_slot_spec(n)] is Some),
                forall|n: UniformName| #[trigger] uniform_table(done).contains_key(n) ==> uniform_table(done)[n] == slots@[uniform_slot_spec(n)]->0,
            decreases rest@.len(),
        {
            let ghost r0 = rest@;
            let (name, value) = rest.remove(0);
            let i = uniform_slot(name);
            slots.set(i, Some(value));
            proof {
                let d2 = done.push((name, value));
                assert(d2.drop_last() =~= done);
                assert(uniform_table(d2) == uniform_table(done).insert(name, value));
                assert(d2 + rest@ =~= all);
                assert forall|n: UniformName| #[trigger] uniform_table(d2).contains_key(n) == (slots@[uniform_slot_spec(n)] is Some) by {
                    if n != name {
                        assert(uniform_slot_spec(n) != uniform_slot_spec(name));
                    }
                }
                assert forall|n: UniformName| #[trigger] uniform_table(d2).contains_key(n) implies uniform_table(d2)[n] == slots@[uniform_slot_spec(n)]->0 by {
                    if n != name {
                        assert(uniform_slot_spec(n) != uniform_slot_spec(name));
                    }
                }
                done = d2;
            }
        }
        let m = Material {
            name: String::from_str(master),
            vert: String::from_str(vert),
            frag: String::from_str(frag),
            compatible_prim_hash: 0,
            program: None,
            textures,
            uniforms: slots,
            defines,
            double_sided: false,
            failed_to_compile: false,
        };
        proof {
            assert(done =~= all);
            assert(m.defines() =~= Set::<ShaderDefine>::empty());
            assert(m.textures() =~= Map::<TextureUnit, T>::empty());
            assert(m.uniforms() =~= uniform_table(all));
        }
        m
    }

    pub fn get_name(&self) -> (r: &str)
        ensures
            r@ == self.spec_name(),
    {
        self.name.as_str()
    }

    pub fn get_compatible_prim_hash(&self) -> (r: u64)
        ensures
            r == self.spec_hash(),
    {
        self.compatible_prim_hash
    }

    /// Whether the program must be compiled before drawing: there is none,
    /// and compiling has not failed since the defines last changed.
    pub fn needs_program(&self) -> (r: bool)
        ensures
            r == (self.spec_program() is None && !self.spec_failed()),
    {
        self.program.is_none() && !self.failed_to_compile
    }

    pub fn has_failed_to_compile(&self) -> (r: bool)
        ensures
            r == self.spec_failed(),
    {
        self.failed_to_compile
    }

    /// Records the program that compiling the shaders gave.
    pub fn set_program(&mut self, program: P)
        ensures
            final(self).spec_program() == Some(program),
            final(self).spec_failed() == old(self).spec_failed(),
            final(self).defines() == old(self).defines(),
            final(self).textures() == old(self).textures(),
            final(self).uniforms() == old(self).uniforms(),
            final(self).wf() == old(self).wf(),
    {
        self.program = Some(program);
    }

    /// Records that compiling the shaders failed, so that drawing does not try
    /// again until the defines change.
    pub fn mark_failed_to_compile(&mut self)
        ensures
            final(self).spec_program() is None,
            final(self).spec_failed(),
            final(self).defines() == old(self).defines(),
            final(self).textures() == old(self).textures(),
            final(self).uniforms() == old(self).uniforms(),
            final(self).wf() == old(self).wf(),
    {
        self.program = None;
        self.failed_to_compile = true;
    }

    pub fn get_program(&self) -> (r: Option<&P>)
        ensures
            r == match self.spec_program() {
                Some(p) => Some(&p),
                None => None::<&P>,
            },
    {
        self.program.as_ref()
    }

    /// Switches on `define`; the program must be compiled again if that
    /// changed the defines.
    pub fn set_define(&mut self, define: ShaderDefine)
        requires
            old(self).wf(),
        ensures
            final(self).wf(),
            final(self).defines() == old(self).defines().insert(define),
            (final(self).defines() == old(self).defines()) == old(self).defines().contains(define),
            if old(self).defines().contains(define) {
                &&& final(self).spec_program() == old(self).spec_program()
                &&& final(self).spec_failed() == old(self).spec_failed()
            } else {
                &&& final(self).spec_program() is None
                &&& !final(self).spec_failed()
            },
            final(self).textures() == old(self).textures(),
            final(self).uniforms() == old(self).uniforms(),
            final(self).spec_hash() == old(self).spec_hash(),
            final(self).spec_name() == old(self).spec_name(),
    {
        let i = define_slot(define);
        if !self.defines[i] {
            self.defines.set(i, true);
            self.program = None;
            self.failed_to_compile = false;
        }
        proof {
            assert forall|d: ShaderDefine| #[trigger] self.defines().contains(d) == old(self).defines().insert(define).contains(d) by {
                if d != define {
                    assert(define_slot_spec(d) != define_slot_spec(define));
                }
            }
            assert(self.defines() =~= old(self).defines().insert(define));
            if old(self).defines().contains(define) {
                assert(self.defines() =~= old(self).defines());
            } else {
                assert(self.defines().contains(define));
            }
            assert(self.textures() =~= old(self).textures());
            assert(self.uniforms() =~= old(self).uniforms());
        }
    }

    /// Switches off `define`; the program must be compiled again if that
    /// changed the defines.
    pub fn clear_define(&mut self, define: ShaderDefine)
        requires
            old(self).wf(),
        ensures
            final(self).wf(),
            final(self).defines() == old(self).defines().remove(define),
            (final(self).defines() == old(self).defines()) == !old(self).defines().contains(define),
            if !old(self).defines().contains(define) {
                &&& final(self).spec_program() == old(self).spec_program()
                &&& final(self).spec_failed() == old(self).spec_failed()
            } else {
                &&& final(self).spec_program() is None
                &&& !final(self).spec_failed()
            },
            final(self).textures() == old(self).textures(),
            final(self).uniforms() == old(self).uniforms(),
            final(self).spec_hash() == old(self).spec_hash(),
            final(self).spec_name() == old(self).spec_name(),
    {
        let i = define_slot(define);
        if self.defines[i] {
            self.defines.set(i, false);
            self.program = None;
            self.failed_to_compile = false;
        }
        proof {
            assert forall|d: ShaderDefine| #[trigger] self.defines().contains(d) == old(self).defines().remove(define).contains(d) by {
                if d != define {
                    assert(define_slot_spec(d) != define_slot_spec(define));
                }
            }
            assert(self.defines() =~= old(self).defines().remove(define));
            if !old(self).defines().contains(define) {
                assert(self.defines() =~= old(self).defines());
            } else {
                assert(!self.defines().contains(define));
            }
            assert(self.textures() =~= old(self).textures());
            assert(self.uniforms() =~= old(self).uniforms());
        }
    }

    /// Puts `tex` on `unit` and switches on the unit's define, or, for `None`,
    /// takes the texture off the unit and switches the define off.
    pub fn set_texture(&mut self, unit: TextureUnit, tex: Option<T>)
        requires
            old(self).wf(),
        ensures
            final(self).wf(),
            final(self).textures() == (match tex {
                Some(t) => old(self).textures().insert(unit, t),
                None => old(self).textures().remove(unit),
            }),
            final(self).defines() == (match tex {
                Some(_) => old(self).defines().insert(define_for_unit(unit)),
                None => old(self).defines().remove(define_for_unit(unit)),
            }),
            final(self).uniforms() == old(self).uniforms(),
            final(self).spec_hash() == old(self).spec_hash(),
            final(self).spec_name() == old(self).spec_name(),
            (match tex {
                Some(_) => old(self).defines().contains(define_for_unit(unit)),
                None => !old(self).defines().contains(define_for_unit(unit)),
            }) ==> final(self).spec_program() == old(self).spec_program() && final(self).spec_failed()
                == old(self).spec_failed(),
            !(match tex {
                Some(_) => old(self).defines().contains(define_for_unit(unit)),
                None => !old(self).defines().contains(define_for_unit(unit)),
            }) ==> final(self).spec_program() is None && !final(self).spec_failed(),
    {
        let i = unit_slot(unit);
        let ghost tex0 = tex;
        match tex {
            Some(t) => {
                self.set_define(unit.get_define());
                self.textures.set(i, Some(t));
            },
            None => {
                self.textures.set(i, None);
                self.clear_define(unit.get_define());
            },
        }
        proof {
            assert forall|u: TextureUnit| u != unit implies unit_slot_spec(u) != unit_slot_spec(unit) by {}
            match tex0 {
                Some(t) => {
                    assert(self.textures() =~= old(self).textures().insert(unit, t));
                },
                None => {
                    assert(self.textures() =~= old(self).textures().remove(unit));
                },
            }
        }
    }

    pub fn get_texture(&self, unit: TextureUnit) -> (r: Option<&T>)
        requires
            self.wf(),
        ensures
            match r {
                Some(t) => self.textures().contains_key(unit) && *t == self.textures()[unit],
                None => !self.textures().contains_key(unit),
            },
    {
        self.textures[unit_slot(unit)].as_ref()
    }

    /// Replaces the value of uniform `name`, if the material has it.
    pub fn set_uniform_value(&mut self, name: UniformName, value: U)
        requires
            old(self).wf(),
        ensures
            final(self).wf(),
            final(self).uniforms() == (if old(self).uniforms().contains_key(name) {
                old(self).uniforms().insert(name, value)
            } else {
                old(self).uniforms()
            }),
            final(self).defines() == old(self).defines(),
            final(self).textures() == old(self).textures(),
            final(self).spec_program() == old(self).spec_program(),
            final(self).spec_failed() == old(self).spec_failed(),
    {
        let i = uniform_slot(name);
        if self.uniforms[i].is_some() {
            self.uniforms.set(i, Some(value));
            proof {
                assert forall|n: UniformName| n != name implies uniform_slot_spec(n) != uniform_slot_spec(name) by {}
                assert(self.uniforms() =~= old(self).uniforms().insert(name, value));
            }
        }
    }

    pub fn get_uniform(&self, name: UniformName) -> (r: Option<&U>)
        requires
            self.wf(),
        ensures
            match r {
                Some(v) => self.uniforms().contains_key(name) && *v == self.uniforms()[name],
                None => !self.uniforms().contains_key(name),
            },
    {
        self.uniforms[uniform_slot(name)].as_ref()
    }

    /// Switches the defines for colors, normals, tangents and texture
    /// coordinates on or off as the primitive has them, and remembers the
    /// primitive's compatibility hash.
    pub fn set_prim_defines(&mut self, prim: &PrimitiveInfo)
        requires
            old(self).wf(),
        ensures
            final(self).wf(),
            final(self).spec_hash() == prim.compatible_hash,
            forall|d: ShaderDefine| #[trigger]
                final(self).defines().contains(d) == (match d {
                    ShaderDefine::HasColors => prim.has_colors,
                    ShaderDefine::HasNormals => prim.has_normals,
                    ShaderDefine::HasTangents => prim.has_tangents,
                    ShaderDefine::HasUV0 => prim.has_uv0,
                    ShaderDefine::HasUV1 => prim.has_uv1,
                    _ => old(self).defines().contains(d),
                }),
            final(self).textures() == old(self).textures(),
            final(self).uniforms() == old(self).uniforms(),
            final(self).defines() == old(self).defines() ==> final(self).spec_program()
                == old(self).spec_program() && final(self).spec_failed() == old(self).spec_failed(),
            final(self).defines() != old(self).defines() ==> final(self).spec_program() is None
                && !final(self).spec_failed(),
    {
        let ghost s0 = self.defines();
        if prim.has_colors {
            self.set_define(ShaderDefine::HasColors);
        } else {
            self.clear_define(ShaderDefine::HasColors);
        }
        assert(self.defines() != s0 ==> self.spec_program() is None && !self.spec_failed());
        if prim.has_normals {
            self.set_define(ShaderDefine::HasNormals);
        } else {
            self.clear_define(ShaderDefine::HasNormals);
        }
        assert(self.defines() != s0 ==> self.spec_program() is None && !self.spec_failed());
        if prim.has_tangents {
            self.set_define(ShaderDefine::HasTangents);
        } else {
            self.clear_define(ShaderDefine::HasTangents);
        }
        assert(self.defines() != s0 ==> self.spec_program() is None && !self.spec_failed());
        if prim.has_uv0 {
            self.set_define(ShaderDefine::HasUV0);
        } else {
            self.clear_define(ShaderDefine::HasUV0);
        }
        assert(self.defines() != s0 ==> self.spec_program() is None && !self.spec_failed());
        if prim.has_uv1 {
            self.set_define(ShaderDefine::HasUV1);
        } else {
            self.clear_define(ShaderDefine::HasUV1);
        }
        self.compatible_prim_hash = prim.compatible_hash;
    }

    /// The `#define` lines that the shaders are compiled with.
    pub fn prefix_defines(&self) -> (r: String)
        requires
            self.wf(),
        ensures
            r@ == self.define_prefix(),
    {
        let mut s = String::new();
        let mut i: usize = 0;
        while i < 10
            invariant
                self.wf(),
                i <= 10,
                s@ == define_lines(selected_defines(self.defines@, i as int)),
            decreases 10 - i,
        {
            if self.defines[i] {
                let d = define_for_slot(i);
                let ghost prev = selected_defines(self.defines@, i as int);
                proof {
                    assert(selected_defines(self.defines@, i + 1) == prev.push(d));
                    assert(prev.push(d).drop_last() =~= prev);
                }
                if s.unicode_len() > 0 {
                    s.append("\n");
                } else {
                    proof {
                        if prev.len() > 0 {
                            Self::lemma_lines_nonempty(prev);
                        }
                        assert(prev.len() == 0);
                    }
                }
                s.append("#define ");
                s.append(d.as_str());
                proof {
                    if prev.len() == 0 {
                        assert(s@ =~= define_lines(prev.push(d)));
                    } else {
                        assert(s@ =~= define_lines(prev.push(d)));
                    }
                }
            }
            i = i + 1;
        }
        s
    }

    proof fn lemma_lines_nonempty(ds: Seq<ShaderDefine>)
        requires
            ds.len() > 0,
        ensures
            define_lines(ds).len() > 0,
        decreases ds.len(),
    {
        reveal_strlit("#define ");
        if ds.len() > 1 {
            Self::lemma_lines_nonempty(ds.drop_last());
        }
    }
}

/// The define in slot `i` of the define table.
fn define_for_slot(i: usize) -> (d: ShaderDefine)
    requires
        i < 10,
    ensures
        d == define_slot_spec_at(i as int),
        define_slot_spec(d) == i as int,
{
    if i == 0 {
        ShaderDefine::HasNormals
    } else if i == 1 {
        ShaderDefine::HasTangents
    } else if i == 2 {
        ShaderDefine::HasColors
    } else if i == 3 {
        ShaderDefine::HasUV0
    } else if i == 4 {
        ShaderDefine::HasUV1
    } else if i == 5 {
        ShaderDefine::HasBasecolorTexture
    } else if i == 6 {
        ShaderDefine::HasMetallicroughnessTexture
    } else if i == 7 {
        ShaderDefine::HasNormalTexture
    } else if i == 8 {
        ShaderDefine::HasEmissiveTexture
    } else {
        ShaderDefine::HasOcclusionTexture
    }
}

} // verus!
