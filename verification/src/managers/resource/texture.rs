use super::material::{define_name_str, ShaderDefine};
use vstd::prelude::*;

verus! {

/// The texture units that materials bind their textures to.
#[derive(Clone, Copy, Debug, PartialEq, Eq, Hash, Structural)]
pub enum TextureUnit {
    BaseColor,
    MetallicRoughness,
    Normal,
    Emissive,
    Occlusion,
}

/// The shader define that says a material has a texture on `unit`.
pub open spec fn define_for_unit(unit: TextureUnit) -> ShaderDefine {
    match unit {
        TextureUnit::BaseColor => ShaderDefine::HasBasecolorTexture,
        TextureUnit::MetallicRoughness => ShaderDefine::HasMetallicroughnessTexture,
        TextureUnit::Normal => ShaderDefine::HasNormalTexture,
        TextureUnit::Emissive => ShaderDefine::HasEmissiveTexture,
        TextureUnit::Occlusion => ShaderDefine::HasOcclusionTexture,
    }
}

impl TextureUnit {
    pub fn get_define(&self) -> (r: ShaderDefine)
        ensures
            r == define_for_unit(*self),
    {
        match *self {
            TextureUnit::BaseColor => ShaderDefine::HasBasecolorTexture,
            TextureUnit::MetallicRoughness => ShaderDefine::HasMetallicroughnessTexture,
            TextureUnit::Normal => ShaderDefine::HasNormalTexture,
            TextureUnit::Emissive => ShaderDefine::HasEmissiveTexture,
            TextureUnit::Occlusion => ShaderDefine::HasOcclusionTexture,
        }
    }

    /// The number of the unit, counted from the first texture unit.
    pub fn unit_number(&self) -> (r: u32)
        ensures
            r == (match self {
                TextureUnit::BaseColor => 0u32,
                TextureUnit::MetallicRoughness => 1u32,
                TextureUnit::Normal => 2u32,
                TextureUnit::Emissive => 3u32,
                TextureUnit::Occlusion => 4u32,
            }),
    {
        match self {
            TextureUnit::BaseColor => 0,
            TextureUnit::MetallicRoughness => 1,
            TextureUnit::Normal => 2,
            TextureUnit::Emissive => 3,
            TextureUnit::Occlusion => 4,
        }
    }
}

/// The name of a texture unit as shader defines spell it.
pub open spec fn unit_define_word(unit: TextureUnit) -> Seq<char> {
    match unit {
        TextureUnit::BaseColor => "BASECOLOR"@,
        TextureUnit::MetallicRoughness => "METALLICROUGHNESS"@,
        TextureUnit::Normal => "NORMAL"@,
        TextureUnit::Emissive => "EMISSIVE"@,
        TextureUnit::Occlusion => "OCCLUSION"@,
    }
}

/// A texture on a unit switches on the define named after that unit,
/// `HAS_<unit>_TEXTURE`, and distinct units switch on distinct defines.
pub proof fn lemma_unit_define_names_the_unit(u: TextureUnit, v: TextureUnit)
    ensures
        define_name_str(define_for_unit(u)) == "HAS_"@ + unit_define_word(u) + "_TEXTURE"@,
        u != v ==> define_for_unit(u) != define_for_unit(v),
{
    reveal_strlit("HAS_");
    reveal_strlit("_TEXTURE");
    reveal_strlit("BASECOLOR");
    reveal_strlit("METALLICROUGHNESS");
    reveal_strlit("NORMAL");
    reveal_strlit("EMISSIVE");
    reveal_strlit("OCCLUSION");
    reveal_strlit("HAS_BASECOLOR_TEXTURE");
    reveal_strlit("HAS_METALLICROUGHNESS_TEXTURE");
    reveal_strlit("HAS_NORMAL_TEXTURE");
    reveal_strlit("HAS_EMISSIVE_TEXTURE");
    reveal_strlit("HAS_OCCLUSION_TEXTURE");
    assert(define_name_str(define_for_unit(u)) =~= "HAS_"@ + unit_define_word(u) + "_TEXTURE"@);
}

} // verus!
