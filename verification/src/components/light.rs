use vstd::prelude::*;

verus! {

/// How a light shines: from a point, or from one direction everywhere.
#[derive(Clone, Copy, Debug, PartialEq, Eq, Structural)]
pub enum LightType {
    Point,
    Directional,
}

impl LightType {
    /// The number that shaders use for this kind of light.
    pub fn shader_value(&self) -> (r: i32)
        ensures
            r == (match self {
                LightType::Point => 0i32,
                LightType::Directional => 1i32,
            }),
    {
        match self {
            LightType::Point => 0,
            LightType::Directional => 1,
        }
    }
}

} // verus!
