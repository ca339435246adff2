use vstd::prelude::*;

verus! {

/// The vertex attributes of a primitive, by the location shaders bind them to.
#[derive(Clone, Copy, Debug, PartialEq, Eq, Structural)]
pub enum PrimitiveAttribute {
    Position,
    Normal,
    Tangent,
    Color,
    UV0,
    UV1,
}

impl PrimitiveAttribute {
    /// The attribute location that shaders use for this attribute.
    pub fn location(&self) -> (r: u32)
        ensures
            r == (match self {
                PrimitiveAttribute::Position => 0u32,
                PrimitiveAttribute::Normal => 1u32,
                PrimitiveAttribute::Tangent => 2u32,
                PrimitiveAttribute::Color => 3u32,
                PrimitiveAttribute::UV0 => 4u32,
                PrimitiveAttribute::UV1 => 5u32,
            }),
    {
        match self {
            PrimitiveAttribute::Position => 0,
            PrimitiveAttribute::Normal => 1,
            PrimitiveAttribute::Tangent => 2,
            PrimitiveAttribute::Color => 3,
            PrimitiveAttribute::UV0 => 4,
            PrimitiveAttribute::UV1 => 5,
        }
    }
}

/// Which vertex attributes a primitive carries, and the hash by which
/// materials recognise primitives with the same attributes.
#[derive(Clone, Copy, Debug, PartialEq, Eq, Structural)]
pub struct PrimitiveInfo {
    pub has_tangents: bool,
    pub has_normals: bool,
    pub has_colors: bool,
    pub has_uv0: bool,
    pub has_uv1: bool,
    pub compatible_hash: u64,
}

/// What `std`'s default hasher gives for the five attribute flags, hashed in
/// the order of the parameters.
pub uninterp spec fn attribute_flags_hash(
    has_tangents: bool,
    has_normals: bool,
    has_colors: bool,
    has_uv0: bool,
    has_uv1: bool,
) -> u64;

/// Hashes the five flags, in order, with a fresh
/// `std::collections::hash_map::DefaultHasher` (through
/// `BuildHasher::hash_one`). Claimed of it: the hash is a function of the
/// flags alone; that hasher starts from fixed keys, not from a seed drawn per
/// process.
#[verifier::external_body]
fn hash_attribute_flags(
    has_tangents: bool,
    has_normals: bool,
    has_colors: bool,
    has_uv0: bool,
    has_uv1: bool,
) -> (r: u64)
    ensures
        r == attribute_flags_hash(has_tangents, has_normals, has_colors, has_uv0, has_uv1),
{
    std::hash::BuildHasher::hash_one(
        &std::hash::BuildHasherDefault::<std::collections::hash_map::DefaultHasher>::default(),
        (has_tangents, has_normals, has_colors, has_uv0, has_uv1),
    )
}

impl PrimitiveInfo {
    /// The attributes of a primitive, with the hash of its attribute flags.
    pub fn new(
        has_tangents: bool,
        has_normals: bool,
        has_colors: bool,
        has_uv0: bool,
        has_uv1: bool,
    ) -> (r: Self)
        ensures
            r.has_tangents == has_tangents,
            r.has_normals == has_normals,
            r.has_colors == has_colors,
            r.has_uv0 == has_uv0,
            r.has_uv1 == has_uv1,
            r.compatible_hash == attribute_flags_hash(
                has_tangents,
                has_normals,
                has_colors,
                has_uv0,
                has_uv1,
            ),
    {
        PrimitiveInfo {
            has_tangents,
            has_normals,
            has_colors,
            has_uv0,
            has_uv1,
            compatible_hash: hash_attribute_flags(
                has_tangents,
                has_normals,
                has_colors,
                has_uv0,
                has_uv1,
            ),
        }
    }

    /// The attributes of a primitive whose vertex data holds the given
    /// numbers of tangents, normals, colors and texture coordinates of the
    /// two sets: an attribute is present when it holds any.
    pub fn from_attribute_counts(
        tangents: usize,
        normals: usize,
        colors: usize,
        uv0: usize,
        uv1: usize,
    ) -> (r: Self)
        ensures
            r.has_tangents == (tangents > 0),
            r.has_normals == (normals > 0),
            r.has_colors == (colors > 0),
            r.has_uv0 == (uv0 > 0),
            r.has_uv1 == (uv1 > 0),
            r.compatible_hash == attribute_flags_hash(
                tangents > 0,
                normals > 0,
                colors > 0,
                uv0 > 0,
                uv1 > 0,
            ),
    {
        Self::new(tangents > 0, normals > 0, colors > 0, uv0 > 0, uv1 > 0)
    }
}

/// Where the collider of a mesh comes from.
pub enum ColliderChoice {
    /// The mesh has one primitive: its collider, if it has one, is the
    /// mesh's.
    OfOnlyPrimitive,
    /// A compound of the colliders of these primitives, in order.
    Compound(Vec<usize>),
}

/// The collider of a mesh whose primitives have a collider where
/// `has_collider` holds: that of its only primitive, or else a compound of
/// those of every primitive that has one (none for a mesh without
/// primitives).
pub fn mesh_collider_choice(has_collider: &Vec<bool>) -> (r: ColliderChoice)
    ensures
        has_collider@.len() == 1 ==> r is OfOnlyPrimitive,
        has_collider@.len() != 1 ==> (r matches ColliderChoice::Compound(v) && {
            &&& forall|k: int, l: int| 0 <= k < l < v@.len() ==> v@[k] < v@[l]
            &&& forall|k: int| 0 <= k < v@.len() ==> {
                &&& (#[trigger] v@[k] as int) < has_collider@.len()
                &&& has_collider@[v@[k] as int]
            }
            &&& forall|i: int|
                0 <= i < has_collider@.len() && #[trigger] has_collider@[i] ==> exists|k: int|
                    0 <= k < v@.len() && v@[k] == i
        }),
{
    if has_collider.len() == 1 {
        return ColliderChoice::OfOnlyPrimitive;
    }
    let mut v: Vec<usize> = Vec::new();
    let mut i: usize = 0;
    while i < has_collider.len()
        invariant
            i <= has_collider@.len(),
            forall|k: int, l: int| 0 <= k < l < v@.len() ==> v@[k] < v@[l],
            forall|k: int| 0 <= k < v@.len() ==> {
                &&& (#[trigger] v@[k] as int) < i
                &&& has_collider@[v@[k] as int]
            },
            forall|j: int|
                0 <= j < i && #[trigger] has_collider@[j] ==> exists|k: int|
                    0 <= k < v@.len() && v@[k] == j,
        decreases has_collider@.len() - i,
    {
        let ghost v0 = v@;
        if has_collider[i] {
            v.push(i);
            assert(v@[v@.len() - 1] == i);
        }
        assert forall|j: int| 0 <= j <= i && #[trigger] has_collider@[j] implies exists|k: int|
            0 <= k < v@.len() && v@[k] == j by {
            if j < i {
                let k = choose|k: int| 0 <= k < v0.len() && v0[k] == j;
                assert(v@[k] == v0[k]);
            } else {
                assert(v@[v@.len() - 1] == i);
            }
        }
        i = i + 1;
    }
    ColliderChoice::Compound(v)
}

} // verus!
