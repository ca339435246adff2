use crate::text::str_eq;
use vstd::prelude::*;

verus! {

/// The built-in meshes that are generated rather than loaded, with the
/// whole-number parameters they are generated with.
#[derive(Clone, Copy, Debug, PartialEq, Eq, Structural)]
pub enum MeshRecipe {
    Quad,
    Cube,
    Plane,
    Grid { num_lines: u32 },
    Axes,
    Circle { num_pts: u32 },
    Disk,
    LatLongSphere {
        num_lat_segs: u32,
        num_long_segs: u32,
        smooth_normals: bool,
        shared_vertices: bool,
    },
    IcoSphere { num_subdiv: u32, smooth_normals: bool },
    Points,
}

/// The built-in mesh called `id`, if there is one.
pub open spec fn mesh_recipe_spec(id: Seq<char>) -> Option<MeshRecipe> {
    if id == "quad"@ {
        Some(MeshRecipe::Quad)
    } else if id == "cube"@ {
        Some(MeshRecipe::Cube)
    } else if id == "plane"@ {
        Some(MeshRecipe::Plane)
    } else if id == "grid"@ {
        Some(MeshRecipe::Grid { num_lines: 11 })
    } else if id == "axes"@ {
        Some(MeshRecipe::Axes)
    } else if id == "circle"@ {
        Some(MeshRecipe::Circle { num_pts: 100 })
    } else if id == "disk"@ {
        Some(MeshRecipe::Disk)
    } else if id == "lat_long_sphere"@ {
        Some(
            MeshRecipe::LatLongSphere {
                num_lat_segs: 32,
                num_long_segs: 32,
                smooth_normals: true,
                shared_vertices: true,
            },
        )
    } else if id == "ico_sphere"@ {
        Some(MeshRecipe::IcoSphere { num_subdiv: 2, smooth_normals: false })
    } else if id == "points"@ {
        Some(MeshRecipe::Points)
    } else {
        None
    }
}

/// The built-in mesh called `identifier`, if any.
pub fn mesh_recipe(identifier: &str) -> (r: Option<MeshRecipe>)
    ensures
        r == mesh_recipe_spec(identifier@),
{
    if str_eq(identifier, "quad") {
        Some(MeshRecipe::Quad)
    } else if str_eq(identifier, "cube") {
        Some(MeshRecipe::Cube)
    } else if str_eq(identifier, "plane") {
        Some(MeshRecipe::Plane)
    } else if str_eq(identifier, "grid") {
        Some(MeshRecipe::Grid { num_lines: 11 })
    } else if str_eq(identifier, "axes") {
        Some(MeshRecipe::Axes)
    } else if str_eq(identifier, "circle") {
        Some(MeshRecipe::Circle { num_pts: 100 })
    } else if str_eq(identifier, "disk") {
        Some(MeshRecipe::Disk)
    } else if str_eq(identifier, "lat_long_sphere") {
        Some(
            MeshRecipe::LatLongSphere {
                num_lat_segs: 32,
                num_long_segs: 32,
                smooth_normals: true,
                shared_vertices: true,
            },
        )
    } else if str_eq(identifier, "ico_sphere") {
        Some(MeshRecipe::IcoSphere { num_subdiv: 2, smooth_normals: false })
    } else if str_eq(identifier, "points") {
        Some(MeshRecipe::Points)
    } else {
        None
    }
}

/// The name of the built-in mesh that `recipe` generates.
pub open spec fn recipe_mesh_name(recipe: MeshRecipe) -> Seq<char> {
    match recipe {
        MeshRecipe::Quad => "quad"@,
        MeshRecipe::Cube => "cube"@,
        MeshRecipe::Plane => "plane"@,
        MeshRecipe::Grid { .. } => "grid"@,
        MeshRecipe::Axes => "axes"@,
        MeshRecipe::Circle { .. } => "circle"@,
        MeshRecipe::Disk => "disk"@,
        MeshRecipe::LatLongSphere { .. } => "lat_long_sphere"@,
        MeshRecipe::IcoSphere { .. } => "ico_sphere"@,
        MeshRecipe::Points => "points"@,
    }
}

/// Each built-in mesh name gives the recipe of the mesh of that name, so
/// distinct names give distinct recipes, and the name of every recipe gives
/// a recipe of that kind.
pub proof fn lemma_mesh_names_give_their_own_recipe(id: Seq<char>, recipe: MeshRecipe)
    ensures
        mesh_recipe_spec(id) == Some(recipe) ==> id == recipe_mesh_name(recipe),
        mesh_recipe_spec(recipe_mesh_name(recipe)) matches Some(r) && recipe_mesh_name(r)
            == recipe_mesh_name(recipe),
{
    reveal_strlit("quad");
    reveal_strlit("cube");
    reveal_strlit("plane");
    reveal_strlit("grid");
    reveal_strlit("axes");
    reveal_strlit("circle");
    reveal_strlit("disk");
    reveal_strlit("lat_long_sphere");
    reveal_strlit("ico_sphere");
    reveal_strlit("points");
    assert("quad"@[0] != "cube"@[0]);
    assert("quad"@.len() != "plane"@.len());
    assert("quad"@[0] != "grid"@[0]);
    assert("quad"@[0] != "axes"@[0]);
    assert("quad"@.len() != "circle"@.len());
    assert("quad"@[0] != "disk"@[0]);
    assert("quad"@.len() != "lat_long_sphere"@.len());
    assert("quad"@.len() != "ico_sphere"@.len());
    assert("quad"@.len() != "points"@.len());
    assert("cube"@.len() != "plane"@.len());
    assert("cube"@[0] != "grid"@[0]);
    assert("cube"@[0] != "axes"@[0]);
    assert("cube"@.len() != "circle"@.len());
    assert("cube"@[0] != "disk"@[0]);
    assert("cube"@.len() != "lat_long_sphere"@.len());
    assert("cube"@.len() != "ico_sphere"@.len());
    assert("cube"@.len() != "points"@.len());
    assert("plane"@.len() != "grid"@.len());
    assert("plane"@.len() != "axes"@.len());
    assert("plane"@.len() != "circle"@.len());
    assert("plane"@.len() != "disk"@.len());
    assert("plane"@.len() != "lat_long_sphere"@.len());
    assert("plane"@.len() != "ico_sphere"@.len());
    assert("plane"@.len() != "points"@.len());
    assert("grid"@[0] != "axes"@[0]);
    assert("grid"@.len() != "circle"@.len());
    assert("grid"@[0] != "disk"@[0]);
    assert("grid"@.len() != "lat_long_sphere"@.len());
    assert("grid"@.len() != "ico_sphere"@.len());
    assert("grid"@.len() != "points"@.len());
    assert("axes"@.len() != "circle"@.len());
    assert("axes"@[0] != "disk"@[0]);
    assert("axes"@.len() != "lat_long_sphere"@.len());
    assert("axes"@.len() != "ico_sphere"@.len());
    assert("axes"@.len() != "points"@.len());
    assert("circle"@.len() != "disk"@.len());
    assert("circle"@.len() != "lat_long_sphere"@.len());
    assert("circle"@.len() != "ico_sphere"@.len());
    assert("circle"@[0] != "points"@[0]);
    assert("disk"@.len() != "lat_long_sphere"@.len());
    assert("disk"@.len() != "ico_sphere"@.len());
    assert("disk"@.len() != "points"@.len());
    assert("lat_long_sphere"@.len() != "ico_sphere"@.len());
    assert("lat_long_sphere"@.len() != "points"@.len());
    assert("ico_sphere"@.len() != "points"@.len());
}

/// The path from which a mesh that is not built in is requested: the glTF
/// folder followed by the identifier.
pub fn gltf_request_path(identifier: &str) -> (r: String)
    ensures
        r@ == "public/gltf/"@ + identifier@,
{
    let mut path = String::from_str("public/gltf/");
    path.append(identifier);
    path
}

/// The file names of the six faces of a cubemap, in the order in which they
/// are requested.
pub open spec fn cubemap_face_file(i: int) -> Seq<char> {
    if i == 0 {
        "/Right.jpg"@
    } else if i == 1 {
        "/Left.jpg"@
    } else if i == 2 {
        "/Top.jpg"@
    } else if i == 3 {
        "/Bottom.jpg"@
    } else if i == 4 {
        "/Front.jpg"@
    } else {
        "/Back.jpg"@
    }
}

/// The paths from which the six faces of the cubemap `identifier` are
/// requested.
pub fn cubemap_face_urls(identifier: &str) -> (r: Vec<String>)
    ensures
        r@.len() == 6,
        forall|i: int| 0 <= i < 6 ==> #[trigger] r@[i]@ == identifier@ + cubemap_face_file(i),
{
    let mut urls: Vec<String> = Vec::new();
    let mut i: usize = 0;
    while i < 6
        invariant
            i <= 6,
            urls@.len() == i,
            forall|j: int| 0 <= j < i ==> #[trigger] urls@[j]@ == identifier@ + cubemap_face_file(j),
        decreases 6 - i,
    {
        let file = if i == 0 {
            "/Right.jpg"
        } else if i == 1 {
            "/Left.jpg"
        } else if i == 2 {
            "/Top.jpg"
        } else if i == 3 {
            "/Bottom.jpg"
        } else if i == 4 {
            "/Front.jpg"
        } else {
            "/Back.jpg"
        };
        let mut url = String::from_str(identifier);
        url.append(file);
        urls.push(url);
        i = i + 1;
    }
    urls
}

/// The path under which the fallback texture is kept.
pub fn default_texture_path(name: &str) -> (r: String)
    ensures
        r@ == "public/textures/"@ + name@,
{
    let mut path = String::from_str("public/textures/");
    path.append(name);
    path
}

/// Where a text that arrived with a content type goes.
#[derive(Clone, Copy, Debug, PartialEq, Eq, Structural)]
pub enum TextRoute {
    /// A serialised scene.
    Scene,
    /// A database of bodies, of state vectors or of orbital elements.
    Database,
}

/// Where text of content type `content_type` goes, if it can be handled.
pub open spec fn text_route_spec(content_type: Seq<char>) -> Option<TextRoute> {
    if content_type == "scene"@ {
        Some(TextRoute::Scene)
    } else if content_type == "body_database"@ || content_type == "vectors_database"@
        || content_type == "elements_database"@ {
        Some(TextRoute::Database)
    } else {
        None
    }
}

/// Where text of content type `content_type` goes, if it can be handled.
pub fn text_route(content_type: &str) -> (r: Option<TextRoute>)
    ensures
        r == text_route_spec(content_type@),
{
    if str_eq(content_type, "scene") {
        Some(TextRoute::Scene)
    } else if str_eq(content_type, "body_database") || str_eq(content_type, "vectors_database")
        || str_eq(content_type, "elements_database") {
        Some(TextRoute::Database)
    } else {
        None
    }
}

/// Where bytes that arrived with a content type go.
#[derive(Clone, Copy, Debug, PartialEq, Eq, Structural)]
pub enum BytesRoute {
    /// One face of a cubemap texture.
    CubemapFace,
    /// A whole texture image.
    Texture,
    /// A glTF file.
    Gltf,
}

/// Where bytes of content type `content_type` go, if they can be handled.
pub open spec fn bytes_route_spec(content_type: Seq<char>) -> Option<BytesRoute> {
    if content_type == "cubemap_face"@ {
        Some(BytesRoute::CubemapFace)
    } else if content_type == "texture"@ {
        Some(BytesRoute::Texture)
    } else if content_type == "gltf"@ {
        Some(BytesRoute::Gltf)
    } else {
        None
    }
}

/// Where bytes of content type `content_type` go, if they can be handled.
pub fn bytes_route(content_type: &str) -> (r: Option<BytesRoute>)
    ensures
        r == bytes_route_spec(content_type@),
{
    if str_eq(content_type, "cubemap_face") {
        Some(BytesRoute::CubemapFace)
    } else if str_eq(content_type, "texture") {
        Some(BytesRoute::Texture)
    } else if str_eq(content_type, "gltf") {
        Some(BytesRoute::Gltf)
    } else {
        None
    }
}

/// The kinds of resource that a glTF file holds.
#[derive(Clone, Copy, Debug, PartialEq, Eq, Structural)]
pub enum GltfResourceKind {
    Mesh,
    Material,
    Texture,
    Node,
    Scene,
}

/// The text between the file identifier and the index in the identifier of
/// a glTF resource. Meshes, materials and textures share one.
pub open spec fn gltf_infix(kind: GltfResourceKind) -> Seq<char> {
    match kind {
        GltfResourceKind::Mesh => "_mesh_"@,
        GltfResourceKind::Material => "_mesh_"@,
        GltfResourceKind::Texture => "_mesh_"@,
        GltfResourceKind::Node => "_node_"@,
        GltfResourceKind::Scene => "_scene_"@,
    }
}

/// The character of decimal digit `d`.
pub open spec fn digit_char(d: int) -> char {
    if d == 0 {
        '0'
    } else if d == 1 {
        '1'
    } else if d == 2 {
        '2'
    } else if d == 3 {
        '3'
    } else if d == 4 {
        '4'
    } else if d == 5 {
        '5'
    } else if d == 6 {
        '6'
    } else if d == 7 {
        '7'
    } else if d == 8 {
        '8'
    } else {
        '9'
    }
}

/// The decimal notation of `n`, without leading zeros.
pub open spec fn decimal(n: nat) -> Seq<char>
    decreases n,
{
    if n < 10 {
        seq![digit_char(n as int)]
    } else {
        decimal(n / 10).push(digit_char((n % 10) as int))
    }
}

fn digit_str(d: usize) -> (r: &'static str)
    requires
        d < 10,
    ensures
        r@ == seq![digit_char(d as int)],
{
    proof {
        reveal_strlit("0");
        reveal_strlit("1");
        reveal_strlit("2");
        reveal_strlit("3");
        reveal_strlit("4");
        reveal_strlit("5");
        reveal_strlit("6");
        reveal_strlit("7");
        reveal_strlit("8");
        reveal_strlit("9");
    }
    if d == 0 {
        "0"
    } else if d == 1 {
        "1"
    } else if d == 2 {
        "2"
    } else if d == 3 {
        "3"
    } else if d == 4 {
        "4"
    } else if d == 5 {
        "5"
    } else if d == 6 {
        "6"
    } else if d == 7 {
        "7"
    } else if d == 8 {
        "8"
    } else {
        "9"
    }
}

/// The decimal notation of `n`.
pub fn decimal_string(n: usize) -> (r: String)
    ensures
        r@ == decimal(n as nat),
    decreases n,
{
    if n < 10 {
        String::from_str(digit_str(n))
    } else {
        let mut s = decimal_string(n / 10);
        s.append(digit_str(n % 10));
        s
    }
}

/// The identifier of resource `index` of kind `kind` in the glTF file
/// `scene_identifier`.
pub fn gltf_identifier(scene_identifier: &str, kind: GltfResourceKind, index: usize) -> (r: String)
    ensures
        r@ == scene_identifier@ + gltf_infix(kind) + decimal(index as nat),
{
    let mut id = String::from_str(scene_identifier);
    let infix = match kind {
        GltfResourceKind::Mesh => "_mesh_",
        GltfResourceKind::Material => "_mesh_",
        GltfResourceKind::Texture => "_mesh_",
        GltfResourceKind::Node => "_node_",
        GltfResourceKind::Scene => "_scene_",
    };
    id.append(infix);
    let digits = decimal_string(index);
    id.append(digits.as_str());
    id
}

} // verus!
