use super::cubemap::{FaceReceipt, TempCubemap, faces_after, all_faces_present, face_slot};
use super::material::{material_template, material_template_spec, MaterialTemplate};
use super::requests::{
    cubemap_face_file, cubemap_face_urls, default_texture_path, gltf_request_path, mesh_recipe,
    mesh_recipe_spec, MeshRecipe,
};
use crate::text::str_eq;
use vstd::slice::slice_to_vec;
use vstd::prelude::*;

verus! {

/// What `std::path::Path::file_stem` gives for `path`: the file name
/// without its extension, if the path has a file name.
pub uninterp spec fn path_file_stem(path: Seq<char>) -> Option<Seq<char>>;

/// What `std::path::Path::parent` gives for `path`: the path without its
/// last component, if it has one.
pub uninterp spec fn path_parent(path: Seq<char>) -> Option<Seq<char>>;

/// The characters of an optional string.
pub open spec fn text_of(s: Option<String>) -> Option<Seq<char>> {
    match s {
        Some(t) => Some(t@),
        None => None,
    }
}

/// The file stem of `path`, by `std::path::Path::file_stem`. Claimed of it:
/// the result is a function of the path alone. (A stem taken from a `&str`
/// is valid UTF-8, so `to_str` keeps it whole.)
#[verifier::external_body]
fn file_stem_of(path: &str) -> (r: Option<String>)
    ensures
        text_of(r) == path_file_stem(path@),
{
    match std::path::Path::new(path).file_stem() {
        Some(stem) => stem.to_str().map(String::from),
        None => None,
    }
}

/// The parent of `path`, by `std::path::Path::parent`. Claimed of it: the
/// result is a function of the path alone.
#[verifier::external_body]
fn parent_of(path: &str) -> (r: Option<String>)
    ensures
        text_of(r) == path_parent(path@),
{
    match std::path::Path::new(path).parent() {
        Some(parent) => parent.to_str().map(String::from),
        None => None,
    }
}

/// A set of names, each held once.
pub struct NameSet {
    names: Vec<String>,
}

impl NameSet {
    /// Each name occurs once.
    pub closed spec fn wf(&self) -> bool {
        forall|i: int, j: int|
            0 <= i < j < self.names@.len() ==> #[trigger] self.names@[i]@ != #[trigger] self.names@[j]@
    }

    /// The names held.
    pub closed spec fn view(&self) -> Set<Seq<char>> {
        Set::new(
            |n: Seq<char>| exists|i: int| 0 <= i < self.names@.len() && #[trigger] self.names@[i]@ == n,
        )
    }

    /// No names.
    pub fn new() -> (r: Self)
        ensures
            r.wf(),
            r@ == Set::<Seq<char>>::empty(),
    {
        let r = NameSet { names: Vec::new() };
        assert(r@ =~= Set::<Seq<char>>::empty());
        r
    }

    /// Whether `name` is held.
    pub fn contains(&self, name: &str) -> (r: bool)
        ensures
            r == self@.contains(name@),
    {
        let mut i: usize = 0;
        while i < self.names.len()
            invariant
                i <= self.names@.len(),
                forall|j: int| 0 <= j < i ==> #[trigger] self.names@[j]@ != name@,
            decreases self.names@.len() - i,
        {
            if str_eq(self.names[i].as_str(), name) {
                assert(self.names@[i as int]@ == name@);
                return true;
            }
            i = i + 1;
        }
        false
    }

    /// Adds `name`; returns whether it was new.
    pub fn insert(&mut self, name: &str) -> (r: bool)
        requires
            old(self).wf(),
        ensures
            final(self).wf(),
            final(self)@ == old(self)@.insert(name@),
            r == !old(self)@.contains(name@),
    {
        if self.contains(name) {
            assert(self@.insert(name@) =~= self@);
            return false;
        }
        let ghost before = self.names@;
        self.names.push(String::from_str(name));
        proof {
            assert forall|n: Seq<char>| #[trigger] self@.contains(n) == old(self)@.insert(
                name@,
            ).contains(n) by {
                if n == name@ {
                    assert(self.names@[before.len() as int]@ == n);
                } else if old(self)@.contains(n) {
                    let j = choose|j: int| 0 <= j < before.len() && #[trigger] before[j]@ == n;
                    assert(self.names@[j]@ == n);
                } else if self@.contains(n) {
                    let j = choose|j: int| 0 <= j < self.names@.len() && #[trigger] self.names@[j]@ == n;
                    assert(before[j]@ == n);
                }
            }
            assert(self@ =~= old(self)@.insert(name@));
        }
        true
    }
}

/// What to do for a material that is asked for.
pub enum MaterialPlan {
    /// The material exists already.
    Cached,
    /// Create the built-in material from this template.
    Create(MaterialTemplate),
    /// There is no such material.
    Unknown,
}

/// What to do for a mesh that is asked for.
pub enum MeshPlan {
    /// The mesh exists already.
    Cached,
    /// Generate the built-in mesh.
    Generate(MeshRecipe),
    /// Request the mesh file from this path, and show an empty mesh, kept
    /// under that path, until it arrives.
    Request(String),
}

/// The materials that asking for a new mesh `id` asks for first: the
/// default material and the screen-space one, and the vertex-color one for
/// the axes.
pub open spec fn mesh_materials(id: Seq<char>) -> Seq<Seq<char>> {
    if id == "axes"@ {
        seq!["default"@, "default_screenspace"@, "vertex_color"@]
    } else {
        seq!["default"@, "default_screenspace"@]
    }
}

/// `plan` is what asking for the built-in material `name` gives when the
/// materials `names` exist.
pub open spec fn material_plan_for(names: Set<Seq<char>>, name: Seq<char>, plan: MaterialPlan) -> bool {
    if names.contains(name) {
        plan is Cached
    } else {
        plan matches MaterialPlan::Create(m) && material_template_spec(name) == Some(
            (m.vert@, m.frag@, m.uniforms@),
        )
    }
}

/// What to do for a texture that is asked for.
pub enum TexturePlan {
    /// The texture exists already.
    Cached,
    /// Request the texture from these paths (one, or the six faces of a
    /// cubemap) and show a copy of the fallback texture until it arrives.
    /// The fallback texture must be made first, and kept under the given
    /// path, when there is one.
    Request { urls: Vec<String>, make_fallback: Option<String> },
}

/// What to do with a texture image that arrived.
#[derive(Clone, Copy, Debug, PartialEq, Eq, Structural)]
pub enum TextureArrival {
    /// A texture of that name exists (the placeholder shown meanwhile): give
    /// it the new image.
    Replace,
    /// Keep it as a new texture.
    Insert,
}

/// The paths that the texture `identifier` is requested from.
pub open spec fn texture_urls(identifier: Seq<char>, is_cubemap: bool) -> Seq<Seq<char>> {
    if is_cubemap {
        Seq::new(6, |i: int| identifier + cubemap_face_file(i))
    } else {
        seq![identifier]
    }
}

/// The name of the fallback texture.
pub open spec fn fallback_texture_name() -> Seq<char> {
    "default_texture"@
}

/// The resources of the engine by name, and the cubemaps whose faces are
/// still arriving: which resources exist, and what asking for one calls for.
pub struct ResourceManager {
    meshes: NameSet,
    textures: NameSet,
    materials: NameSet,
    temp_cubemaps: Vec<(String, TempCubemap)>,
    has_fallback_texture: bool,
}

impl ResourceManager {
    pub closed spec fn wf(&self) -> bool {
        &&& self.meshes.wf()
        &&& self.textures.wf()
        &&& self.materials.wf()
        &&& forall|i: int| 0 <= i < self.temp_cubemaps@.len() ==> #[trigger] self.temp_cubemaps@[i].1.wf()
        &&& forall|i: int, j: int|
            0 <= i < j < self.temp_cubemaps@.len() ==> #[trigger] self.temp_cubemaps@[i].0@
                != #[trigger] self.temp_cubemaps@[j].0@
    }

    pub closed spec fn mesh_names(&self) -> Set<Seq<char>> {
        self.meshes@
    }

    pub closed spec fn texture_names(&self) -> Set<Seq<char>> {
        self.textures@
    }

    pub closed spec fn material_names(&self) -> Set<Seq<char>> {
        self.materials@
    }

    /// Whether the fallback texture was made.
    pub closed spec fn has_fallback(&self) -> bool {
        self.has_fallback_texture
    }

    /// The faces received so far for each cubemap under construction, and
    /// whether it is complete, by cubemap identifier.
    pub closed spec fn cubemap(&self, id: Seq<char>) -> Option<(Seq<Seq<u8>>, bool)> {
        if exists|i: int| 0 <= i < self.temp_cubemaps@.len() && #[trigger] self.temp_cubemaps@[i].0@ == id {
            let i = choose|i: int|
                0 <= i < self.temp_cubemaps@.len() && #[trigger] self.temp_cubemaps@[i].0@ == id;
            Some((self.temp_cubemaps@[i].1.face_bytes(), self.temp_cubemaps@[i].1.is_completed()))
        } else {
            None
        }
    }

    /// The faces received so far for the cubemap `id`; none if it is not
    /// under construction.
    pub open spec fn cubemap_faces(&self, id: Seq<char>) -> Seq<Seq<u8>> {
        match self.cubemap(id) {
            Some((faces, _)) => faces,
            None => Seq::empty(),
        }
    }

    /// No resources.
    pub fn new() -> (r: Self)
        ensures
            r.wf(),
            r.mesh_names() == Set::<Seq<char>>::empty(),
            r.texture_names() == Set::<Seq<char>>::empty(),
            r.material_names() == Set::<Seq<char>>::empty(),
            !r.has_fallback(),
            forall|id: Seq<char>| r.cubemap(id) is None,
    {
        ResourceManager {
            meshes: NameSet::new(),
            textures: NameSet::new(),
            materials: NameSet::new(),
            temp_cubemaps: Vec::new(),
            has_fallback_texture: false,
        }
    }

    /// Whether the mesh `identifier` exists.
    pub fn get_mesh(&self, identifier: &str) -> (r: bool)
        ensures
            r == self.mesh_names().contains(identifier@),
    {
        self.meshes.contains(identifier)
    }

    /// Whether the material `identifier` exists.
    pub fn get_material(&self, identifier: &str) -> (r: bool)
        ensures
            r == self.material_names().contains(identifier@),
    {
        self.materials.contains(identifier)
    }

    /// Asks for the material `identifier`: an existing one is used, a
    /// built-in one is created and recorded, any other is unknown.
    pub fn get_or_create_material(&mut self, identifier: &str) -> (r: MaterialPlan)
        requires
            old(self).wf(),
        ensures
            final(self).wf(),
            final(self).mesh_names() == old(self).mesh_names(),
            final(self).texture_names() == old(self).texture_names(),
            final(self).has_fallback() == old(self).has_fallback(),
            forall|id: Seq<char>| #[trigger] final(self).cubemap(id) == old(self).cubemap(id),
            old(self).material_names().contains(identifier@) ==> r is Cached
                && final(self).material_names() == old(self).material_names(),
            !old(self).material_names().contains(identifier@) ==> match material_template_spec(
                identifier@,
            ) {
                Some(t) => {
                    &&& r matches MaterialPlan::Create(m) && (m.vert@, m.frag@, m.uniforms@) == t
                    &&& final(self).material_names() == old(self).material_names().insert(
                        identifier@,
                    )
                },
                None => r is Unknown && final(self).material_names() == old(self).material_names(),
            },
    {
        if self.materials.contains(identifier) {
            return MaterialPlan::Cached;
        }
        match material_template(identifier) {
            Some(t) => {
                self.materials.insert(identifier);
                MaterialPlan::Create(t)
            },
            None => MaterialPlan::Unknown,
        }
    }

    /// Asks for the mesh `identifier`: an existing one is used. Otherwise
    /// the materials that new meshes start from are asked for first (see
    /// `mesh_materials`), and then a built-in mesh is generated and recorded,
    /// or any other is requested as a file and an empty mesh is recorded
    /// under the request path. Returns what to do for the mesh, and for each
    /// material asked for, in order, what to do for it.
    pub fn get_or_create_mesh(&mut self, identifier: &str) -> (r: (MeshPlan, Vec<(String, MaterialPlan)>))
        requires
            old(self).wf(),
        ensures
            final(self).wf(),
            final(self).texture_names() == old(self).texture_names(),
            final(self).has_fallback() == old(self).has_fallback(),
            forall|id: Seq<char>| #[trigger] final(self).cubemap(id) == old(self).cubemap(id),
            old(self).mesh_names().contains(identifier@) ==> {
                &&& r.0 is Cached
                &&& r.1@.len() == 0
                &&& final(self).mesh_names() == old(self).mesh_names()
                &&& final(self).material_names() == old(self).material_names()
            },
            !old(self).mesh_names().contains(identifier@) ==> {
                let mats = mesh_materials(identifier@);
                &&& final(self).material_names() == old(self).material_names() + mats.to_set()
                &&& r.1@.len() == mats.len()
                &&& forall|i: int|
                    0 <= i < mats.len() ==> {
                        &&& #[trigger] r.1@[i].0@ == mats[i]
                        &&& material_plan_for(old(self).material_names(), mats[i], r.1@[i].1)
                    }
                &&& match mesh_recipe_spec(identifier@) {
                    Some(recipe) => r.0 == MeshPlan::Generate(recipe) && final(self).mesh_names()
                        == old(self).mesh_names().insert(identifier@),
                    None => {
                        &&& r.0 matches MeshPlan::Request(path) && path@ == "public/gltf/"@
                            + identifier@
                        &&& final(self).mesh_names() == old(self).mesh_names().insert(
                            "public/gltf/"@ + identifier@,
                        )
                    },
                }
            },
    {
        if self.meshes.contains(identifier) {
            return (MeshPlan::Cached, Vec::new());
        }
        let ghost m0 = old(self).material_names();
        proof {
            reveal_strlit("default");
            reveal_strlit("default_screenspace");
            reveal_strlit("vertex_color");
            reveal_strlit("axes");
            assert("default"@.len() != "default_screenspace"@.len());
            assert("default"@.len() != "vertex_color"@.len());
            assert("default_screenspace"@.len() != "vertex_color"@.len());
        }
        let mut plans: Vec<(String, MaterialPlan)> = Vec::new();
        let p1 = self.get_or_create_material("default");
        let ghost m1 = self.material_names();
        proof {
            assert(material_plan_for(m0, "default"@, p1));
            assert(m1 =~= m0.insert("default"@));
        }
        plans.push((String::from_str("default"), p1));
        let p2 = self.get_or_create_material("default_screenspace");
        let ghost m2 = self.material_names();
        proof {
            assert(m1.contains("default_screenspace"@) == m0.contains("default_screenspace"@));
            assert(material_plan_for(m0, "default_screenspace"@, p2));
            assert(m2 =~= m0.insert("default"@).insert("default_screenspace"@));
        }
        plans.push((String::from_str("default_screenspace"), p2));
        let is_axes = crate::text::str_eq(identifier, "axes");
        if is_axes {
            let p3 = self.get_or_create_material("vertex_color");
            proof {
                assert(m2.contains("vertex_color"@) == m0.contains("vertex_color"@));
                assert(material_plan_for(m0, "vertex_color"@, p3));
            }
            plans.push((String::from_str("vertex_color"), p3));
        }
        proof {
            let mats = mesh_materials(identifier@);
            assert(mats.to_set() =~= if is_axes {
                set!["default"@, "default_screenspace"@, "vertex_color"@]
            } else {
                set!["default"@, "default_screenspace"@]
            });
            assert(self.material_names() =~= m0 + mats.to_set());
            assert(plans@.len() == mats.len());
            assert forall|i: int| 0 <= i < mats.len() implies {
                &&& #[trigger] plans@[i].0@ == mats[i]
                &&& material_plan_for(m0, mats[i], plans@[i].1)
            } by {
                if i == 0 {
                    assert(plans@[0].1 == p1);
                } else if i == 1 {
                    assert(plans@[1].1 == p2);
                }
            }
        }
        let ghost s2 = *self;
        let plan = match mesh_recipe(identifier) {
            Some(recipe) => {
                self.meshes.insert(identifier);
                MeshPlan::Generate(recipe)
            },
            None => {
                let path = gltf_request_path(identifier);
                self.meshes.insert(path.as_str());
                MeshPlan::Request(path)
            },
        };
        assert(self.temp_cubemaps@ == s2.temp_cubemaps@);
        assert forall|id: Seq<char>| #[trigger] self.cubemap(id) == old(self).cubemap(id) by {
            assert(self.cubemap(id) == s2.cubemap(id));
        }
        (plan, plans)
    }

    /// Asks for the texture `identifier`: an existing one is used; any other
    /// is requested (as six faces for a cubemap) and a placeholder is
    /// recorded under its name, the fallback texture being made first if it
    /// was not yet.
    pub fn get_or_request_texture(&mut self, identifier: &str, is_cubemap: bool) -> (r: TexturePlan)
        requires
            old(self).wf(),
        ensures
            final(self).wf(),
            final(self).material_names() == old(self).material_names(),
            final(self).mesh_names() == old(self).mesh_names(),
            forall|id: Seq<char>| #[trigger] final(self).cubemap(id) == old(self).cubemap(id),
            old(self).texture_names().contains(identifier@) ==> r is Cached && final(self).texture_names()
                == old(self).texture_names() && final(self).has_fallback() == old(self).has_fallback(),
            !old(self).texture_names().contains(identifier@) ==> {
                let fallback = "public/textures/"@ + fallback_texture_name();
                &&& r matches TexturePlan::Request { urls, make_fallback } && {
                    &&& urls@.len() == texture_urls(identifier@, is_cubemap).len()
                    &&& forall|i: int|
                        0 <= i < urls@.len() ==> #[trigger] urls@[i]@ == texture_urls(
                            identifier@,
                            is_cubemap,
                        )[i]
                    &&& match make_fallback {
                        Some(p) => !old(self).has_fallback() && p@ == fallback,
                        None => old(self).has_fallback(),
                    }
                }
                &&& final(self).has_fallback()
                &&& final(self).texture_names() == if old(self).has_fallback() {
                    old(self).texture_names().insert(identifier@)
                } else {
                    old(self).texture_names().insert(fallback).insert(identifier@)
                }
            },
    {
        if self.textures.contains(identifier) {
            return TexturePlan::Cached;
        }
        let urls = if is_cubemap {
            cubemap_face_urls(identifier)
        } else {
            let mut one: Vec<String> = Vec::new();
            one.push(String::from_str(identifier));
            one
        };
        proof {
            if !is_cubemap {
                assert(urls@[0]@ == texture_urls(identifier@, is_cubemap)[0]);
            }
        }
        let make_fallback = if self.has_fallback_texture {
            None
        } else {
            let path = default_texture_path("default_texture");
            self.textures.insert(path.as_str());
            self.has_fallback_texture = true;
            Some(path)
        };
        self.textures.insert(identifier);
        assert(self.temp_cubemaps@ == old(self).temp_cubemaps@);
        TexturePlan::Request { urls, make_fallback }
    }

    /// A texture image called `identifier` arrived: it replaces the texture
    /// of that name, or is recorded as a new one.
    pub fn receive_texture_file_bytes(&mut self, identifier: &str) -> (r: TextureArrival)
        requires
            old(self).wf(),
        ensures
            final(self).wf(),
            r == if old(self).texture_names().contains(identifier@) {
                TextureArrival::Replace
            } else {
                TextureArrival::Insert
            },
            final(self).texture_names() == old(self).texture_names().insert(identifier@),
            final(self).material_names() == old(self).material_names(),
            final(self).mesh_names() == old(self).mesh_names(),
            final(self).has_fallback() == old(self).has_fallback(),
            forall|id: Seq<char>| #[trigger] final(self).cubemap(id) == old(self).cubemap(id),
    {
        let inserted = self.textures.insert(identifier);
        assert(self.temp_cubemaps@ == old(self).temp_cubemaps@);
        if inserted {
            TextureArrival::Insert
        } else {
            TextureArrival::Replace
        }
    }

    proof fn lemma_cubemap_at(&self, i: int)
        requires
            self.wf(),
            0 <= i < self.temp_cubemaps@.len(),
        ensures
            self.cubemap(self.temp_cubemaps@[i].0@) == Some(
                (self.temp_cubemaps@[i].1.face_bytes(), self.temp_cubemaps@[i].1.is_completed()),
            ),
    {
        let id = self.temp_cubemaps@[i].0@;
        assert(exists|k: int| 0 <= k < self.temp_cubemaps@.len() && #[trigger] self.temp_cubemaps@[k].0@ == id);
        let k = choose|k: int| 0 <= k < self.temp_cubemaps@.len() && #[trigger] self.temp_cubemaps@[k].0@ == id;
        if k != i {
            if k < i {
                assert(self.temp_cubemaps@[k].0@ != self.temp_cubemaps@[i].0@);
            } else {
                assert(self.temp_cubemaps@[i].0@ != self.temp_cubemaps@[k].0@);
            }
        }
    }

    /// The receipt of file `face` with `bytes` for the cubemap `id`.
    pub open spec fn face_receipt(&self, id: Seq<char>, face: Seq<char>, bytes: Seq<u8>) -> FaceReceipt {
        let prev = match self.cubemap(id) {
            Some(c) => c,
            None => (Seq::new(6, |i: int| Seq::<u8>::empty()), false),
        };
        if prev.1 {
            FaceReceipt::AlreadyComplete
        } else if all_faces_present(faces_after(prev.0, face, bytes)) {
            FaceReceipt::Completed
        } else {
            FaceReceipt::Pending
        }
    }

    /// What receiving file `face` with `bytes` for the cubemap `id` leaves
    /// (`new`) and returns (`r`): a cubemap not seen before starts with no
    /// faces; a complete one refuses the face; otherwise the face is stored,
    /// and the cubemap completes when all six faces are there. Nothing else
    /// changes.
    pub open spec fn face_received(
        &self,
        new: &Self,
        id: Seq<char>,
        face: Seq<char>,
        bytes: Seq<u8>,
        r: FaceReceipt,
    ) -> bool {
        let prev = match self.cubemap(id) {
            Some(c) => c,
            None => (Seq::new(6, |i: int| Seq::<u8>::empty()), false),
        };
        &&& new.wf()
        &&& new.material_names() == self.material_names()
        &&& new.mesh_names() == self.mesh_names()
        &&& new.texture_names() == self.texture_names()
        &&& new.has_fallback() == self.has_fallback()
        &&& forall|other: Seq<char>| other != id ==> #[trigger] new.cubemap(other) == self.cubemap(other)
        &&& if prev.1 {
            &&& r == FaceReceipt::AlreadyComplete
            &&& new.cubemap(id) == Some(prev)
        } else {
            let faces = faces_after(prev.0, face, bytes);
            &&& new.cubemap(id) == Some((faces, all_faces_present(faces)))
            &&& r == if all_faces_present(faces) {
                FaceReceipt::Completed
            } else {
                FaceReceipt::Pending
            }
        }
    }

    /// The faces of file `face` of the cubemap `cubemap_identifier` arrived.
    /// A cubemap not seen before starts with no faces. Once all six faces
    /// are there the cubemap is complete, and later faces are refused.
    pub fn receive_cubemap_face(&mut self, cubemap_identifier: &str, face: &str, bytes: &[u8]) -> (r:
        FaceReceipt)
        requires
            old(self).wf(),
        ensures
            old(self).face_received(final(self), cubemap_identifier@, face@, bytes@, r),
    {
        let ghost o = *old(self);
        let idx = match self.find_cubemap(cubemap_identifier) {
            Some(i) => {
                proof {
                    self.lemma_cubemap_at(i as int);
                }
                i
            },
            None => {
                proof {
                    assert(self.cubemap(cubemap_identifier@) is None);
                }
                let ghost before = self.temp_cubemaps@;
                self.temp_cubemaps.push((String::from_str(cubemap_identifier), TempCubemap::new()));
                proof {
                    assert forall|id: Seq<char>| id != cubemap_identifier@ implies #[trigger] self.cubemap(id)
                        == o.cubemap(id) by {
                        if exists|k: int| 0 <= k < before.len() && #[trigger] before[k].0@ == id {
                            let k = choose|k: int| 0 <= k < before.len() && #[trigger] before[k].0@ == id;
                            o.lemma_cubemap_at(k);
                            self.lemma_cubemap_at(k);
                        } else {
                            assert(!exists|k: int| 0 <= k < self.temp_cubemaps@.len() && #[trigger] self.temp_cubemaps@[k].0@ == id) by {
                                if exists|k: int| 0 <= k < self.temp_cubemaps@.len() && #[trigger] self.temp_cubemaps@[k].0@ == id {
                                    let k = choose|k: int| 0 <= k < self.temp_cubemaps@.len() && #[trigger] self.temp_cubemaps@[k].0@ == id;
                                    assert(k < before.len());
                                    assert(before[k].0@ == id);
                                }
                            }
                        }
                    }
                    self.lemma_cubemap_at(before.len() as int);
                }
                self.temp_cubemaps.len() - 1
            },
        };
        let ghost mid = *self;
        let (name, mut cubemap) = self.temp_cubemaps.remove(idx);
        let r = cubemap.receive_face(face, bytes);
        self.temp_cubemaps.insert(idx, (name, cubemap));
        proof {
            assert(self.temp_cubemaps@ =~= mid.temp_cubemaps@.update(idx as int, self.temp_cubemaps@[idx as int]));
            self.lemma_cubemap_at(idx as int);
            assert forall|id: Seq<char>| id != cubemap_identifier@ implies #[trigger] self.cubemap(id)
                == mid.cubemap(id) by {
                if exists|k: int| 0 <= k < mid.temp_cubemaps@.len() && #[trigger] mid.temp_cubemaps@[k].0@ == id {
                    let k = choose|k: int| 0 <= k < mid.temp_cubemaps@.len() && #[trigger] mid.temp_cubemaps@[k].0@ == id;
                    mid.lemma_cubemap_at(k);
                    self.lemma_cubemap_at(k);
                } else {
                    if exists|k: int| 0 <= k < self.temp_cubemaps@.len() && #[trigger] self.temp_cubemaps@[k].0@ == id {
                        let k = choose|k: int| 0 <= k < self.temp_cubemaps@.len() && #[trigger] self.temp_cubemaps@[k].0@ == id;
                        assert(mid.temp_cubemaps@[k].0@ == id);
                    }
                }
            }
        }
        r
    }

    /// The bytes received for face `i` of the cubemap `cubemap_identifier`,
    /// if that cubemap is under construction.
    pub fn cubemap_face(&self, cubemap_identifier: &str, i: usize) -> (r: Option<&[u8]>)
        requires
            self.wf(),
            i < 6,
        ensures
            match r {
                Some(b) => self.cubemap(cubemap_identifier@) matches Some(c) && b@ == c.0[i as int],
                None => self.cubemap(cubemap_identifier@) is None,
            },
    {
        match self.find_cubemap(cubemap_identifier) {
            Some(k) => {
                proof {
                    self.lemma_cubemap_at(k as int);
                }
                Some(self.temp_cubemaps[k].1.face(i))
            },
            None => None,
        }
    }

    /// The bytes of the cubemap face file `identifier` arrived, such as
    /// `skybox/Left.jpg`: its folder names the cubemap and its file stem the
    /// face. An identifier without a file name is ignored. Returns the
    /// cubemap identifier and its six faces, in slot order, exactly when this
    /// face completed the cubemap, so that its texture can be made.
    #[verifier::loop_isolation(false)]
    pub fn receive_cubemap_face_file_bytes(&mut self, identifier: &str, bytes: &[u8]) -> (r: Option<
        (String, Vec<Vec<u8>>),
    >)
        requires
            old(self).wf(),
        ensures
            ({
                let stem = path_file_stem(identifier@);
                let id = match path_parent(identifier@) {
                    Some(p) => p,
                    None => Seq::<char>::empty(),
                };
                match stem {
                    None => r is None && *final(self) == *old(self),
                    Some(face) => {
                        let receipt = old(self).face_receipt(id, face, bytes@);
                        &&& old(self).face_received(final(self), id, face, bytes@, receipt)
                        &&& (r is Some <==> receipt == FaceReceipt::Completed)
                        &&& r matches Some((rid, faces)) ==> {
                            &&& rid@ == id
                            &&& faces@.len() == 6
                            &&& forall|i: int|
                                0 <= i < 6 ==> #[trigger] faces@[i]@ == final(self).cubemap_faces(id)[i]
                        }
                    },
                }
            }),
    {
        let face = match file_stem_of(identifier) {
            Some(f) => f,
            None => return None,
        };
        let id = match parent_of(identifier) {
            Some(p) => p,
            None => String::new(),
        };
        let ghost o = *old(self);
        let receipt = self.receive_cubemap_face(id.as_str(), face.as_str(), bytes);
        assert(o.face_received(&*self, id@, face@, bytes@, receipt));
        match receipt {
            FaceReceipt::Completed => {
                let mut faces: Vec<Vec<u8>> = Vec::new();
                let mut i: usize = 0;
                while i < 6
                    invariant
                        self.wf(),
                        self.cubemap(id@) is Some,
                        i <= 6,
                        faces@.len() == i,
                        forall|j: int| 0 <= j < i ==> #[trigger] faces@[j]@ == self.cubemap_faces(id@)[j],
                    decreases 6 - i,
                {
                    let b = self.cubemap_face(id.as_str(), i).unwrap();
                    faces.push(slice_to_vec(b));
                    i = i + 1;
                }
                Some((id, faces))
            },
            _ => None,
        }
    }

    /// The position of the first cubemap called `id`, if any.
    fn find_cubemap(&self, id: &str) -> (r: Option<usize>)
        ensures
            match r {
                Some(i) => i < self.temp_cubemaps@.len() && self.temp_cubemaps@[i as int].0@ == id@,
                None => forall|j: int|
                    0 <= j < self.temp_cubemaps@.len() ==> #[trigger] self.temp_cubemaps@[j].0@ != id@,
            },
    {
        let mut i: usize = 0;
        while i < self.temp_cubemaps.len()
            invariant
                i <= self.temp_cubemaps@.len(),
                forall|j: int| 0 <= j < i ==> #[trigger] self.temp_cubemaps@[j].0@ != id@,
            decreases self.temp_cubemaps@.len() - i,
        {
            if str_eq(self.temp_cubemaps[i].0.as_str(), id) {
                return Some(i);
            }
            i = i + 1;
        }
        None
    }
}


/// Some file among `files` names the face in slot `s`.
pub open spec fn names_face(files: Seq<Seq<char>>, s: int) -> bool {
    exists|t: int| 0 <= t < files.len() && #[trigger] face_slot(files[t]) == Some(s)
}

/// The files `files` name all six faces.
pub open spec fn names_all_faces(files: Seq<Seq<char>>) -> bool {
    forall|s: int| 0 <= s < 6 ==> #[trigger] names_face(files, s)
}

/// The faces and completion of the cubemap `id` in `m`, a cubemap not under
/// construction counting as one with no faces.
pub open spec fn cubemap_progress(m: ResourceManager, id: Seq<char>) -> (Seq<Seq<u8>>, bool) {
    match m.cubemap(id) {
        Some(c) => c,
        None => (Seq::new(6, |i: int| Seq::<u8>::empty()), false),
    }
}

/// A cubemap is made once, when its last face arrives: when the files
/// `files` with non-empty contents `contents` arrive one after the other for
/// the cubemap `id` that was not under construction (through
/// `receive_cubemap_face`, or `receive_cubemap_face_file_bytes` on the paths
/// `id/<file>`), the `j`-th arrival completes it exactly when the first `j + 1`
/// files name all six faces and the first `j` do not; arrivals after that are
/// refused, and arrivals before it are pending. Files that name no face
/// count for nothing, and a face may arrive more than once.
pub proof fn lemma_cubemap_completes_once(
    states: Seq<ResourceManager>,
    id: Seq<char>,
    files: Seq<Seq<char>>,
    contents: Seq<Seq<u8>>,
    receipts: Seq<FaceReceipt>,
)
    requires
        states.len() == files.len() + 1,
        contents.len() == files.len(),
        receipts.len() == files.len(),
        states[0].cubemap(id) is None,
        forall|j: int| 0 <= j < contents.len() ==> #[trigger] contents[j].len() > 0,
        forall|j: int|
            0 <= j < files.len() ==> #[trigger] states[j].face_received(
                &states[j + 1],
                id,
                files[j],
                contents[j],
                receipts[j],
            ),
    ensures
        forall|j: int|
            0 <= j < files.len() ==> {
                &&& (#[trigger] receipts[j] == FaceReceipt::Completed) == (names_all_faces(
                    files.take(j + 1),
                ) && !names_all_faces(files.take(j)))
                &&& (receipts[j] == FaceReceipt::AlreadyComplete) == names_all_faces(files.take(j))
            },
{
    lemma_cubemap_progress(states, id, files, contents, receipts, files.len() as int);
    assert forall|j: int| 0 <= j < files.len() implies {
        &&& (#[trigger] receipts[j] == FaceReceipt::Completed) == (names_all_faces(files.take(j + 1))
            && !names_all_faces(files.take(j)))
        &&& (receipts[j] == FaceReceipt::AlreadyComplete) == names_all_faces(files.take(j))
    } by {
        lemma_cubemap_progress(states, id, files, contents, receipts, j);
        lemma_cubemap_progress(states, id, files, contents, receipts, j + 1);
        assert(states[j].face_received(&states[j + 1], id, files[j], contents[j], receipts[j]));
        let c = cubemap_progress(states[j], id);
        if !c.1 {
            let faces = faces_after(c.0, files[j], contents[j]);
            assert(cubemap_progress(states[j + 1], id) == (faces, all_faces_present(faces)));
        }
    }
}

proof fn lemma_names_grow(files: Seq<Seq<char>>, j: int, s: int)
    requires
        0 <= j < files.len(),
    ensures
        names_face(files.take(j + 1), s) == (names_face(files.take(j), s) || face_slot(files[j]) == Some(s)),
{
    let a = files.take(j);
    let b = files.take(j + 1);
    if names_face(a, s) {
        let t = choose|t: int| 0 <= t < a.len() && #[trigger] face_slot(a[t]) == Some(s);
        assert(b[t] == a[t]);
    }
    if face_slot(files[j]) == Some(s) {
        assert(b[j] == files[j]);
    }
    if names_face(b, s) {
        let t = choose|t: int| 0 <= t < b.len() && #[trigger] face_slot(b[t]) == Some(s);
        if t < j {
            assert(a[t] == b[t]);
        }
    }
}

proof fn lemma_cubemap_progress(
    states: Seq<ResourceManager>,
    id: Seq<char>,
    files: Seq<Seq<char>>,
    contents: Seq<Seq<u8>>,
    receipts: Seq<FaceReceipt>,
    j: int,
)
    requires
        states.len() == files.len() + 1,
        contents.len() == files.len(),
        receipts.len() == files.len(),
        states[0].cubemap(id) is None,
        forall|j: int| 0 <= j < contents.len() ==> #[trigger] contents[j].len() > 0,
        forall|j: int|
            0 <= j < files.len() ==> #[trigger] states[j].face_received(
                &states[j + 1],
                id,
                files[j],
                contents[j],
                receipts[j],
            ),
        0 <= j <= files.len(),
    ensures
        ({
            let c = cubemap_progress(states[j], id);
            &&& c.0.len() == 6
            &&& c.1 == names_all_faces(files.take(j))
            &&& !c.1 ==> forall|s: int| 0 <= s < 6 ==> (#[trigger] c.0[s].len() > 0) == names_face(files.take(j), s)
        }),
        j < files.len() ==> receipts[j] == states[j].face_receipt(id, files[j], contents[j]),
    decreases j,
{
    if j > 0 {
        lemma_cubemap_progress(states, id, files, contents, receipts, j - 1);
        let k = j - 1;
        let c = cubemap_progress(states[k], id);
        assert(states[k].face_received(&states[k + 1], id, files[k], contents[k], receipts[k]));
        assert forall|s: int| 0 <= s < 6 implies #[trigger] names_face(files.take(j), s) == (names_face(files.take(k), s) || face_slot(files[k]) == Some(s)) by {
            lemma_names_grow(files, k, s);
        }
        if c.1 {
            assert forall|s: int| 0 <= s < 6 implies #[trigger] names_face(files.take(j), s) by {
                assert(names_face(files.take(k), s));
            }
        } else {
            let faces = faces_after(c.0, files[k], contents[k]);
            assert forall|s: int| 0 <= s < 6 implies (#[trigger] faces[s].len() > 0) == names_face(files.take(j), s) by {
                assert(names_face(files.take(k), s) == (c.0[s].len() > 0));
            }
            if names_all_faces(files.take(j)) {
                assert forall|s: int| 0 <= s < 6 implies #[trigger] faces[s].len() > 0 by {
                    assert(names_face(files.take(j), s));
                }
            } else {
                let s = choose|s: int| 0 <= s < 6 && !#[trigger] names_face(files.take(j), s);
                assert(!(faces[s].len() > 0));
            }
        }
    } else {
        assert forall|s: int| 0 <= s < 6 implies !#[trigger] names_face(files.take(0), s) by {}
        assert(!names_all_faces(files.take(0))) by {
            assert(!names_face(files.take(0), 0));
        }
    }
    if j < files.len() {
        assert(states[j].face_received(&states[j + 1], id, files[j], contents[j], receipts[j]));
    }
}

} // verus!
