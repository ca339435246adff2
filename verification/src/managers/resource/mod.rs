pub mod cubemap;
pub mod material;
pub mod mesh;
pub mod orientation;
pub mod registry;
pub mod requests;
pub mod shaders;
pub mod texture;
pub mod topology;
