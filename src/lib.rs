//! Vertex layouts, triangle meshes and the procedural shapes built on them,
//! with the parsers for the image and font-metric files that texture them.
pub mod layout;
pub mod mesh;
pub mod primitives;
pub mod image;
pub mod font;
