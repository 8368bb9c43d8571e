//! Runtime core of a 3D scene editor: a scene graph held in an arena, the
//! components attached to its objects, the transform stack that a render
//! traversal maintains, and a cache that shares loaded assets by location.

pub mod assets;
pub mod component;
pub mod document;
pub mod framebuffer;
pub mod graph;
pub mod identity;
pub mod mesh_filter;
pub mod model;
pub mod render;
pub mod scene;
pub mod text;
pub mod transform;
pub mod traversal;
pub mod tree;
