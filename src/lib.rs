//! A verified entity-component-system core: generational entity handles,
//! sparse per-type component storage, and query sessions that list, in
//! ascending index order, the entities holding a set of component types,
//! guarded by one borrow permit per type.
//!
//! Beside it stand the small integer vector and rectangle math, window
//! settings and the best-first path search that code built on the core
//! uses.

pub mod entity;
pub mod laws;
pub mod query;
pub mod storage;
pub mod world;

pub mod astar;
pub mod rect;
pub mod rendering;
pub mod vec2;
pub mod vec3;
pub mod window;

pub use entity::{Entity, EntityAllocator};
pub use query::{ComponentId, Query};
pub use rect::Rect;
pub use rendering::{TextureFiltering, VertexAttributeType};
pub use storage::ComponentStorage;
pub use vec2::Vec2;
pub use vec3::Vec3;
pub use window::WindowSettings;
pub use world::{EcsError, EntityEntry, World};
