//! Game-server core: the world's tile chunks, the chunk store, the entity
//! components and the decisions of the server's systems, with their contracts.

pub mod world;
pub mod common;
pub mod ecs;
pub mod event;
pub mod objects;
pub mod text;
pub mod types;
