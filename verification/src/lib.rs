pub mod ecs;

pub use ecs::ComponentRegistry;
