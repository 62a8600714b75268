//! A minimal entity-component runtime: entities carry loosely typed
//! components, systems run over them in ordered pipeline stages, and
//! structural changes made while systems run are deferred through a
//! command buffer.

pub mod app;
pub mod bundle;
pub mod commands;
pub mod ecs;
pub mod entity;
pub mod fs;
pub mod laws;
pub mod layout;
pub mod model;
pub mod order;
pub mod order_laws;
pub mod query;
pub mod raster;
pub mod registry;
pub mod resources;
pub mod schedule;
pub mod store;
pub mod system;
pub mod text;
pub mod vector;
pub mod widgets;
pub mod window;

pub use app::{request_app_exit, App, AppExit};
pub use bundle::{Bundle, Single};
pub use commands::Commands;
pub use ecs::Ecs;
pub use entity::{Entity, TypeKey};
pub use fs::{Backend, MemBackend, Vfs};
pub use layout::Direction;
pub use model::{Command, World};
pub use query::{Everything, Filter, Query, Query2, With, Without};
pub use registry::{ComponentId, Registry, ResourceId};
pub use resources::Resources;
pub use schedule::{Schedules, Stage};
pub use system::System;
pub use vector::{BaseVector, Vector2i, Vector3i, Vector4i};
