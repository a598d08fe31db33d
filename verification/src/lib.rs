//! Verified core of the Sinker resource synchronisation controller.

pub mod controller;
pub mod error;
pub mod filters;
pub mod json;
pub mod mapping;
pub mod metrics;
pub mod objects;
pub mod remote_watcher;
pub mod remote_watcher_manager;
pub mod resource_extensions;
pub mod resources;
pub mod text;
pub mod util;

pub use error::{AddToPathError, Error, KubeFailure};
