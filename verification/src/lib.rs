pub mod bytes;
pub mod cache;
pub mod codec;
pub mod config;
pub mod dispatch;
pub mod effects;
pub mod error;
pub mod event;
pub mod key;
pub mod laws;
pub mod memory;
pub mod model;
pub mod plan;
pub mod record;
pub mod repeat;
pub mod run;
pub mod second;
pub mod store;
pub mod twice;
pub mod wire;

pub use crate::cache::{InRedisCache, UpdateCache};
pub use crate::config::{Config, ResourceKind, ResourceType};
pub use crate::dispatch::Event;
pub use crate::error::CacheError;
pub use crate::model::GuildResource;
