pub mod text;
pub mod names;
pub mod model;
pub mod inventory;
pub mod terrain;
pub mod config;
pub mod store;
pub mod codec;
pub mod messages;
pub mod retry;
pub mod chunk;
pub mod terrain_chunk;
pub mod persistence;
pub mod survey;
pub mod chunk_window;
pub mod packets;
pub mod entities;
pub mod registry;
pub mod actions;
pub mod auth;
