//! A chat hub that bridges QQ groups, a web chatroom and Minecraft servers.

pub mod adapters;
pub mod agent;
pub mod api;
pub mod codec;
pub mod config;
pub mod error;
pub mod json;
pub mod router;
pub mod service;
pub mod services;
pub mod state;
pub mod text;
