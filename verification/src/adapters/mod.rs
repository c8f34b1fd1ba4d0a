//! Protocol adapters: each knows one outside protocol and none of the others.

pub mod chatbridge;
pub mod chatroom_auth;
pub mod forward_api;
pub mod chatroom_read;
pub mod onebot;
