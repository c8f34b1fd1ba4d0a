//! Rules: what is forwarded, how commands are answered, who came and went.

pub mod commands;
pub mod forwarder;
pub mod status_render;
pub mod player_events;
pub mod player_tracker;
