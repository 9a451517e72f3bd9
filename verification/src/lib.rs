//! Song battles: brackets of songs decided by chat votes.

pub mod battle;
pub mod bracket;
pub mod clock;
pub mod codec;
pub mod error;
pub mod handlers;
pub mod json;
pub mod kick;
pub mod media;
pub mod oauth;
pub mod sim;
pub mod snapshot;
pub mod song;
pub mod state;
pub mod store;
pub mod submit;
pub mod text;
pub mod timer;
pub mod vote;
