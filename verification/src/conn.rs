//! The connection.

pub mod client;
pub mod common_state;
pub mod engine;
pub mod handles;
pub mod laws;
pub mod messages;
pub mod model;
pub mod reading;
pub mod record_layer;
pub mod state;
pub mod traffic;
pub mod trial;
pub mod trying;
pub mod unbuffered;
pub mod writing;
