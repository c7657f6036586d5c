//! The verified core of a reverse proxy for Minecraft servers.

pub mod api;
pub mod callback_future;
pub mod client;
pub mod domain;
pub mod laws;
pub mod message;
pub mod minecraft;
pub mod netty;
pub mod parse;
pub mod proxy;
pub mod queue;
pub mod router;
pub mod table;
pub mod text;
pub mod tls;
pub mod wire;
