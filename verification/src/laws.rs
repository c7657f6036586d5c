//! What the operations are for, in elementary terms: bytes and characters at
//! their places, sums of digits, and texts put together, with as few
//! definitions in between as possible.

pub mod api;
pub mod client;
pub mod domain;
pub mod message;
pub mod minecraft;
pub mod netty;
pub mod proxy;
pub mod router;
pub mod text;
pub mod tls;
