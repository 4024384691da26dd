//! A small HTTP/1.x server library: request parsing, routing, response
//! rendering and the decisions of the connection handler.
pub mod connection;
pub mod handler;
pub mod request;
pub mod response;
pub mod server;
pub mod strmap;
pub mod text;

pub use handler::{Request, Response};
pub use server::Server;
