//! An in-memory product service: a record store whose ids are slots of a
//! slab that are reused after deletion, and a router that maps a request's
//! method and path onto one store operation and a response.

pub mod store;
pub mod text;
pub mod route;
pub mod handler;
pub mod laws;
