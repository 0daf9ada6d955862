//! HTTP control layer for a remote playback session controller: the
//! track identifier codec, the route table, the request handlers and the
//! cross-origin headers that every response carries.

pub mod codec;
pub mod error;
pub mod handler;
pub mod http;
pub mod json;
pub mod router;
