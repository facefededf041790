//! Client-side engine for a pipelined, binary windowing-system protocol:
//! the wire codec, the request builder, the extension registry, the cookie
//! table and the read-side dispatcher, together with the shared-memory
//! extension's messages and the identifier helpers of the code generator.

pub mod wire;
pub mod request;
pub mod utils;
pub mod xproto;
pub mod shm;
pub mod extension;
pub mod cookie;
pub mod dispatch;
pub mod connection;
pub mod laws;
pub mod generator;
pub mod files;
