//! Reassembly of a streamed chat completion: server-sent event frames are
//! cleaned, stitched back into whole JSON chunks, decoded and their text
//! tokens gathered in arrival order.

pub mod client;
pub mod config;
pub mod decode;
pub mod file;
pub mod frame;
pub mod json;
pub mod laws;
pub mod loading;
pub mod logger;
pub mod models;
pub mod number;
pub mod stream;
pub mod text;
pub mod ui;
