use vstd::prelude::*;

pub mod audio;
pub mod client;
pub mod json;
pub mod order;
pub mod paths;
pub mod parakeet;
pub mod platform;
pub mod proto;
pub mod server;
pub mod text;
pub mod toml_doc;
