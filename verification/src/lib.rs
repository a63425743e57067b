use vstd::prelude::*;

pub mod cli;
pub mod client;
pub mod download;
pub mod edition;
pub mod hashes;
pub mod page;
pub mod pattern;
pub mod service;
pub mod text;
pub mod types;
