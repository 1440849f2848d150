pub mod cli;
pub mod text;
pub mod config;
pub mod installer;
pub mod environment;
pub mod executor;
pub mod enter;
