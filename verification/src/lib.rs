pub mod cli;
pub mod config;
pub mod exec;
pub mod handler;
pub mod quoting;
pub mod recording;
pub mod remote;
pub mod session;
pub mod store;
pub mod text;
pub mod web;
