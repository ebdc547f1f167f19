pub mod auth;
pub mod cli;
pub mod config;
pub mod context;
pub mod grpc;
pub mod log;
pub mod metrics;
pub mod policy;
pub mod proxy;
pub mod security;
pub mod text;
pub mod threat;
pub mod wasm;
