pub mod config;
pub mod error;
pub mod glob;
pub mod hello;
pub mod proxy;
pub mod session;
pub mod tls;
