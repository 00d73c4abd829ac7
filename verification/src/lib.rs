pub mod config;
pub mod digits;
pub mod dns_client;
pub mod error;
pub mod message;
pub mod notifier;
pub mod pipeline;
pub mod scheduler;
