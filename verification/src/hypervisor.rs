//! The hypervisor's logic: package archive checks, container lifecycle
//! values, configuration defaults, engine request shaping, log line
//! splitting, host port selection and interactive boxes.

pub mod cache;
pub mod config;
pub mod container;
pub mod defaults;
pub mod docker;
pub mod engine;
pub mod globals;
pub mod image;
pub mod instant_box;
pub mod log;
pub mod package;
pub mod port;
