//! The API's logic: storage keys, validation of names, icons, runtime
//! fields and package uploads, package history pruning, deployment
//! records and the GitHub sign-in values.

pub mod apps;
pub mod auth;
pub mod config;
pub mod deployments;
pub mod packages;
pub mod services;
pub mod state;
