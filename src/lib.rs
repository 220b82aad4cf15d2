//! A feature-flag store: boolean flags keyed by environment and key, set and
//! listed through a service that keeps at most one flag per key in each environment.

pub mod domain;
pub mod guarantees;
pub mod http;
pub mod repository;
pub mod service;
