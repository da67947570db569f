pub mod domain;
pub mod ipv4;
pub mod probe;
pub mod provider;
pub mod schedule;
