//! The container of persistent state: one store per entity kind.
pub mod types;
