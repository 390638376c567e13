//! Decoded-batch API: the wire codec, the mutation engine and the projection
//! engine.
pub mod deserialiser;
pub mod deserialiser_types;
pub mod dev_api;
pub mod key_api;
pub mod serial_api;
