//! Durable record keeping for patients, doctors, rooms and auctions: an id
//! counter, a keyed collection per kind of record, each in a partition of
//! its own, and the services that validate, create, read, update and delete
//! records.
pub mod codec;
pub mod records;
pub mod store;
pub mod service;
pub mod laws;
