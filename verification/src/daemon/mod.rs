//! The sighting daemon: attributes with timestamps and hourly statistics,
//! the namespaced database, the reader and writer, and the web answers.

pub mod attribute;
pub mod db;
pub mod sighting_reader;
pub mod sighting_writer;
pub mod server;
pub mod stats;
