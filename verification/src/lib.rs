//! SightingDB: a database that counts sightings of values under namespaces.

pub mod attribute;
pub mod b64;
pub mod client;
pub mod db;
pub mod db_read;
pub mod db_write;
pub mod table;
pub mod text;
pub mod json;
pub mod regex_calls;
pub mod daemon;
