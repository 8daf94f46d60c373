//! The interactive client: its own small attribute database, and the
//! reading of the commands typed at its prompt.

pub mod attribute;
pub mod command;
pub mod db;
