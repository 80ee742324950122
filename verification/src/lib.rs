//! Transport URI parsing, command-line flag handling and identity
//! front-matter extraction for holons.

pub mod decimal;
pub mod identity;
pub mod laws;
pub mod serve;
pub mod text;
pub mod transport;
