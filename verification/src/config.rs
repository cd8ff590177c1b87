//! Settings and dictionary locations.
pub mod dictionary;
pub mod settings;
