//! Reconstructs partially known words by matching masked patterns against a
//! dictionary, case-insensitively and in dictionary order.
pub mod dictionary;
pub mod laws;
pub mod matcher;
pub mod prompt;
pub mod resolver;
pub mod text;
