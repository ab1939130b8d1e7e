pub mod ciphers;
pub mod error;
pub mod json;
pub mod models;
pub mod sync;
