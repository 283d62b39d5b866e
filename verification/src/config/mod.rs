//! Configuration.

pub mod jsonschema;
pub mod loader;
pub mod policy;
pub mod schema;
pub mod template;
