//! A schema-aware embedded document store: the catalog of resources and
//! indices, the typed key layout, the insert pipeline, the scanner and the
//! bulk loader, stated as verified decisions over a transactional
//! key-value engine that the caller drives.
pub mod errors;
pub mod codec;
pub mod double;
pub mod json;
pub mod text;
pub mod conf;
pub mod schema;
pub mod index;
pub mod barrel;
pub mod barn;
pub mod scan;
pub mod loader;
