//! A verified core for moving tabular datasets between heterogeneous
//! storage backends.
//!
//! The library models the data-movement engine of such a system: locators
//! that address datasets and negotiate direct versus staged transfer paths,
//! a schema translator with a destination-table lifecycle policy, a format
//! codec that turns the generic delimited-text representation of rows into
//! the destination's binary bulk-load encoding (and back), and the
//! orchestration that threads a sequence of row streams into a destination
//! table one stream at a time.

pub mod binary_format;
pub mod destination;
pub mod error;
pub mod locator;
pub mod orchestrator;
pub mod pg_schema;
pub mod schema;
pub mod text_format;
pub mod values;
pub mod write_local;
