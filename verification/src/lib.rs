//! The settings of a stress run: reading them from a command line, reporting them,
//! planning the schema, and deciding whether the run measures the consistency that it
//! claims to measure.

pub mod consistency;
pub mod consistency_laws;
pub mod datacenters;
pub mod grouping;
pub mod grouping_laws;
pub mod parse;
pub mod parse_laws;
pub mod payload;
pub mod repair;
pub mod repair_laws;
pub mod settings;
pub mod text;
pub mod text_laws;
