//! Verified front-end logic for NCD ("named compact data") stores: the
//! input sniffing, selection rules and configuration that stand between a
//! command line and the store builder and reader.

pub mod flat_config;
pub mod format;
pub mod numbers;
pub mod source_kind;
pub mod text;
pub mod utf8;
