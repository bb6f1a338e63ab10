//! Verified core of the declarative CAD checking toolchain: the three-valued
//! check statuses and exit codes, the deterministic assembly solving order,
//! the provides ledger of semantic anchors, design patching, cache keys,
//! report formatting and command-line parsing.

pub mod status;
pub mod text;
pub mod cache;
pub mod digest;
pub mod patch;
pub mod check;
pub mod mcp;
pub mod cli;
pub mod topo;
pub mod assembly;
pub mod ledger;
pub mod report;
pub mod diff;
pub mod compile;
