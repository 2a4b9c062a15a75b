//! `import_grouping_mismatch`: one run of adjacent `use` statements,
//! each given a group rank, must be laid out as its configured style
//! asks, with `pub` re-exports optionally pulled into leading blocks of
//! their own.
pub mod config;
pub mod check;
pub mod render;
pub mod classify;
