//! Configuration of `import_granularity`: the chosen [`Style`], the
//! opt-in [`SelfMerge`] shape, and the three `respect_*` knobs that decide
//! which `use` statements may be merged with one another.
use vstd::prelude::*;

verus! {

/// Import-granularity style. The three values map one-to-one onto
/// rustfmt's unstable `imports_granularity` option (`Crate`, `Module`,
/// `Item`).
#[derive(Debug, Clone, Copy, PartialEq, Eq, Structural)]
pub enum Style {
    /// One `use` per crate root, every shared prefix collapsed into
    /// nested braces: `use std::{collections::HashMap, io::{Error, ErrorKind}};`.
    Crate,
    /// One `use` per leaf module: items from one module share a braced
    /// list, sibling modules sit on their own lines:
    /// `use std::collections::{BTreeMap, HashMap};`.
    Module,
    /// One `use` per leaf item: `use std::collections::BTreeMap;`.
    Item,
}

impl Default for Style {
    /// `module`, the shape that scales best as a `use` block grows.
    fn default() -> (s: Self)
        ensures
            s == Style::Module,
    {
        Style::Module
    }
}

/// Which single-statement shape a project picks for a name that is both
/// an item and a module.
#[derive(Debug, Clone, Copy, PartialEq, Eq, Structural)]
pub enum SelfMerge {
    /// `thing::{self, T}`: the sibling-split `{thing, thing::T}` is
    /// flagged.
    Fold,
    /// `{thing, thing::T}`: the `self`-fold `thing::{self, T}` is
    /// flagged.
    Split,
}

#[derive(Debug, Clone, Copy)]
pub struct Config {
    /// The style to enforce; `module` by default.
    pub style: Style,
    /// The one shape to require for a name that is both an item and a
    /// module; unset by default, which accepts both.
    pub self_merge: Option<SelfMerge>,
    /// Never merge `use` statements whose `#[cfg(...)]` /
    /// `#[cfg_attr(...)]` attributes differ. On by default.
    pub respect_cfg_blocks: bool,
    /// Never merge a `pub use` (or `pub(crate) use`, ...) with a plain
    /// `use`, or two re-exports of differing visibility. On by default.
    pub respect_visibility: bool,
    /// Never merge a `use` that carries its own doc comment into a
    /// neighbour. On by default.
    pub respect_doc_comments: bool,
}

impl Default for Config {
    fn default() -> (c: Self)
        ensures
            c.style == Style::Module,
            c.self_merge is None,
            c.respect_cfg_blocks,
            c.respect_visibility,
            c.respect_doc_comments,
    {
        Config {
            style: Style::default(),
            self_merge: None,
            respect_cfg_blocks: true,
            respect_visibility: true,
            respect_doc_comments: true,
        }
    }
}

} // verus!
