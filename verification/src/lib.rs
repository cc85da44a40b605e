//! A plan engine for bulk folder relocation: declarative matching rules,
//! destination templates, conflict resolution, plan validation, and a
//! journaled undo analysis.

use vstd::prelude::*;

pub mod error;
pub mod frontend;
pub mod journal;
pub mod manager;
pub mod matcher;
pub mod normalize;
pub mod num;
pub mod codec;
pub mod config;
pub mod path;
pub mod pattern;
pub mod plan;
pub mod planner;
pub mod resolver;
pub mod rule;
pub mod scanner;
pub mod template;
pub mod undo;
pub mod validator;
pub mod text;

verus! {

/// True when `path` is longer than the legacy path-length limit.
pub fn exceeds_long_path_limit(len: usize) -> (r: bool)
    ensures
        r == (len > 260),
{
    len > 260
}

} // verus!
