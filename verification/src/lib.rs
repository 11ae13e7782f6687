//! Fact-generation front end of a borrow-checker prototype.
//!
//! Given a small imperative program in a MIR-like surface syntax, the
//! emitter derives, for each control-flow-graph node, the origin-level
//! relations (accesses, clears, invalidations, subsets) that a
//! downstream Datalog-style analysis consumes.

use vstd::prelude::*;

pub mod ast;
pub mod emitter;
pub mod facts;
pub mod laws;
pub mod model;
pub mod render;
pub mod strutil;
