//! Native-execution backend orchestration for a configuration-language
//! toolchain: per-package object assembly with an on-disk cache, linking of
//! the reachable objects into one loadable unit, deadline-bounded execution
//! of that unit, and a diagnostic session that funnels every failure kind
//! into one ordered stream.
//!
//! Lowering a package to machine code, linking, loading and invoking native
//! code are outside work performed by the surrounding program; this crate
//! holds and verifies the orchestration: which paths are built, what the
//! cache reuses, which files every exit path removes, and how failures are
//! reported.

pub mod assembler;
pub mod datapaths;
pub mod diag;
pub mod engine;
pub mod errors;
pub mod fsmodel;
pub mod linker;
pub mod program;
pub mod runner;
pub mod strutil;

use vstd::prelude::*;

verus! {

/// The reserved package path of the entry package: the one package that is
/// always rebuilt at a caller-supplied location and never cached.
pub fn main_pkg_name() -> (r: &'static str)
    ensures
        r@ == "__main__"@,
{
    "__main__"
}

} // verus!
