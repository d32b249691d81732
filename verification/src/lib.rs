//! Static analysis of compiled binary images.
//!
//! Two independent pipelines share one parsed image:
//! reconstruction of an approximate call graph from decoded machine
//! instructions, and a simulation of how a dynamic linker would resolve the
//! image's undefined runtime symbols against candidate shared libraries.
//! Both are heuristic, best-effort analyses: they never claim soundness.

pub mod analysis;
pub mod boundaries;
pub mod callgraph;
pub mod calltree;
pub mod decoder;
pub mod elfdyn;
pub mod filetype;
pub mod image;
pub mod libdeps;
pub mod loader;
pub mod render;
pub mod setup;
pub mod strutil;
pub mod style;
pub mod symmatch;

use vstd::prelude::*;

verus! {

/// Errors of the two analysis pipelines.  Each aborts only the pipeline it
/// arises in, never the surrounding process.
#[derive(Clone, Copy, PartialEq, Eq, Structural, Debug)]
pub enum AnalysisError {
    /// The container magic or header is unrecognized or truncated.
    FormatError,
    /// No executable code section was found (fatal for the call-tree path only).
    SectionMissing,
    /// No traversal root could be resolved (fatal for the call-tree path only).
    RootNotFound,
}

impl AnalysisError {
    /// A short, fixed description of the error.
    pub fn describe(&self) -> (r: &'static str)
        ensures
            *self is FormatError ==> r@ == "unrecognized or truncated binary container"@,
            *self is SectionMissing ==> r@ == "no executable code section found"@,
            *self is RootNotFound ==> r@ == "no call-tree root could be resolved"@,
    {
        match self {
            AnalysisError::FormatError => "unrecognized or truncated binary container",
            AnalysisError::SectionMissing => "no executable code section found",
            AnalysisError::RootNotFound => "no call-tree root could be resolved",
        }
    }
}

} // verus!
