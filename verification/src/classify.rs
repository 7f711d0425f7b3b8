//! Classification of a group of runs as header or body text. The policy
//! itself is a collaborator outside this library: callers implement
//! `Classifier`, and the flow builder only records its verdict.

use vstd::prelude::*;
use crate::glyph::{GlyphRun, valid_indices, wf_runs};

verus! {

/// The two-valued verdict of the classification policy.
#[derive(Clone, Copy, Debug, PartialEq, Eq, Structural)]
pub enum Class {
    Header,
    Body,
}

/// A classification policy over a group of runs. The verdict must be a
/// function of the inputs, stated by `class_spec`.
pub trait Classifier: Sized {
    /// The verdict as a mathematical function of the run group.
    spec fn class_spec(&self, runs: Seq<GlyphRun>, indices: Seq<usize>) -> Class;

    /// Classify the runs selected by `indices`.
    fn classify(&self, runs: &Vec<GlyphRun>, indices: &Vec<usize>) -> (c: Class)
        requires
            wf_runs(runs@),
            valid_indices(indices@, runs@.len() as int),
        ensures
            c == self.class_spec(runs@, indices@),
    ;
}

/// A policy that classifies every group the same way.
pub struct FixedClassifier {
    pub header: bool,
}

impl Classifier for FixedClassifier {
    open spec fn class_spec(&self, runs: Seq<GlyphRun>, indices: Seq<usize>) -> Class {
        if self.header {
            Class::Header
        } else {
            Class::Body
        }
    }

    fn classify(&self, runs: &Vec<GlyphRun>, indices: &Vec<usize>) -> (c: Class) {
        if self.header {
            Class::Header
        } else {
            Class::Body
        }
    }
}

} // verus!
