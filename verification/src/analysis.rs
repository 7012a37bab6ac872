//! The temperature analysis that selects the assembler's boundary terms.

use crate::error::Error;
use crate::fp::is_pos_finite;
use vstd::prelude::*;

verus! {

/// A type of temperature analysis.
#[derive(Clone, Copy, Debug, PartialEq, Eq, Structural)]
pub enum AnalysisType {
    /// The steady-state analysis.
    Steady,
    /// The transient analysis.
    Transient,
    /// An undefined analysis.
    Undefined,
}

/// A temperature analysis: the kind of boundary terms the matrix assembler
/// adds, and, for a transient analysis, the time step that scales the
/// capacitive diagonal term.
#[derive(Clone, Copy, Debug)]
pub struct Analysis {
    kind: AnalysisType,
    step_time: u64,
}

impl Analysis {
    /// The type of the analysis.
    pub closed spec fn spec_kind(&self) -> AnalysisType {
        self.kind
    }

    /// The time step, as the bit pattern of a double.  Meaningful only for a
    /// transient analysis.
    pub closed spec fn spec_step_time(&self) -> u64 {
        self.step_time
    }

    /// Build an analysis.  A transient analysis demands a step time that is
    /// a strictly positive finite double; the step time is ignored
    /// otherwise.
    pub fn new(kind: AnalysisType, step_time: u64) -> (r: Result<Analysis, Error>)
        ensures
            kind == AnalysisType::Transient && !is_pos_finite(step_time) <==> r
                == Err::<Analysis, Error>(Error::InvalidAnalysis),
            r matches Ok(a) ==> a.spec_kind() == kind && a.spec_step_time() == step_time,
            r is Ok || r == Err::<Analysis, Error>(Error::InvalidAnalysis),
    {
        if matches!(kind, AnalysisType::Transient) && !crate::fp::pos_finite(step_time) {
            Err(Error::InvalidAnalysis)
        } else {
            Ok(Analysis { kind, step_time })
        }
    }

    /// Return the type.
    pub fn kind(&self) -> (r: AnalysisType)
        ensures
            r == self.spec_kind(),
    {
        self.kind
    }

    /// Return the step time's bit pattern.
    pub fn step_time(&self) -> (r: u64)
        ensures
            r == self.spec_step_time(),
    {
        self.step_time
    }
}

} // verus!
