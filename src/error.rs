use vstd::prelude::*;

verus! {

/// Failures of the flow engine. Both are local and recoverable, and neither
/// changes the engine's state.
#[derive(Debug, Clone, Copy, PartialEq, Eq, Structural)]
pub enum FlowNetError {
    /// The tensor's shape does not match the engine's channel count.
    InvalidDimensions,
    /// An operation was attempted before the model was loaded.
    ModelNotLoaded,
}

/// Status reported at the boundary when a call succeeded.
pub const STATUS_OK: i32 = 0;

/// Status reported at the boundary for a null or otherwise invalid pointer.
pub const STATUS_INVALID_POINTER: i32 = -1;

pub open spec fn status_of(e: FlowNetError) -> int {
    match e {
        FlowNetError::InvalidDimensions => -2,
        FlowNetError::ModelNotLoaded => -3,
    }
}

impl FlowNetError {
    /// The negative status code that reports this error at the boundary.
    pub fn status_code(&self) -> (r: i32)
        ensures
            r == status_of(*self),
            r < 0,
            r != STATUS_INVALID_POINTER,
    {
        match self {
            FlowNetError::InvalidDimensions => -2,
            FlowNetError::ModelNotLoaded => -3,
        }
    }
}

} // verus!
