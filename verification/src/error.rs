use vstd::prelude::*;

verus! {

/// Everything that an operation of the pipeline, of the attribute store or of
/// the lifecycle controller can refuse with.
#[derive(Clone, Copy, Debug, PartialEq, Eq, Structural)]
pub enum PipelineError {
    /// Unknown stage name, unknown payload id or missing batch member.
    NotFound,
    /// The kinds of the stages involved do not fit the operation.
    WrongStageKind,
    /// The payload is a frame where a batch was asked for, or the reverse.
    WrongPayload,
    /// Two stages share a name.
    DuplicateStage,
    /// The stage already holds a payload under that id.
    DuplicateId,
    /// A value that can be set once was set before.
    AlreadySet,
    /// A glob pattern does not compile.
    InvalidPattern,
    /// A movement was asked for without any id.
    EmptyIds,
    /// The ids of one movement live in different stages.
    MixedStages,
    /// The destination does not come after the source in the stage order.
    ForwardOnlyViolation,
    /// The id counter or the frame counter cannot be advanced any further.
    CounterExhausted,
    /// The number is not a signal of this platform.
    InvalidSignal,
}

impl PipelineError {
    /// A short text for the error, for callers that report it.
    pub fn message(&self) -> (r: &'static str)
        ensures
            r@ == self.message_text(),
    {
        match self {
            PipelineError::NotFound => "not found",
            PipelineError::WrongStageKind => "wrong stage kind",
            PipelineError::WrongPayload => "wrong payload",
            PipelineError::DuplicateStage => "duplicate stage",
            PipelineError::DuplicateId => "duplicate id",
            PipelineError::AlreadySet => "already set",
            PipelineError::InvalidPattern => "invalid pattern",
            PipelineError::EmptyIds => "empty ids",
            PipelineError::MixedStages => "mixed stages",
            PipelineError::ForwardOnlyViolation => "forward only violation",
            PipelineError::CounterExhausted => "counter exhausted",
            PipelineError::InvalidSignal => "invalid signal",
        }
    }

    /// The text that [`PipelineError::message`] returns.
    pub open spec fn message_text(&self) -> Seq<char> {
        match self {
            PipelineError::NotFound => "not found"@,
            PipelineError::WrongStageKind => "wrong stage kind"@,
            PipelineError::WrongPayload => "wrong payload"@,
            PipelineError::DuplicateStage => "duplicate stage"@,
            PipelineError::DuplicateId => "duplicate id"@,
            PipelineError::AlreadySet => "already set"@,
            PipelineError::InvalidPattern => "invalid pattern"@,
            PipelineError::EmptyIds => "empty ids"@,
            PipelineError::MixedStages => "mixed stages"@,
            PipelineError::ForwardOnlyViolation => "forward only violation"@,
            PipelineError::CounterExhausted => "counter exhausted"@,
            PipelineError::InvalidSignal => "invalid signal"@,
        }
    }
}

} // verus!
