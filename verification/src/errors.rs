//! The error kinds of the engine and of its conversion contracts.
//!
//! Type and shape errors are local and surfaced to the immediate caller of a
//! conversion. Execution errors propagate upward through every dependent
//! read; no component silently swallows an execution error on a value it
//! read.

use vstd::prelude::*;
use crate::erased::Tag;

verus! {

/// An error of the engine or of a conversion contract.
#[derive(Debug)]
pub enum EngineError {
    /// An erased value's tag (or embedded type identifier) disagrees with
    /// the statically requested type at conversion or cell-read time.
    TypeMismatch { expected: Tag, actual: Tag },
    /// A conversion or resolution received an erased-value shape it does not
    /// recognize.
    UnknownVariant,
    /// The task body itself failed; the opaque payload is forwarded verbatim
    /// to every dependent that reads the task's output.
    TaskExecutionError(String),
    /// A task transitively depends on its own in-flight execution.
    CycleDetected,
}

/// The mathematical shape of an `EngineError`.
pub enum ErrorView {
    TypeMismatch { expected: Tag, actual: Tag },
    UnknownVariant,
    TaskExecutionError(Seq<char>),
    CycleDetected,
}

impl View for EngineError {
    type V = ErrorView;

    open spec fn view(&self) -> ErrorView {
        match self {
            EngineError::TypeMismatch { expected, actual } => ErrorView::TypeMismatch {
                expected: *expected,
                actual: *actual,
            },
            EngineError::UnknownVariant => ErrorView::UnknownVariant,
            EngineError::TaskExecutionError(msg) => ErrorView::TaskExecutionError(msg@),
            EngineError::CycleDetected => ErrorView::CycleDetected,
        }
    }
}

impl Clone for EngineError {
    /// A clone carries the same error, payload included.
    fn clone(&self) -> (r: Self)
        ensures
            r@ == self@,
    {
        match self {
            EngineError::TypeMismatch { expected, actual } => EngineError::TypeMismatch {
                expected: *expected,
                actual: *actual,
            },
            EngineError::UnknownVariant => EngineError::UnknownVariant,
            EngineError::TaskExecutionError(msg) => EngineError::TaskExecutionError(msg.clone()),
            EngineError::CycleDetected => EngineError::CycleDetected,
        }
    }
}

/// Structural equality of two errors: same kind, and for execution errors
/// the same payload.
pub fn eq_error(a: &EngineError, b: &EngineError) -> (r: bool)
    ensures
        r == (a@ == b@),
{
    match a {
        EngineError::TypeMismatch { expected: e1, actual: a1 } => match b {
            EngineError::TypeMismatch { expected: e2, actual: a2 } => e1 == e2 && a1 == a2,
            _ => false,
        },
        EngineError::UnknownVariant => match b {
            EngineError::UnknownVariant => true,
            _ => false,
        },
        EngineError::TaskExecutionError(m1) => match b {
            EngineError::TaskExecutionError(m2) => *m1 == *m2,
            _ => false,
        },
        EngineError::CycleDetected => match b {
            EngineError::CycleDetected => true,
            _ => false,
        },
    }
}

} // verus!
