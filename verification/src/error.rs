//! Errors that the engine's fallible operations return.

use vstd::prelude::*;

verus! {

/// Why an operation failed.
///
/// `NotFound`: a pack name mentioned by a reference or a baseline violation
/// does not exist in the pack set; this signals baseline or configuration
/// drift and is never silently skipped.
/// `UnroutableViolationType`: a baseline entry's violation type matches no
/// registered checker.
/// `ValidationFailure`: structural validators produced messages.
/// `UnnecessaryDependencies`: declared dependency edges were never used;
/// the lines name each unused edge.
#[derive(Debug)]
pub enum PackError {
    NotFound { pack_name: String },
    UnroutableViolationType { violation_type: String },
    ValidationFailure { messages: Vec<String> },
    UnnecessaryDependencies { messages: Vec<String> },
}

/// The mathematical content of a `PackError`.
pub ghost enum PackErrorView {
    NotFound { pack_name: Seq<char> },
    UnroutableViolationType { violation_type: Seq<char> },
    ValidationFailure { messages: Seq<Seq<char>> },
    UnnecessaryDependencies { messages: Seq<Seq<char>> },
}

impl View for PackError {
    type V = PackErrorView;

    open spec fn view(&self) -> PackErrorView {
        match self {
            PackError::NotFound { pack_name } => PackErrorView::NotFound { pack_name: pack_name@ },
            PackError::UnroutableViolationType { violation_type } => PackErrorView::UnroutableViolationType {
                violation_type: violation_type@,
            },
            PackError::ValidationFailure { messages } => PackErrorView::ValidationFailure {
                messages: messages.deep_view(),
            },
            PackError::UnnecessaryDependencies { messages } => PackErrorView::UnnecessaryDependencies {
                messages: messages.deep_view(),
            },
        }
    }
}

impl PackError {
    pub fn duplicate(&self) -> (r: PackError)
        ensures
            r@ == self@,
    {
        let r = match self {
            PackError::NotFound { pack_name } => PackError::NotFound {
                pack_name: crate::strings::dup_string(pack_name),
            },
            PackError::UnroutableViolationType { violation_type } => PackError::UnroutableViolationType {
                violation_type: crate::strings::dup_string(violation_type),
            },
            PackError::ValidationFailure { messages } => PackError::ValidationFailure {
                messages: crate::strings::dup_strings(messages),
            },
            PackError::UnnecessaryDependencies { messages } => PackError::UnnecessaryDependencies {
                messages: crate::strings::dup_strings(messages),
            },
        };
        proof {
            assert(r@ =~~= self@);
        }
        r
    }
}

} // verus!
