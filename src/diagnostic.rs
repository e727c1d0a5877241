//! Diagnostics: a message and the span of query text it concerns.
use vstd::prelude::*;

use crate::tokenizer::Location;

verus! {

/// A failure found in query text.
#[derive(Debug)]
pub struct GQLError {
    pub message: String,
    pub location: Location,
}

/// A diagnostic as a mathematical value.
pub struct DiagnosticView {
    pub message: Seq<char>,
    pub location: Location,
}

impl View for GQLError {
    type V = DiagnosticView;

    open spec fn view(&self) -> DiagnosticView {
        DiagnosticView { message: self.message@, location: self.location }
    }
}

} // verus!
