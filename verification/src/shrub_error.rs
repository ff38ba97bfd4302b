//! The error a failed scan reports: a message and the line it arose on.

use vstd::prelude::*;

verus! {

/// The first lexical error a scan encountered. Scanning fails fast: the
/// first error aborts the scan and no partial token sequence is returned.
#[derive(Clone, Debug, PartialEq)]
pub struct SyntaxError {
    pub message: String,
    pub line_number: usize,
}

/// The mathematical value of a `SyntaxError`.
pub struct ErrorModel {
    pub message: Seq<char>,
    pub line: nat,
}

impl View for SyntaxError {
    type V = ErrorModel;

    open spec fn view(&self) -> ErrorModel {
        ErrorModel { message: self.message@, line: self.line_number as nat }
    }
}

} // verus!
