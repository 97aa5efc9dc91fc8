//! Source-level diagnostics reported by the character scanner.

use vstd::prelude::*;

verus! {

/// A position in the source text, counted in lines and columns from zero.
#[derive(Debug)]
pub struct ErrorLocation {
    pub line: usize,
    pub column: usize,
}

/// A fault found while scanning the source text into tokens.
#[derive(Debug)]
pub enum SyntaxError {
    /// A character that cannot start any token, at the given position.
    UnknownStartOfToken(ErrorLocation, char),
}

/// The mathematical value of an [`ErrorLocation`].
pub struct ErrorLocationView {
    pub line: nat,
    pub column: nat,
}

/// The mathematical value of a [`SyntaxError`].
pub enum SyntaxErrorView {
    UnknownStartOfToken(ErrorLocationView, char),
}

impl DeepView for ErrorLocation {
    type V = ErrorLocationView;

    open spec fn deep_view(&self) -> ErrorLocationView {
        ErrorLocationView { line: self.line as nat, column: self.column as nat }
    }
}

impl DeepView for SyntaxError {
    type V = SyntaxErrorView;

    open spec fn deep_view(&self) -> SyntaxErrorView {
        match self {
            SyntaxError::UnknownStartOfToken(loc, c) => SyntaxErrorView::UnknownStartOfToken(
                loc.deep_view(),
                *c,
            ),
        }
    }
}

} // verus!
