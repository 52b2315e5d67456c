use vstd::prelude::*;

verus! {

/// Why no report can be made.
#[derive(Debug, Clone, Copy, PartialEq, Eq, Structural)]
pub enum ReportError {
    /// The input has neither of the two known shapes.
    FormatParseError,
    /// A filter pattern is not a regular expression that can be compiled.
    InvalidPattern,
    /// Header and footer together ask for more lines than the template has.
    LineRangeError,
}

} // verus!
