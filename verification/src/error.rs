//! The ways in which catalog text can fail to be read.

use vstd::prelude::*;

verus! {

/// Why a piece of catalog text was refused.
#[derive(Debug, Clone, Copy, PartialEq, Eq, Structural)]
pub enum BulletinError {
    /// The text is no course identifier: it has no separator, nothing after
    /// the separator, or no number there.
    InvalidIdentifier,
    /// A closing brace stands where no brace is open.
    UnmatchedBrace,
    /// A college, campus or attribute name that the fixed tables do not hold.
    UnknownTaxonomyValue,
}

} // verus!
