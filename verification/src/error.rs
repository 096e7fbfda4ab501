//! What can go wrong while a postfix macro invocation is rewritten.

use vstd::prelude::*;

verus! {

/// Why the boundary scanner gave up on a sequence of tokens.
#[derive(Clone, Copy, Debug, PartialEq, Eq, Structural)]
pub enum ScanError {
    /// A `!` stands directly before punctuation, as in `!=`.
    BangBeforePunctuation,
    /// A punctuation character that no expression form known to the scanner
    /// contains.
    UnsupportedPunctuation(char),
    /// One of `&`, `*` and `-` stands behind a token that does not tell
    /// whether the operator is a prefix or an infix operator.
    AmbiguousOperator(char),
    /// A group without visible brackets would belong to the expression.
    UndelimitedGroup,
    /// A brace group stands behind a punctuation character other than `;`,
    /// `,` and `!`, as the body of a closure does.
    UnsupportedBeforeBlock(char),
    /// What stands before the condition of a brace group is punctuation, as
    /// in `if a == b { .. }` and `if let p = e { .. }`.
    UnsupportedBeforeCondition(char),
    /// What stands before the condition of a brace group is neither `if` nor
    /// `match` nor `else if`.
    UnsupportedBlockHead,
    /// An `else` or `else if` that no brace group precedes.
    MissingBlock,
}

/// Why a token sequence could not be rewritten.
#[derive(Clone, Copy, Debug, PartialEq, Eq, Structural)]
pub enum RewriteError {
    /// A postfix macro invocation with no expression before it.
    EmptyReceiver,
    /// Groups are nested more deeply than the limit allows.
    DepthExceeded,
    /// The boundary scanner failed on what precedes an invocation.
    Scan(ScanError),
}

} // verus!
