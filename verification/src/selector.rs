//! Plain data carried by IPLD selectors.
//!
//! The selector expression tree and its evaluator live with the consumer of
//! this library; the two value types here are the pieces of that tree that
//! are plain data: the recursion bound and the condition tag.

use vstd::prelude::*;

verus! {

/// A bound on recursive exploration.
#[derive(Clone, Copy, Debug, PartialEq, Eq, Structural, Hash)]
pub enum RecursionLimit {
    /// No bound; the library evaluating the selector must pick a safe
    /// maximum depth so that recursion is not infinite.
    Unbounded,
    /// At most this many further recursion steps.
    Depth(u64),
}

impl RecursionLimit {
    /// Decrements a depth budget in place; an unbounded limit is left as it
    /// is.
    pub fn sub_assign(&mut self, other: u64)
        requires
            *old(self) matches RecursionLimit::Depth(d) ==> other <= d,
        ensures
            *final(self) == (match *old(self) {
                RecursionLimit::Depth(d) => RecursionLimit::Depth((d - other) as u64),
                RecursionLimit::Unbounded => RecursionLimit::Unbounded,
            }),
    {
        if let RecursionLimit::Depth(v) = self {
            *v = *v - other;
        }
    }
}

/// A predicate tag with a boolean result, used by selectors to decide
/// whether a node is selected or exploration halts.
#[derive(Clone, Copy, Debug, PartialEq, Eq, Structural, Hash)]
pub enum Condition {
    /// The node has a given field.
    HasField,
    /// The node has a given value.
    HasValue,
    /// The node has a given kind.
    HasKind,
    /// The node is a link.
    IsLink,
    /// The node's value exceeds a bound.
    GreaterThan,
    /// The node's value is below a bound.
    LessThan,
    /// Both nested conditions hold.
    And,
    /// At least one nested condition holds.
    Or,
}

} // verus!
