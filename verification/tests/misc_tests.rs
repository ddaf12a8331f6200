//! Tests for the selector data types and the progress wrapper.

use cid_index::download::FetchProgress;
use cid_index::selector::{Condition, RecursionLimit};

/// Decrementing a depth budget lowers it; an unbounded limit is kept.
#[test]
fn recursion_limit_decrement() {
    let mut limit = RecursionLimit::Depth(5);
    limit.sub_assign(1);
    assert_eq!(limit, RecursionLimit::Depth(4));
    limit.sub_assign(4);
    assert_eq!(limit, RecursionLimit::Depth(0));
    let mut unbounded = RecursionLimit::Unbounded;
    unbounded.sub_assign(7);
    assert_eq!(unbounded, RecursionLimit::Unbounded);
}

/// Condition tags compare by variant.
#[test]
fn condition_tags_compare() {
    assert_eq!(Condition::IsLink, Condition::IsLink);
    assert_ne!(Condition::And, Condition::Or);
    assert_ne!(Condition::HasField, Condition::HasValue);
    assert_ne!(Condition::GreaterThan, Condition::LessThan);
    assert_ne!(Condition::HasKind, Condition::IsLink);
}

/// Finishing the progress wrapper completes the bar without touching the
/// wrapped reader.
#[test]
fn progress_finish_runs() {
    let payload = vec![1u8, 2, 3];
    let mut progress = FetchProgress::new(payload, 3);
    progress.finish();
    assert_eq!(progress.inner, vec![1u8, 2, 3]);
}
