//! The handful of `std::task` items that pass through the library.
//!
//! A poll receives the task's [`Context`] and hands it on to the voting round and to the commit
//! timer; a background round keeps the task's [`Waker`] so that a change made between two polls
//! can ask for the next one. Nothing here is proved: the types are opaque and the three
//! functions are taken from `std` as they are.

use std::task::Context;
use std::task::Poll;
use std::task::Waker;
use vstd::prelude::*;

verus! {

/// `std::task::Context`, carried through to whatever is polled.
#[verifier::external_type_specification]
#[verifier::external_body]
pub struct ExContext<'a>(Context<'a>);

/// `std::task::Waker`, the handle by which a suspended task is resumed.
#[verifier::external_type_specification]
#[verifier::external_body]
pub struct ExWaker(Waker);

/// `std::task::Poll`, with its two variants `Ready` and `Pending`.
#[verifier::external_type_specification]
#[verifier::reject_recursive_types(T)]
pub struct ExPoll<T>(Poll<T>);

/// `Context::waker` lends the waker of the task that is being polled. Nothing is claimed of it.
pub assume_specification<'a, 'b>[ Context::<'a>::waker ](cx: &'b Context<'a>) -> (waker: &'a Waker);

/// `Waker::clone` makes another handle for the same task. Nothing is claimed of it.
pub assume_specification[ <Waker as Clone>::clone ](waker: &Waker) -> (copy: Waker);

/// `Waker::wake_by_ref` asks the executor to poll the task again. It returns nothing and
/// nothing is claimed of it.
pub assume_specification[ Waker::wake_by_ref ](waker: &Waker);

} // verus!
