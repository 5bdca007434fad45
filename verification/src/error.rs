//! Failed operations, and what they mean to an iterator.
use vstd::prelude::*;

verus! {

/// The kinds of failure that are told apart.
#[derive(Clone, Copy, Debug, PartialEq, Eq, Structural)]
pub enum ErrorKind {
    /// The operation would have had to wait.
    WouldBlock,
    /// The platform does not support the operation.
    Unsupported,
    /// Anything else.
    Other,
}

/// A failed operation.
#[derive(Debug)]
pub struct Error<E> {
    pub kind: ErrorKind,
    /// The failure as it was reported.
    pub source: E,
}

/// What an iterator over a non-blocking source yields when reading from the source gave `result`:
/// nothing if it would have had to wait, and `result` otherwise.
pub open spec fn item_of<T, E>(result: Result<T, Error<E>>) -> Option<Result<T, Error<E>>> {
    match result {
        Ok(item) => Some(Ok(item)),
        Err(error) => if error.kind == ErrorKind::WouldBlock {
            None
        } else {
            Some(Err(error))
        },
    }
}

/// Returns what an iterator over a non-blocking source yields.
pub fn next_item<T, E>(result: Result<T, Error<E>>) -> (item: Option<Result<T, Error<E>>>)
    ensures
        item == item_of(result),
{
    match result {
        Ok(item) => Some(Ok(item)),
        Err(error) => if error.kind == ErrorKind::WouldBlock {
            None
        } else {
            Some(Err(error))
        },
    }
}

/// Returns the outcome of an operation that had to be undone afterwards: its own failure, if it
/// failed, and else the outcome of undoing it.
pub fn first_failure<E>(failure: Option<E>, undone: Result<(), E>) -> (result: Result<(), E>)
    ensures
        match failure {
            Some(error) => result == Err::<(), E>(error),
            None => result == undone,
        },
{
    match failure {
        Some(error) => Err(error),
        None => undone,
    }
}

/// An iterator ends if and only if it would have had to wait. Otherwise it yields what reading gave,
/// success or failure, as it is.
pub proof fn only_waiting_ends_an_iteration<T, E>(result: Result<T, Error<E>>)
    ensures
        item_of(result) is None <==> result is Err && result->Err_0.kind == ErrorKind::WouldBlock,
        item_of(result) is Some ==> item_of(result) == Some(result),
{
}

} // verus!
