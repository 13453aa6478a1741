//! Operations that a reactor keeps for later, and the outcomes of system calls.

use vstd::prelude::*;

verus! {

/// Why a system call failed, as far as the reactors tell failures apart.
#[derive(Clone, Copy, Debug, PartialEq, Eq, Structural)]
pub enum IoError {
    /// The call would have to wait: the descriptor is not ready.
    WouldBlock,
    /// A connection attempt has been started and goes on in the background.
    InProgress,
    /// Any other failure, with its error number.
    Os(i32),
}

/// A piece of user code that a reactor is asked to run, bound to what it is run with.
///
/// `T` is the user's own callback type; the reactors move it around and never look inside.
#[derive(Debug)]
pub enum UserOperation<T> {
    /// Run the callback.
    Call(T),
    /// Hand the outcome of a finished transfer to the callback.
    Complete(T, Result<usize, IoError>),
    /// Start the transfer of the callback again: its descriptor has become ready.
    Retry(T),
}

/// An entry of a reactor's queue.
#[derive(Debug)]
pub enum Operation<T> {
    /// Some callback waits for a descriptor: the reactor has to be polled.
    Poll,
    /// User code to run.
    User(UserOperation<T>),
}

} // verus!
