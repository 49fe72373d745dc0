use vstd::prelude::*;

use futures::channel::oneshot::{Canceled, Receiver};

use crate::text::push_str;

verus! {

/// Declares `futures::channel::oneshot::Receiver`, the receiving half of a one-shot channel that
/// would carry a dispatched task's result; opaque to the proofs.
#[verifier::external_type_specification]
#[verifier::external_body]
#[verifier::reject_recursive_types(T)]
pub struct ExReceiver<T>(Receiver<T>);

/// Declares `futures::channel::oneshot::Canceled`, the error a receiver yields when its sender is
/// dropped; opaque, and named only because a receiver, as a future, resolves to it.
#[verifier::external_type_specification]
#[verifier::external_body]
pub struct ExCanceled(Canceled);

/// Error raised by a dispatcher.
#[derive(Debug)]
pub enum DispatchError {
    Generic(String),
}

/// A dispatcher that runs nothing: it accepts no tasks and has nothing to shut down.
#[derive(Debug)]
pub struct SyncDispatcher {}

impl SyncDispatcher {
    pub fn new() -> Self {
        Self {}
    }

    /// Refuses every task: no receiver is ever handed out.
    pub fn dispatch<F, R>(&self, _task: F) -> (res: Result<Receiver<R>, DispatchError>)
        ensures
            res matches Err(DispatchError::Generic(msg)) && msg@ == "dupa"@,
    {
        let mut msg = String::new();
        push_str(&mut msg, "dupa");
        assert(Seq::<char>::empty() + "dupa"@ == "dupa"@);
        Err(DispatchError::Generic(msg))
    }

    /// Shuts the dispatcher down; this always succeeds.
    pub fn shutdown(self) -> (res: Result<(), DispatchError>)
        ensures
            res is Ok,
    {
        Ok(())
    }
}

} // verus!
