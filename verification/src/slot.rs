use vstd::prelude::*;

verus! {

/// Lifecycle tag of a slot.
///
/// A slot arrives `Pending`, is `Busy` for the whole of an invocation and ends
/// up `Used`. `Empty` marks a vacated slot that holds no meaningful callable
/// and is eligible for overwrite.
#[derive(Clone, Copy, PartialEq, Eq, Structural, Debug)]
pub enum Status {
    Pending,
    Busy,
    Used,
    Empty,
}

/// A deferred, no-argument, no-return action supplied by the caller.
///
/// The registry never inspects the action; it only decides, from the slot's
/// status, whether to run it.
pub trait Callable {
    fn call(&self);
}

/// What a slot holds: a caller-supplied action, or the no-op that `rem`
/// leaves behind so that a vacated slot stays harmless to run.
pub enum Callback {
    NoOp,
    User(Box<dyn Callable>),
}

/// One schedulable unit: a stored callable plus its lifecycle status.
pub struct Slot {
    pub closure: Callback,
    pub used: Status,
}

impl Slot {
    /// Wraps a callable; every freshly built slot starts out `Pending`.
    pub fn new(func: Box<dyn Callable>) -> (s: Slot)
        ensures
            s.closure == Callback::User(func),
            s.used == Status::Pending,
    {
        Slot { closure: Callback::User(func), used: Status::Pending }
    }

    /// Runs the stored callable once, directly, bypassing the manager's
    /// status checks; the no-op callback does nothing.
    pub fn invoke(&self) {
        match &self.closure {
            Callback::NoOp => {
            },
            Callback::User(f) => {
                f.call();
            },
        }
    }
}

} // verus!
