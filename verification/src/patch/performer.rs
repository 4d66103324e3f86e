//! The performer of a patch's file operations: a caller-supplied function,
//! with the list of the operations handed to it so far.

use crate::patch::session::{ActionView, FileAction};
use vstd::prelude::*;

verus! {

/// Performs file operations with a caller-supplied function and keeps the
/// list of the operations performed.  The function can only be reached
/// through `perform`, so the list holds every operation handed to it.
pub struct Performer<F> {
    perform: F,
    performed: Ghost<Seq<ActionView>>,
}

impl<F: Fn(FileAction) -> Result<String, String>> Performer<F> {
    /// The operations performed so far, in order.
    pub closed spec fn log(&self) -> Seq<ActionView> {
        self.performed@
    }

    /// The function that performs the operations.
    pub closed spec fn function(&self) -> F {
        self.perform
    }

    /// The function accepts every operation.
    pub open spec fn ready(&self) -> bool {
        forall|a: FileAction| call_requires(self.function(), (a,))
    }

    /// A performer that has performed nothing yet.
    pub fn new(perform: F) -> (r: Self)
        ensures
            r.log() == Seq::<ActionView>::empty(),
            r.function() == perform,
    {
        Performer { perform, performed: Ghost(Seq::empty()) }
    }

    /// Performs `action`: its outcome is what the function returns for it,
    /// and the action is added to the list.
    pub fn perform(&mut self, action: FileAction) -> (r: Result<String, String>)
        requires
            old(self).ready(),
        ensures
            final(self).function() == old(self).function(),
            final(self).log() == old(self).log().push(action.view()),
            call_ensures(old(self).function(), (action,), r),
    {
        let ghost seen = action.view();
        assert(call_requires(self.function(), (action,)));
        let r = (self.perform)(action);
        self.performed = Ghost(self.performed@.push(seen));
        r
    }
}

} // verus!
