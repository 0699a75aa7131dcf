//! The bookkeeping of a value that is borrowed at run time: who holds it, and
//! whether one more borrow may be given out.

use vstd::prelude::*;

verus! {

/// How a value is borrowed at the moment.
#[derive(Debug, Clone, Copy, PartialEq, Eq, Structural)]
pub enum RefState {
    /// Nobody holds a reference.
    Unshared,
    /// This many shared references are held.
    Shared(usize),
    /// One exclusive reference is held.
    Exclusive,
}

impl RefState {
    /// What every state that the methods give meets: shared means shared by
    /// one reference at least.
    pub open spec fn wf(self) -> bool {
        self matches RefState::Shared(n) ==> n >= 1
    }

    /// The state once one more shared reference is held, where one may be
    /// given out: always, but beside an exclusive reference.
    pub open spec fn shared_once_more(self) -> Option<RefState> {
        match self {
            RefState::Unshared => Some(RefState::Shared(1)),
            RefState::Shared(n) => Some(RefState::Shared((n + 1) as usize)),
            RefState::Exclusive => None,
        }
    }

    /// The state once a shared reference was given back.
    pub open spec fn shared_once_less(self) -> RefState {
        match self {
            RefState::Shared(n) if n > 1 => RefState::Shared((n - 1) as usize),
            _ => RefState::Unshared,
        }
    }

    /// Asks for a shared reference.
    pub fn borrow(self) -> (next: Option<RefState>)
        requires
            self matches RefState::Shared(n) ==> n < usize::MAX,
        ensures
            next == self.shared_once_more(),
            self.wf() && next.is_some() ==> next.unwrap().wf(),
    {
        match self {
            RefState::Unshared => Some(RefState::Shared(1)),
            RefState::Shared(n) => Some(RefState::Shared(n + 1)),
            RefState::Exclusive => None,
        }
    }

    /// Asks for the exclusive reference, which is given out only where no
    /// reference is held.
    pub fn borrow_mut(self) -> (next: Option<RefState>)
        ensures
            next == if self is Unshared {
                Some(RefState::Exclusive)
            } else {
                None
            },
    {
        match self {
            RefState::Unshared => Some(RefState::Exclusive),
            _ => None,
        }
    }

    /// Gives a shared reference back.
    pub fn release(self) -> (next: RefState)
        requires
            self is Shared,
            self.wf(),
        ensures
            next == self.shared_once_less(),
            next.wf(),
    {
        match self {
            RefState::Shared(n) => if n > 1 {
                RefState::Shared(n - 1)
            } else {
                RefState::Unshared
            },
            _ => RefState::Unshared,
        }
    }

    /// Gives the exclusive reference back.
    pub fn release_mut(self) -> (next: RefState)
        requires
            self is Exclusive,
        ensures
            next is Unshared,
    {
        RefState::Unshared
    }
}

/// A shared reference that is taken and given back leaves the state as it
/// was.
pub proof fn lemma_borrow_then_release(state: RefState)
    requires
        state.wf(),
        state matches RefState::Shared(n) ==> n < usize::MAX,
        state !is Exclusive,
    ensures
        state.shared_once_more().is_some(),
        state.shared_once_more().unwrap().shared_once_less() == state,
{
}

} // verus!
