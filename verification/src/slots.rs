//! Modules that are installed for one thread or for the whole process.

use vstd::prelude::*;

verus! {

/// A module for one thread, which comes before that for the process.
pub struct Slots<T> {
    /// The module of the thread.
    pub thread: Option<T>,
    /// The module of the process.
    pub process: Option<T>,
}

impl<T> Slots<T> {
    /// The module in force: that of the thread, or else that of the process,
    /// or else the usual one.
    pub open spec fn in_force(&self, usual: T) -> T {
        match self.thread {
            Some(a) => a,
            None => match self.process {
                Some(a) => a,
                None => usual,
            },
        }
    }

    /// The module in force.
    pub fn current<'a>(&'a self, usual: &'a T) -> (r: &'a T)
        ensures
            *r == self.in_force(*usual),
    {
        match &self.thread {
            Some(a) => a,
            None => match &self.process {
                Some(a) => a,
                None => usual,
            },
        }
    }
}

/// Once the module of a thread is dropped, that of the process is in force
/// again.
pub proof fn law_cleared_thread_uses_process<T>(s: Slots<T>, a: T, usual: T)
    requires
        s.process == Some(a),
    ensures
        (Slots { thread: None, process: s.process }).in_force(usual) == a,
        (Slots::<T> { thread: None, process: None }).in_force(usual) == usual,
{
}

/// The module of a thread comes before that of the process, and that before the
/// usual one.
pub proof fn law_thread_comes_first<T>(s: Slots<T>, a: T, usual: T)
    ensures
        s.thread == Some(a) ==> s.in_force(usual) == a,
        s.thread is None && s.process == Some(a) ==> s.in_force(usual) == a,
        s.thread is None && s.process is None ==> s.in_force(usual) == usual,
{
}

} // verus!
