//! The reference runtime's thread synchronization operations.

use vstd::prelude::*;

verus! {

/// The kernel's futex-style wait/wake primitive over a 32-bit word.
///
/// `wait` blocks while the word equals `expected`, or until the timeout
/// passes when one is given, and reports whether the wait ended for any
/// reason other than a timeout.  Both calls live with the caller's
/// environment.
pub trait FutexPort {
    /// The wake requests issued so far, oldest first, as wake counts.
    open spec fn wake_log(&self) -> Seq<usize> {
        Seq::empty()
    }

    /// Block while the word equals `expected`; `false` means the wait
    /// timed out.
    fn wait(&mut self, futex: &mut u32, expected: u32, has_timeout: bool) -> bool;

    /// Wake up to `count` waiters on the word.  The word itself is not
    /// written.
    fn wake(&mut self, futex: &u32, count: usize)
        ensures
            final(self).wake_log() == old(self).wake_log().push(count),
    ;
}

/// The reference runtime: the userspace runtime's thread facilities.
pub struct ReferenceRuntime {
    /// Marker field; the runtime carries no state of its own here.
    pub _priv: (),
}

impl ReferenceRuntime {
    /// The reference runtime.
    pub fn new() -> ReferenceRuntime {
        ReferenceRuntime { _priv: () }
    }

    /// Wait for the futex word to change from `expected`.
    ///
    /// If the word already differs there is no need to wait and the call
    /// returns at once; otherwise the port blocks, and only a timeout
    /// reports `false`.
    pub fn futex_wait<P: FutexPort>(
        &self,
        port: &mut P,
        futex: &mut u32,
        expected: u32,
        has_timeout: bool,
    ) -> (r: bool)
        ensures
            *old(futex) != expected ==> r && *final(futex) == *old(futex),
    {
        if *futex != expected {
            return true;
        }
        port.wait(futex, expected, has_timeout)
    }

    /// Wake one waiter on the futex word.  Whether a thread was actually
    /// woken is not reported.
    pub fn futex_wake<P: FutexPort>(&self, port: &mut P, futex: &u32) -> (r: bool)
        ensures
            r == false,
            final(port).wake_log() == old(port).wake_log().push(1usize),
    {
        port.wake(futex, 1);
        false
    }

    /// Wake all waiters on the futex word: exactly one wake request with
    /// the all-waiters count.
    pub fn futex_wake_all<P: FutexPort>(&self, port: &mut P, futex: &u32)
        ensures
            final(port).wake_log() == old(port).wake_log().push(usize::MAX),
    {
        port.wake(futex, usize::MAX);
    }
}

} // verus!
