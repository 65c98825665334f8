//! The network-manager rendezvous protocol.
//!
//! A server and a client meet over one shared rendezvous object: the
//! client raises the ready word, the server fills in four fresh object
//! ids and raises it further, and the client copies them out and clears
//! the word.  The blocking wait and the wake syscall live with the
//! caller's environment, behind the wait/notify port.

use vstd::prelude::*;

verus! {

/// The shared rendezvous cell: a ready word and the four object ids
/// being handed over.
pub struct Rendezvous {
    /// The handshake word both sides wait on.
    pub ready: u64,
    /// Transmit buffer object.
    pub tx_buf: u128,
    /// Receive buffer object.
    pub rx_buf: u128,
    /// Transmit queue object.
    pub tx_queue: u128,
    /// Receive queue object.
    pub rx_queue: u128,
}

/// The objects a network-manager session runs over.
#[derive(Debug, Clone, Copy, PartialEq, Eq, Structural)]
pub struct NmOpenObjects {
    /// Transmit buffer object.
    pub tx_buf: u128,
    /// Receive buffer object.
    pub rx_buf: u128,
    /// Transmit queue object.
    pub tx_queue: u128,
    /// Receive queue object.
    pub rx_queue: u128,
}

/// The kernel's blocking wait/wake primitive over a memory word.
///
/// `wait_until_ne` blocks while the word equals the given value and
/// returns once it differs — the implementation loops over the raw wait
/// call, so spurious wakeups never surface here.  `wake` wakes up to
/// `count` threads blocked on the word.  Both live with the caller's
/// environment.
pub trait ThreadSyncPort {
    /// Block until the word no longer equals `val`.
    fn wait_until_ne(&mut self, word: &mut u64, val: u64)
        ensures
            *final(word) != val,
    ;

    /// Wake up to `count` waiters on the word.
    fn wake(&mut self, word: &u64, count: usize);
}

/// Creates objects.
pub trait ObjectPort {
    /// Create a fresh, volatile object and return its id.
    fn create_object(&mut self) -> u128;
}

/// A wait/notify port for exercising the protocol in one process: the
/// "other side" is scripted as a single step that moves the word.
pub struct LocalSyncPort {
    /// The value the next wait resolves to.
    pub next_word: u64,
    /// The id the next object creation returns; successive creations
    /// count up from it.
    pub next_object: u128,
}

impl ThreadSyncPort for LocalSyncPort {
    fn wait_until_ne(&mut self, word: &mut u64, val: u64)
        ensures
            *final(word) != val,
    {
        if self.next_word != val {
            *word = self.next_word;
        } else {
            if val == 0 {
                *word = 1;
            } else {
                *word = 0;
            }
        }
    }

    fn wake(&mut self, word: &u64, count: usize) {
    }
}

impl ObjectPort for LocalSyncPort {
    fn create_object(&mut self) -> u128 {
        let id = self.next_object;
        self.next_object = if self.next_object == u128::MAX {
            0
        } else {
            self.next_object + 1
        };
        id
    }
}

/// Block while the word equals `val`.
pub fn wait_while_eq<P: ThreadSyncPort>(port: &mut P, word: &mut u64, val: u64)
    ensures
        *final(word) != val,
{
    if *word == val {
        port.wait_until_ne(word, val);
    }
}

/// Store `val` into the word and wake everyone waiting on it.
pub fn write_wake<P: ThreadSyncPort>(port: &mut P, word: &mut u64, val: u64)
    ensures
        *final(word) == val,
{
    *word = val;
    port.wake(word, usize::MAX);
}

/// Create a fresh backing object for one direction of the session.
pub fn new_obj<P: ObjectPort>(port: &mut P) -> u128 {
    port.create_object()
}

/// The server's half of the rendezvous.
///
/// Waits for a client to raise the ready word, creates the four session
/// objects, publishes their ids through the rendezvous cell, and raises
/// the word to hand them over.
pub fn server_rendezvous<P: ThreadSyncPort + ObjectPort>(port: &mut P, r: &mut Rendezvous) -> (o:
    NmOpenObjects)
    ensures
        final(r).ready == 2,
        final(r).tx_buf == o.tx_buf,
        final(r).rx_buf == o.rx_buf,
        final(r).tx_queue == o.tx_queue,
        final(r).rx_queue == o.rx_queue,
{
    wait_while_eq(port, &mut r.ready, 0);
    let o = NmOpenObjects {
        tx_buf: new_obj(port),
        rx_buf: new_obj(port),
        tx_queue: new_obj(port),
        rx_queue: new_obj(port),
    };
    r.tx_buf = o.tx_buf;
    r.rx_buf = o.rx_buf;
    r.tx_queue = o.tx_queue;
    r.rx_queue = o.rx_queue;
    write_wake(port, &mut r.ready, 2);
    o
}

/// The client's half of the rendezvous.
///
/// Raises the ready word, waits for the server to hand over the session
/// objects, copies their ids out, and clears the word.
pub fn client_rendezvous<P: ThreadSyncPort>(port: &mut P, r: &mut Rendezvous) -> (o: NmOpenObjects)
    ensures
        final(r).ready == 0,
        final(r).tx_buf == o.tx_buf,
        final(r).rx_buf == o.rx_buf,
        final(r).tx_queue == o.tx_queue,
        final(r).rx_queue == o.rx_queue,
{
    write_wake(port, &mut r.ready, 1);
    wait_while_eq(port, &mut r.ready, 1);
    let o = NmOpenObjects {
        tx_buf: r.tx_buf,
        rx_buf: r.rx_buf,
        tx_queue: r.tx_queue,
        rx_queue: r.rx_queue,
    };
    write_wake(port, &mut r.ready, 0);
    o
}

} // verus!
