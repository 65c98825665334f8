//! Compartmentalized dynamic loading and runtime bring-up.
//!
//! This crate loads executable images into isolation domains
//! ("compartments"), resolves their dependency graphs, builds
//! dependency-ordered constructor lists, and plans compartment start-up in
//! strict dependency order.  It also provides the state machine of the
//! background reaper that retires exited threads from a global registry, and
//! a handful of small verified components of the surrounding runtime: memory
//! contexts, DMA region bookkeeping, clock syscall plumbing, a rendezvous
//! protocol, and transactional cells.

pub mod context;
pub mod ctors;
pub mod errors;
pub mod image;
pub mod library;
pub mod loader;
pub mod machine;
pub mod marker;
pub mod memctx;
pub mod dma;
pub mod net;
pub mod ptrs;
pub mod reaper;
pub mod rt_thread;
pub mod state;
pub mod time;
pub mod tls;
pub mod tx;
pub mod symbol;

use vstd::prelude::*;

verus! {

/// Upper bound on the number of images one loader context can hold.
///
/// The arena keys images by small integer ids; a name whose resolution would
/// exceed this capacity is reported as unresolved.
pub const MAX_LIBRARIES: usize = 0x10_0000;

} // verus!
