//! Per-compartment thread-local-storage objects.

use vstd::prelude::*;

verus! {

/// A compartment's thread-local-storage object: the object backing a
/// thread's stack and TLS region, mapped both locally and into the
/// compartment.
pub struct TlsObject {
    /// Id of the object as mapped by the caller.
    pub handle_id: u128,
    /// Id of the mapping held inside the compartment.
    pub comphandle_id: u128,
    /// Bytes reserved for the thread's stack.
    pub stack_size: usize,
    /// Bytes of the TLS region; grown when the template is copied in.
    pub tls_size: usize,
    /// Bytes of the initial argument written at the base.
    pub init_size: usize,
}

impl TlsObject {
    /// Record a freshly created and mapped TLS object.
    ///
    /// The object creation and the two mappings happen in the caller's
    /// environment; this keeps their identities and the region's size
    /// accounting.  The TLS region starts empty.
    pub fn new(handle_id: u128, comphandle_id: u128, stack_size: usize, init_size: usize) -> (r:
        TlsObject)
        ensures
            r.handle_id == handle_id,
            r.comphandle_id == comphandle_id,
            r.stack_size == stack_size,
            r.tls_size == 0,
            r.init_size == init_size,
    {
        TlsObject { handle_id, comphandle_id, stack_size, tls_size: 0, init_size }
    }
}

} // verus!
