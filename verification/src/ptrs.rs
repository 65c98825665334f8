//! Invariant and global pointers: object-relative references that stay
//! meaningful across address spaces.

use vstd::prelude::*;

use crate::tx::TxCell;

verus! {

/// An invariant pointer as stored inside an object: a raw word under a
/// transaction cell.
pub struct InvPtr<T> {
    /// The raw encoded pointer word.
    pub raw: TxCell<u64>,
    /// The pointed-to type.
    pub _pd: core::marker::PhantomData<T>,
}

impl<T> InvPtr<T> {
    /// Wrap a raw encoded pointer word.
    pub fn from_raw(raw: u64) -> (r: InvPtr<T>)
        ensures
            r.raw.0 == raw,
    {
        InvPtr { raw: TxCell::new(raw), _pd: core::marker::PhantomData }
    }

    /// The raw encoded pointer word.
    pub fn raw(&self) -> (r: u64)
        ensures
            r == self.raw.0,
    {
        *self.raw.get()
    }
}

/// An effective address: a resolved reference into a mapped object.
pub struct EffAddr<'a, T> {
    /// The resolved reference.
    pub ptr: &'a T,
}

/// A pointer valid in any address space: an object id and an offset
/// within that object.
pub struct GlobalPtr<T> {
    /// Id of the object pointed into.
    pub id: u128,
    /// Byte offset within the object.
    pub offset: u64,
    /// The pointed-to type.
    pub _pd: core::marker::PhantomData<T>,
}

impl<T> GlobalPtr<T> {
    /// Name a location within an object.
    pub fn new(id: u128, offset: u64) -> (r: GlobalPtr<T>)
        ensures
            r.id == id,
            r.offset == offset,
    {
        GlobalPtr { id, offset, _pd: core::marker::PhantomData }
    }

    /// The object pointed into.
    pub fn id(&self) -> (r: u128)
        ensures
            r == self.id,
    {
        self.id
    }

    /// The byte offset within the object.
    pub fn offset(&self) -> (r: u64)
        ensures
            r == self.offset,
    {
        self.offset
    }

    /// The same location, viewed as another type.
    pub fn cast<U>(&self) -> (r: GlobalPtr<U>)
        ensures
            r.id == self.id,
            r.offset == self.offset,
    {
        GlobalPtr { id: self.id, offset: self.offset, _pd: core::marker::PhantomData }
    }
}

impl<T> Clone for GlobalPtr<T> {
    fn clone(&self) -> (r: Self)
        ensures
            r.id == self.id,
            r.offset == self.offset,
    {
        GlobalPtr { id: self.id, offset: self.offset, _pd: core::marker::PhantomData }
    }
}

} // verus!
