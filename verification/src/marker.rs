//! Marker traits for values that may live in shared objects, and
//! in-place construction.

use vstd::prelude::*;

verus! {

/// Values whose bit patterns stay meaningful when stored in a shared
/// object: nothing that borrows or points into one address space.
pub trait InvariantValue {

}

/// Values that may be stored directly in a shared object.
pub trait Invariant: InvariantValue {

}

impl InvariantValue for u8 {

}

impl Invariant for u8 {

}

impl InvariantValue for u16 {

}

impl Invariant for u16 {

}

impl InvariantValue for u32 {

}

impl Invariant for u32 {

}

impl InvariantValue for u64 {

}

impl Invariant for u64 {

}

impl InvariantValue for bool {

}

impl Invariant for bool {

}

impl InvariantValue for i8 {

}

impl Invariant for i8 {

}

impl InvariantValue for i16 {

}

impl Invariant for i16 {

}

impl InvariantValue for i32 {

}

impl Invariant for i32 {

}

impl InvariantValue for i64 {

}

impl Invariant for i64 {

}

/// A place inside an object where a value is being constructed.
pub struct InPlace {
    /// Id of the object holding the place.
    pub object_id: u128,
}

impl InPlace {
    /// Name a construction place inside the given object.
    pub fn new(object_id: u128) -> (r: InPlace)
        ensures
            r.object_id == object_id,
    {
        InPlace { object_id }
    }

    /// Construct a value in place from its move constructor.
    pub fn store<V: StoreEffect>(&mut self, item: V::MoveCtor) -> V {
        V::store(item, self)
    }

    /// Construct a value in place, or report why it cannot be built.
    pub fn try_store<V: TryStoreEffect>(&mut self, item: V::MoveCtor) -> Result<V, V::Error> {
        V::try_store(item, self)
    }
}

/// Types that can be moved into an object through a constructor value.
pub trait StoreEffect: Sized {
    /// What callers hand over to build a value of this type.
    type MoveCtor;

    /// Build the value in the given place.
    fn store(ctor: Self::MoveCtor, in_place: &mut InPlace) -> Self;
}

/// Types whose in-place construction can fail.
pub trait TryStoreEffect: Sized {
    /// What callers hand over to build a value of this type.
    type MoveCtor;

    /// Why construction failed.
    type Error;

    /// Build the value in the given place, or fail.
    fn try_store(ctor: Self::MoveCtor, in_place: &mut InPlace) -> Result<Self, Self::Error>;
}

} // verus!
