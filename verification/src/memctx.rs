//! Kernel memory contexts: slot-keyed object mappings and their
//! permissions.

use vstd::prelude::*;

verus! {

/// Protection bits requested for an object.
#[derive(Clone, Copy, Debug, PartialEq, Eq, Structural)]
pub struct Protections {
    /// The raw bits.
    pub bits: u32,
}

impl Protections {
    /// No access.
    pub fn empty() -> (r: Protections)
        ensures
            r.bits == 0,
    {
        Protections { bits: 0 }
    }

    /// Read access.
    pub fn read() -> (r: Protections)
        ensures
            r.bits == 1,
    {
        Protections { bits: 1 }
    }

    /// Write access.
    pub fn write() -> (r: Protections)
        ensures
            r.bits == 2,
    {
        Protections { bits: 2 }
    }

    /// Execute access.
    pub fn exec() -> (r: Protections)
        ensures
            r.bits == 4,
    {
        Protections { bits: 4 }
    }

    /// Whether all of `other`'s bits are set in `self`.
    pub open spec fn spec_contains(self, other: Protections) -> bool {
        self.bits & other.bits == other.bits
    }

    /// Whether all of `other`'s bits are set in `self`.
    pub fn contains(&self, other: Protections) -> (r: bool)
        ensures
            r == self.spec_contains(other),
    {
        self.bits & other.bits == other.bits
    }

    /// Add `other`'s bits.
    pub fn insert(&mut self, other: Protections)
        ensures
            final(self).bits == (old(self).bits | other.bits),
    {
        self.bits = self.bits | other.bits;
    }
}

/// Permissions of one mapping.
#[derive(Clone, Copy, Debug, PartialEq, Eq, Structural)]
pub struct MappingPerms {
    /// The raw bits.
    pub bits: u32,
}

impl MappingPerms {
    /// No access.
    pub fn empty() -> (r: MappingPerms)
        ensures
            r.bits == 0,
    {
        MappingPerms { bits: 0 }
    }

    /// Read access.
    pub fn read() -> (r: MappingPerms)
        ensures
            r.bits == 1,
    {
        MappingPerms { bits: 1 }
    }

    /// Write access.
    pub fn write() -> (r: MappingPerms)
        ensures
            r.bits == 2,
    {
        MappingPerms { bits: 2 }
    }

    /// Execute access.
    pub fn execute() -> (r: MappingPerms)
        ensures
            r.bits == 4,
    {
        MappingPerms { bits: 4 }
    }

    /// Whether all of `other`'s bits are set in `self`.
    pub open spec fn spec_contains(self, other: MappingPerms) -> bool {
        self.bits & other.bits == other.bits
    }

    /// Whether all of `other`'s bits are set in `self`.
    pub fn contains(&self, other: MappingPerms) -> (r: bool)
        ensures
            r == self.spec_contains(other),
    {
        self.bits & other.bits == other.bits
    }

    /// Add `other`'s bits.
    pub fn insert(&mut self, other: MappingPerms)
        ensures
            final(self).bits == (old(self).bits | other.bits),
    {
        self.bits = self.bits | other.bits;
    }
}

/// How the protection bits translate to mapping permissions.
pub open spec fn perms_from_protections(p: Protections) -> MappingPerms {
    let b1: u32 = if p.spec_contains(Protections { bits: 1 }) {
        1u32
    } else {
        0u32
    };
    let b2: u32 = if p.spec_contains(Protections { bits: 2 }) {
        2u32
    } else {
        0u32
    };
    let b4: u32 = if p.spec_contains(Protections { bits: 4 }) {
        4u32
    } else {
        0u32
    };
    MappingPerms { bits: (b1 | b2) | b4 }
}

impl From<Protections> for MappingPerms {
    fn from(p: Protections) -> (r: Self) {
        let b1: u32 = if p.contains(Protections::read()) {
            1
        } else {
            0
        };
        let b2: u32 = if p.contains(Protections::write()) {
            2
        } else {
            0
        };
        let b4: u32 = if p.contains(Protections::exec()) {
            4
        } else {
            0
        };
        MappingPerms { bits: (b1 | b2) | b4 }
    }
}

impl vstd::std_specs::convert::FromSpecImpl<Protections> for MappingPerms {
    open spec fn obeys_from_spec() -> bool {
        true
    }

    open spec fn from_spec(p: Protections) -> Self {
        perms_from_protections(p)
    }
}

/// Architecture-level mapping flags.
#[derive(Clone, Copy, Debug, PartialEq, Eq, Structural)]
pub struct MapFlags {
    /// The raw bits.
    pub bits: u64,
}

impl MapFlags {
    /// No flags.
    pub fn empty() -> (r: MapFlags)
        ensures
            r.bits == 0,
    {
        MapFlags { bits: 0 }
    }
}

/// How mapping permissions translate to architecture flags.
pub open spec fn flags_from_perms(mp: MappingPerms) -> MapFlags {
    let b1: u64 = if mp.spec_contains(MappingPerms { bits: 1 }) {
        1u64
    } else {
        0u64
    };
    let b2: u64 = if mp.spec_contains(MappingPerms { bits: 2 }) {
        2u64
    } else {
        0u64
    };
    let b4: u64 = if mp.spec_contains(MappingPerms { bits: 4 }) {
        4u64
    } else {
        0u64
    };
    MapFlags { bits: (b1 | b2) | b4 }
}

impl From<MappingPerms> for MapFlags {
    fn from(mp: MappingPerms) -> (r: Self) {
        let b1: u64 = if mp.contains(MappingPerms::read()) {
            1
        } else {
            0
        };
        let b2: u64 = if mp.contains(MappingPerms::write()) {
            2
        } else {
            0
        };
        let b4: u64 = if mp.contains(MappingPerms::execute()) {
            4
        } else {
            0
        };
        MapFlags { bits: (b1 | b2) | b4 }
    }
}

impl vstd::std_specs::convert::FromSpecImpl<MappingPerms> for MapFlags {
    open spec fn obeys_from_spec() -> bool {
        true
    }

    open spec fn from_spec(mp: MappingPerms) -> Self {
        flags_from_perms(mp)
    }
}

/// One object mapped into a slot of a memory context.
#[derive(Clone, Copy, PartialEq, Eq, Structural)]
pub struct Mapping {
    /// Id of the mapped object.
    pub obj: u128,
    /// Permissions of the mapping.
    pub perms: MappingPerms,
    /// Id of the owning memory context.
    pub vmc: u64,
    /// The address-space slot.
    pub slot: usize,
}

impl Mapping {
    /// Describe a mapping of `obj` into `slot` of context `vmc`.
    pub fn new(obj: u128, vmc: u64, slot: usize, perms: MappingPerms) -> (r: Mapping)
        ensures
            r.obj == obj,
            r.vmc == vmc,
            r.slot == slot,
            r.perms == perms,
    {
        Mapping { obj, vmc, slot, perms }
    }
}

/// The slot an address falls into.
pub open spec fn spec_addr_to_slot(addr: u64) -> usize {
    (addr / 0x4000_0000) as usize
}

/// The slot an address falls into.
pub fn addr_to_slot(addr: u64) -> (r: usize)
    ensures
        r == spec_addr_to_slot(addr),
{
    (addr / 0x4000_0000) as usize
}

/// Whether the slot map holds an entry for `slot`.
pub open spec fn slot_present(slots: Seq<Mapping>, slot: usize) -> bool {
    exists|k: int| 0 <= k < slots.len() && (#[trigger] slots[k]).slot == slot
}

/// Unique slots.
pub open spec fn slots_unique(slots: Seq<Mapping>) -> bool {
    forall|k1: int, k2: int|
        0 <= k1 < k2 < slots.len() ==> (#[trigger] slots[k1]).slot != (#[trigger] slots[k2]).slot
}

/// The inner state of a memory context: the slot-keyed mappings and the
/// count of threads using the context.
pub struct MemoryContextInner {
    /// The mappings; slots are unique.
    pub slots: Vec<Mapping>,
    /// How many threads run in this context.
    pub thread_count: u64,
}

impl MemoryContextInner {
    /// A blank context: no mappings, no threads.
    pub fn new_blank() -> (r: MemoryContextInner)
        ensures
            r.slots@.len() == 0,
            r.thread_count == 0,
            slots_unique(r.slots@),
    {
        MemoryContextInner { slots: Vec::new(), thread_count: 0 }
    }

    /// A fresh context, ready for mappings.
    pub fn new() -> (r: MemoryContextInner)
        ensures
            r.slots@.len() == 0,
            r.thread_count == 0,
            slots_unique(r.slots@),
    {
        Self::new_blank()
    }

    /// Drop all mappings.
    fn clear_mappings(&mut self)
        ensures
            final(self).slots@.len() == 0,
            final(self).thread_count == old(self).thread_count,
    {
        self.slots.clear();
    }

    /// Note one more thread running in this context.
    pub fn add_thread(&mut self)
        requires
            old(self).thread_count < u64::MAX,
        ensures
            final(self).thread_count == old(self).thread_count + 1,
            final(self).slots@ == old(self).slots@,
    {
        self.thread_count = self.thread_count + 1;
    }

    /// Note one thread leaving this context; the last one out drops all
    /// mappings.
    pub fn remove_thread(&mut self)
        requires
            old(self).thread_count > 0,
        ensures
            final(self).thread_count == old(self).thread_count - 1,
            old(self).thread_count == 1 ==> final(self).slots@.len() == 0,
            old(self).thread_count != 1 ==> final(self).slots@ == old(self).slots@,
    {
        self.thread_count = self.thread_count - 1;
        if self.thread_count == 0 {
            self.clear_mappings();
        }
    }

    /// The mapping covering an address, if any.
    pub fn lookup_object(&self, addr: u64) -> (r: Option<Mapping>)
        requires
            slots_unique(self.slots@),
        ensures
            match r {
                Some(m) => m.slot == spec_addr_to_slot(addr) && slot_present(
                    self.slots@,
                    m.slot,
                ) && self.slots@.contains(m),
                None => !slot_present(self.slots@, spec_addr_to_slot(addr)),
            },
    {
        let slot = addr_to_slot(addr);
        let n = self.slots.len();
        let mut k: usize = 0;
        while k < n
            invariant
                k <= n,
                n == self.slots@.len(),
                slot == spec_addr_to_slot(addr),
                forall|i: int| 0 <= i < k ==> (#[trigger] self.slots@[i]).slot != slot,
            decreases n - k,
        {
            if self.slots[k].slot == slot {
                proof {
                    assert(self.slots@[k as int].slot == slot);
                    assert(self.slots@.contains(self.slots@[k as int]));
                }
                return Some(self.slots[k]);
            }
            k = k + 1;
        }
        None
    }

    /// Insert a mapping, replacing any mapping of the same slot.
    pub fn insert_mapping(&mut self, mapping: Mapping)
        requires
            slots_unique(old(self).slots@),
        ensures
            slots_unique(final(self).slots@),
            final(self).thread_count == old(self).thread_count,
            slot_present(final(self).slots@, mapping.slot),
            final(self).slots@.contains(mapping),
            forall|s: usize|
                s != mapping.slot ==> slot_present(final(self).slots@, s) == slot_present(
                    old(self).slots@,
                    s,
                ),
            forall|j: int|
                0 <= j < final(self).slots@.len() ==> ((#[trigger] final(self).slots@[j])
                    == mapping || old(self).slots@.contains(final(self).slots@[j])),
            forall|j: int|
                0 <= j < old(self).slots@.len() && (#[trigger] old(self).slots@[j]).slot
                    != mapping.slot ==> final(self).slots@.contains(old(self).slots@[j]),
    {
        let ghost pre = self.slots@;
        let n = self.slots.len();
        let mut k: usize = 0;
        while k < n
            invariant
                k <= n,
                n == self.slots@.len(),
                self.slots@ == pre,
                pre == old(self).slots@,
                self.thread_count == old(self).thread_count,
                slots_unique(pre),
                forall|i: int| 0 <= i < k ==> (#[trigger] pre[i]).slot != mapping.slot,
            decreases n - k,
        {
            if self.slots[k].slot == mapping.slot {
                self.slots.set(k, mapping);
                proof {
                    assert(self.slots@[k as int] == mapping);
                    assert forall|k1: int, k2: int|
                        0 <= k1 < k2 < self.slots@.len() implies (
                    #[trigger] self.slots@[k1]).slot != (#[trigger] self.slots@[k2]).slot by {
                        assert(pre[k1].slot != pre[k2].slot);
                    }
                    assert forall|s: usize|
                        s != mapping.slot implies slot_present(self.slots@, s) == slot_present(
                        pre,
                        s,
                    ) by {
                        if slot_present(self.slots@, s) {
                            let j = choose|j: int|
                                0 <= j < self.slots@.len() && (#[trigger] self.slots@[j]).slot
                                    == s;
                            assert(pre[j].slot == s);
                        }
                        if slot_present(pre, s) {
                            let j = choose|j: int|
                                0 <= j < pre.len() && (#[trigger] pre[j]).slot == s;
                            assert(self.slots@[j].slot == s);
                        }
                    }
                    assert forall|j: int|
                        0 <= j < self.slots@.len() implies ((#[trigger] self.slots@[j]) == mapping
                        || pre.contains(self.slots@[j])) by {
                        if j != k {
                            assert(self.slots@[j] == pre[j]);
                        }
                    }
                    assert forall|j: int|
                        0 <= j < pre.len() && (#[trigger] pre[j]).slot != mapping.slot
                            implies self.slots@.contains(pre[j]) by {
                        assert(j != k);
                        assert(self.slots@[j] == pre[j]);
                    }
                }
                return ;
            }
            k = k + 1;
        }
        self.slots.push(mapping);
        proof {
            assert(self.slots@[self.slots@.len() - 1] == mapping);
            assert forall|k1: int, k2: int|
                0 <= k1 < k2 < self.slots@.len() implies (#[trigger] self.slots@[k1]).slot != (
            #[trigger] self.slots@[k2]).slot by {
                if k2 == self.slots@.len() - 1 {
                    assert(pre[k1].slot != mapping.slot);
                }
            }
            assert forall|s: usize|
                s != mapping.slot implies slot_present(self.slots@, s) == slot_present(
                pre,
                s,
            ) by {
                if slot_present(self.slots@, s) {
                    let j = choose|j: int|
                        0 <= j < self.slots@.len() && (#[trigger] self.slots@[j]).slot == s;
                    assert(pre[j].slot == s);
                }
                if slot_present(pre, s) {
                    let j = choose|j: int| 0 <= j < pre.len() && (#[trigger] pre[j]).slot == s;
                    assert(self.slots@[j].slot == s);
                }
            }
            assert forall|j: int|
                0 <= j < self.slots@.len() implies ((#[trigger] self.slots@[j]) == mapping
                || pre.contains(self.slots@[j])) by {
                if j < self.slots@.len() - 1 {
                    assert(self.slots@[j] == pre[j]);
                }
            }
            assert forall|j: int|
                0 <= j < pre.len() && (#[trigger] pre[j]).slot != mapping.slot
                    implies self.slots@.contains(pre[j]) by {
                assert(self.slots@[j] == pre[j]);
            }
        }
    }
}

/// A memory context: the inner state, an identity, and the registered
/// upcall address.
pub struct MemoryContext {
    /// The guarded inner state.
    pub inner: MemoryContextInner,
    /// The context's unique id; contexts compare by it.
    pub id: u64,
    /// The registered upcall address; zero means none.
    pub upcall: usize,
}

impl MemoryContext {
    /// A blank context under the given id.
    pub fn new_blank() -> (r: MemoryContext)
        ensures
            r.inner.slots@.len() == 0,
            r.inner.thread_count == 0,
            r.id == 0,
            r.upcall == 0,
    {
        MemoryContext { inner: MemoryContextInner::new_blank(), id: 0, upcall: 0 }
    }

    /// A fresh context.
    pub fn new() -> (r: MemoryContext)
        ensures
            r.inner.slots@.len() == 0,
            r.inner.thread_count == 0,
            r.id == 0,
            r.upcall == 0,
    {
        Self::new_blank()
    }

    /// A fresh context under a caller-chosen unique id.
    pub fn with_id(id: u64) -> (r: MemoryContext)
        ensures
            r.inner.slots@.len() == 0,
            r.inner.thread_count == 0,
            r.id == id,
            r.upcall == 0,
    {
        MemoryContext { inner: MemoryContextInner::new_blank(), id, upcall: 0 }
    }

    /// Borrow the inner state.
    pub fn inner(&self) -> (r: &MemoryContextInner)
        ensures
            *r == self.inner,
    {
        &self.inner
    }

    /// Set the context's upcall address.
    pub fn set_upcall_address(&mut self, target: usize)
        ensures
            final(self).upcall == target,
            final(self).inner == old(self).inner,
            final(self).id == old(self).id,
    {
        self.upcall = target;
    }

    /// The registered upcall address, if one was set.
    pub fn get_upcall_address(&self) -> (r: Option<usize>)
        ensures
            self.upcall == 0 ==> r is None,
            self.upcall != 0 ==> r == Some(self.upcall),
    {
        match self.upcall {
            0 => None,
            n => Some(n),
        }
    }
}

impl PartialEq for MemoryContext {
    fn eq(&self, other: &Self) -> (r: bool) {
        self.id == other.id
    }
}

impl vstd::std_specs::cmp::PartialEqSpecImpl for MemoryContext {
    open spec fn obeys_eq_spec() -> bool {
        true
    }

    open spec fn eq_spec(&self, other: &MemoryContext) -> bool {
        self.id == other.id
    }
}

/// Cache behavior requested for a mapping.
#[derive(Clone, Copy, Debug, PartialEq, Eq, Structural)]
pub enum CacheType {
    /// Ordinary write-back caching.
    WriteBack,
    /// Write-through caching.
    WriteThrough,
    /// Write-combining, for framebuffers and the like.
    WriteCombining,
    /// No caching.
    Uncacheable,
}

/// Errors when inserting objects into a [`Context`].
#[derive(Clone, Copy, Debug, PartialEq, Eq, Structural)]
pub enum InsertError {
    /// The requested region is already occupied.
    Occupied,
}

/// The operations object management expects of an address space.  An
/// architecture-dependent type implements this, and the rest of the
/// kernel manages objects in a context through it.
pub trait Context {
    /// The upcall information this context takes (an entry address).
    type UpcallInfo;

    /// How callers say where to map an object (a slot number).
    type MappingInfo;

    /// Set the context's upcall information.
    fn set_upcall(&mut self, target: Self::UpcallInfo);

    /// Retrieve the context's upcall information.
    fn get_upcall(&self) -> Option<Self::UpcallInfo>;

    /// Switch to this context.
    fn switch_to(&self);

    /// Insert a range of an object into the context.  Calls may be
    /// generated by faults, so the implementation must resolve the fault
    /// by mapping the object as requested.
    fn insert_object(
        &mut self,
        obj: u128,
        mapping_info: Self::MappingInfo,
        perms: MappingPerms,
        cache: CacheType,
    ) -> Result<(), InsertError>;

    /// Remove an object's mapping from the context.
    fn remove_object(&mut self, obj: u128, start: usize, len: usize);

    /// Write-protect a region of the object's mapping; the whole object
    /// if need be.
    fn write_protect(&mut self, obj: u128, start: usize, len: usize);
}

} // verus!
