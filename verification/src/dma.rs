//! DMA region bookkeeping: page accounting, pin plumbing, and the cache
//! coherence rules.

use vstd::prelude::*;

verus! {

/// The page granularity DMA pins work at.
pub const DMA_PAGE_SIZE: usize = 0x1000;

/// The access direction of a DMA region.
#[derive(Clone, Copy, Debug, PartialEq, Eq, Structural)]
pub enum Access {
    /// The host writes, the device reads.
    HostToDevice,
    /// The device writes, the host reads.
    DeviceToHost,
    /// Both sides read and write.
    BiDirectional,
}

/// A cache synchronization action.
#[derive(Clone, Copy, Debug, PartialEq, Eq, Structural)]
pub enum SyncMode {
    /// Flush before the CPU hands data to the device.
    PreCpuToDevice,
    /// Flush after the CPU handed data to the device.
    PostCpuToDevice,
    /// Invalidate after the device wrote data for the CPU.
    PostDeviceToCpu,
    /// Full flush and invalidate.
    FullCoherence,
}

/// Options controlling a DMA region.
#[derive(Clone, Copy, Debug, PartialEq, Eq, Structural)]
pub struct DmaOptions {
    /// The raw option bits.
    pub bits: u64,
}

impl DmaOptions {
    /// Default options: coherence is managed automatically.
    pub fn empty() -> (r: DmaOptions)
        ensures
            r.bits == 0,
    {
        DmaOptions { bits: 0 }
    }

    /// The caller manages coherence by hand.
    pub fn unsafe_manual_coherence() -> (r: DmaOptions)
        ensures
            r.bits == 1,
    {
        DmaOptions { bits: 1 }
    }

    /// Whether manual-coherence mode is set.
    pub open spec fn spec_manual(self) -> bool {
        self.bits & 1 == 1
    }

    /// Whether manual-coherence mode is set.
    pub fn manual(&self) -> (r: bool)
        ensures
            r == self.spec_manual(),
    {
        self.bits & 1 == 1
    }
}

/// Errors while pinning a region's pages.
#[derive(Clone, Copy, Debug, PartialEq, Eq, Structural)]
pub enum PinError {
    /// The kernel rejected or garbled the request.
    InternalError,
    /// Not enough pin capacity was available.
    Exhausted,
}

/// An active pin of a region's pages: their physical addresses.
pub struct DmaPin<'a> {
    /// The pinned pages' physical addresses, one per page.
    pub phys: &'a Vec<u64>,
}

/// Pins object pages for device access.
///
/// Implementations perform the kernel action that pins `count` pages of
/// the object starting at page `start`, returning the packed result word
/// (pinned-count in the high half, pin token in the low half) and the
/// physical address of each page; `None` when the kernel action itself
/// failed.  This lives with the caller's environment.
pub trait PinSource {
    /// The pin requests made so far and what each returned, oldest
    /// first: object, start page, page count, and the kernel's answer.
    open spec fn log(&self) -> Seq<(u128, u64, usize, Option<(u64, Vec<u64>)>)> {
        Seq::empty()
    }

    /// Pin pages, returning the packed result and the physical
    /// addresses.
    fn pin_pages(&mut self, obj_id: u128, start: u64, count: usize) -> (r: Option<(u64, Vec<u64>)>)
        ensures
            final(self).log() == old(self).log().push((obj_id, start, count, r)),
    ;
}

/// The coherence action taken before reading DMA data, if any.
pub fn read_sync_mode(access: Access) -> (r: Option<SyncMode>)
    ensures
        access is HostToDevice <==> r is None,
        access is HostToDevice || r == Some(SyncMode::PostDeviceToCpu),
{
    match access {
        Access::HostToDevice => None,
        _ => Some(SyncMode::PostDeviceToCpu),
    }
}

/// The coherence action taken before writing DMA data.
pub fn pre_write_sync_mode(access: Access) -> (r: SyncMode)
    ensures
        access is HostToDevice ==> r == SyncMode::PreCpuToDevice,
        access is DeviceToHost ==> r == SyncMode::PostDeviceToCpu,
        access is BiDirectional ==> r == SyncMode::FullCoherence,
    {
    match access {
        Access::HostToDevice => SyncMode::PreCpuToDevice,
        Access::DeviceToHost => SyncMode::PostDeviceToCpu,
        Access::BiDirectional => SyncMode::FullCoherence,
    }
}

/// The coherence action taken after writing DMA data, if any.
pub fn post_write_sync_mode(access: Access) -> (r: Option<SyncMode>)
    ensures
        access is DeviceToHost <==> r is None,
        access is DeviceToHost || r == Some(SyncMode::PostCpuToDevice),
{
    match access {
        Access::DeviceToHost => None,
        _ => Some(SyncMode::PostCpuToDevice),
    }
}

/// Performs cache synchronization over a byte range of an object.
///
/// The flush and invalidate instructions live with the caller's
/// environment.
pub trait CacheSync {
    /// The ranges synchronized so far, oldest first: object, byte start,
    /// byte length, and the action taken.
    open spec fn log(&self) -> Seq<(u128, usize, usize, SyncMode)> {
        Seq::empty()
    }

    /// Synchronize `len` bytes of the object starting at `start`.
    fn sync_range(&mut self, obj_id: u128, start: usize, len: usize, mode: SyncMode)
        ensures
            final(self).log() == old(self).log().push((obj_id, start, len, mode)),
    ;
}

/// A region of DMA memory with a particular access mode and options.
pub struct DmaRegion {
    /// Id of the object backing the region.
    pub obj_id: u128,
    /// The region's length in bytes.
    pub len: usize,
    /// The access direction.
    pub access: Access,
    /// The region's options.
    pub options: DmaOptions,
    /// Byte offset of the region within its object.
    pub offset: usize,
    /// The pinned physical pages and the pin token, once pinned.
    pub backing: Option<(Vec<u64>, u32)>,
}

impl DmaRegion {
    /// Describe a fresh, unpinned region.
    pub fn new(obj_id: u128, len: usize, access: Access, options: DmaOptions, offset: usize) -> (r:
        DmaRegion)
        requires
            len >= 1,
        ensures
            r.obj_id == obj_id,
            r.len == len,
            r.access == access,
            r.options == options,
            r.offset == offset,
            r.backing is None,
    {
        DmaRegion { obj_id, len, access, options, offset, backing: None }
    }

    /// The number of pages this region covers.
    pub fn nr_pages(&self) -> (r: usize)
        requires
            self.len >= 1,
        ensures
            r == (self.len - 1) / (DMA_PAGE_SIZE as int) + 1,
    {
        (self.len - 1) / DMA_PAGE_SIZE + 1
    }

    /// The number of bytes this region covers.
    pub fn num_bytes(&self) -> (r: usize)
        ensures
            r == self.len,
    {
        self.len
    }

    /// The access direction of this region.
    pub fn access(&self) -> (r: Access)
        ensures
            r == self.access,
    {
        self.access
    }

    /// Acquire physical addresses and a pin for the region's pages, if
    /// not already held.
    ///
    /// The kernel reports how many pages it pinned and a token; fewer
    /// than asked is exhaustion, more is an internal error, and so is a
    /// page count that does not match the returned addresses.
    pub fn setup_backing<P: PinSource>(&mut self, source: &mut P) -> (r: Result<(), PinError>)
        requires
            old(self).len >= 1,
        ensures
            final(self).obj_id == old(self).obj_id,
            final(self).len == old(self).len,
            final(self).access == old(self).access,
            final(self).options == old(self).options,
            final(self).offset == old(self).offset,
            old(self).backing is Some ==> (r is Ok && final(self).backing == old(self).backing
                && final(source).log() == old(source).log()),
            r is Ok ==> final(self).backing is Some,
            old(self).backing is None && r is Ok ==> (final(self).backing matches Some(b)
                && b.0@.len() == (old(self).len - 1) / (DMA_PAGE_SIZE as int) + 1),
            r is Err ==> final(self).backing == old(self).backing,
            old(self).backing is None ==> {
                let pages = (old(self).len - 1) / (DMA_PAGE_SIZE as int) + 1;
                let entry = final(source).log().last();
                &&& final(source).log().len() == old(source).log().len() + 1
                &&& forall|i: int|
                    0 <= i < old(source).log().len() ==> #[trigger] final(source).log()[i] == old(
                        source,
                    ).log()[i]
                &&& entry.0 == old(self).obj_id
                &&& entry.1 == (old(self).offset as int / (DMA_PAGE_SIZE as int)) as u64
                &&& entry.2 == pages
                &&& match entry.3 {
                    None => r == Err::<(), PinError>(PinError::InternalError),
                    Some(res) => {
                        let retlen = (res.0 >> 32) as usize;
                        let token = (res.0 & 0xffffffff) as u32;
                        &&& (retlen as int) < pages ==> r == Err::<(), PinError>(
                            PinError::Exhausted,
                        )
                        &&& (retlen as int) > pages ==> r == Err::<(), PinError>(
                            PinError::InternalError,
                        )
                        &&& (retlen as int) == pages && res.1@.len() != pages ==> r == Err::<
                            (),
                            PinError,
                        >(PinError::InternalError)
                        &&& (retlen as int) == pages && res.1@.len() == pages ==> (r is Ok
                            && (final(self).backing matches Some(b) && b.0@ == res.1@ && b.1
                            == token))
                    },
                }
            },
    {
        if self.backing.is_some() {
            return Ok(());
        }
        let len = self.nr_pages();
        let start = (self.offset / DMA_PAGE_SIZE) as u64;
        let (res, phys) = match source.pin_pages(self.obj_id, start, len) {
            Some(p) => p,
            None => {
                return Err(PinError::InternalError);
            },
        };
        let retlen = (res >> 32) as usize;
        let token = (res & 0xffffffff) as u32;
        if retlen < len {
            return Err(PinError::Exhausted);
        }
        if retlen > len {
            return Err(PinError::InternalError);
        }
        if phys.len() != len {
            return Err(PinError::InternalError);
        }
        self.backing = Some((phys, token));
        Ok(())
    }

    /// Pin the region's pages and hand out their physical addresses.
    pub fn pin<P: PinSource>(&mut self, source: &mut P) -> (r: Result<DmaPin<'_>, PinError>)
        requires
            old(self).len >= 1,
        ensures
            final(self).obj_id == old(self).obj_id,
            final(self).len == old(self).len,
            final(self).access == old(self).access,
            final(self).options == old(self).options,
            final(self).offset == old(self).offset,
            old(self).backing is Some ==> (r is Ok && final(self).backing == old(self).backing
                && final(source).log() == old(source).log()),
            old(self).backing is None && r is Ok ==> (final(self).backing matches Some(b)
                && b.0@.len() == (old(self).len - 1) / (DMA_PAGE_SIZE as int) + 1),
            r matches Ok(p) ==> (final(self).backing matches Some(b) && p.phys == &b.0),
            r is Err ==> final(self).backing == old(self).backing,
    {
        match self.setup_backing(source) {
            Ok(_) => {},
            Err(e) => {
                return Err(e);
            },
        }
        match &self.backing {
            Some(b) => Ok(DmaPin { phys: &b.0 }),
            None => Err(PinError::InternalError),
        }
    }

    /// Synchronize the whole region for cache coherence.
    pub fn sync<C: CacheSync>(&self, engine: &mut C, mode: SyncMode)
        ensures
            final(engine).log() == old(engine).log().push((self.obj_id, 0usize, self.len, mode)),
    {
        engine.sync_range(self.obj_id, 0, self.len, mode);
    }
}

/// A region of DMA memory viewed as a slice of fixed-size elements.
pub struct DmaSliceRegion {
    /// The underlying byte region.
    pub region: DmaRegion,
    /// The number of elements.
    pub len: usize,
    /// The size of one element in bytes.
    pub elem_size: usize,
}

impl DmaSliceRegion {
    /// Describe a fresh, unpinned slice region.
    pub fn new(
        obj_id: u128,
        nrbytes: usize,
        access: Access,
        options: DmaOptions,
        offset: usize,
        len: usize,
        elem_size: usize,
    ) -> (r: DmaSliceRegion)
        requires
            nrbytes >= 1,
        ensures
            r.region.obj_id == obj_id,
            r.region.len == nrbytes,
            r.region.access == access,
            r.region.options == options,
            r.region.offset == offset,
            r.region.backing is None,
            r.len == len,
            r.elem_size == elem_size,
    {
        DmaSliceRegion { region: DmaRegion::new(obj_id, nrbytes, access, options, offset), len, elem_size }
    }

    /// The number of bytes this region covers.
    pub fn num_bytes(&self) -> (r: usize)
        ensures
            r == self.region.len,
    {
        self.region.len
    }

    /// The access direction of this region.
    pub fn access(&self) -> (r: Access)
        ensures
            r == self.region.access,
    {
        self.region.access()
    }

    /// The number of elements in the slice.
    pub fn len(&self) -> (r: usize)
        ensures
            r == self.len,
    {
        self.len
    }

    /// Pin the region's pages and hand out their physical addresses.
    pub fn pin<P: PinSource>(&mut self, source: &mut P) -> (r: Result<DmaPin<'_>, PinError>)
        requires
            old(self).region.len >= 1,
        ensures
            final(self).region.obj_id == old(self).region.obj_id,
            final(self).region.len == old(self).region.len,
            final(self).len == old(self).len,
            final(self).elem_size == old(self).elem_size,
            old(self).region.backing is Some ==> (r is Ok && final(self).region.backing == old(
                self,
            ).region.backing),
            r matches Ok(p) ==> (final(self).region.backing matches Some(b) && p.phys == &b.0),
            r is Err ==> final(self).region.backing == old(self).region.backing,
    {
        self.region.pin(source)
    }

    /// Synchronize an element subrange of the region for cache
    /// coherence.
    pub fn sync<C: CacheSync>(&self, engine: &mut C, from: usize, to: usize, mode: SyncMode)
        requires
            from <= to <= self.len,
            to * self.elem_size <= usize::MAX,
        ensures
            final(engine).log() == old(engine).log().push(
                (
                    self.region.obj_id,
                    (from * self.elem_size) as usize,
                    ((to - from) * self.elem_size) as usize,
                    mode,
                ),
            ),
    {
        proof {
            assert(from * self.elem_size <= to * self.elem_size) by (nonlinear_arith)
                requires
                    from <= to,
                    self.elem_size >= 0,
            ;
            assert((to - from) * self.elem_size <= to * self.elem_size) by (nonlinear_arith)
                requires
                    0 <= from,
                    from <= to,
                    self.elem_size >= 0,
            ;
        }
        let start = from * self.elem_size;
        let len = (to - from) * self.elem_size;
        engine.sync_range(self.region.obj_id, start, len, mode);
    }
}

} // verus!
