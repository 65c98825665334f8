//! Tests of the smaller runtime components: memory contexts, DMA
//! regions, clock plumbing, transactional cells, and pointers.

use comploader::dma::{
    post_write_sync_mode, pre_write_sync_mode, read_sync_mode, Access, DmaOptions, DmaRegion,
    DmaSliceRegion, PinError, PinSource, SyncMode,
};
use comploader::machine::machine_post_init;
use comploader::memctx::{
    addr_to_slot, MapFlags, Mapping, MappingPerms, MemoryContext, MemoryContextInner, Protections,
};
use comploader::ptrs::{GlobalPtr, InvPtr};
use comploader::state::{Comp, MonitorState};
use comploader::time::{ClockID, ClockSource, ReadClockInfoError, ReadClockListError};
use comploader::tls::TlsObject;
use comploader::tx::{TxCell, TxError, TxHandle, UnsafeTxHandle};

#[test]
fn machine_post_init_is_a_no_op() {
    machine_post_init();
}

#[test]
fn perms_from_protections() {
    let mut p = Protections::read();
    p.insert(Protections::exec());
    let mp = MappingPerms::from(p);
    assert!(mp.contains(MappingPerms::read()));
    assert!(!mp.contains(MappingPerms::write()));
    assert!(mp.contains(MappingPerms::execute()));
    let mf = MapFlags::from(mp);
    assert_eq!(mf.bits, 1 | 4);
    assert_eq!(MapFlags::from(MappingPerms::empty()).bits, 0);
}

#[test]
fn slots_are_gigabyte_granular() {
    assert_eq!(addr_to_slot(0), 0);
    assert_eq!(addr_to_slot(0x3FFF_FFFF), 0);
    assert_eq!(addr_to_slot(0x4000_0000), 1);
    assert_eq!(addr_to_slot(0xC000_0123), 3);
}

#[test]
fn context_mappings_round_trip() {
    let mut inner = MemoryContextInner::new();
    let m = Mapping::new(42, 1, 3, MappingPerms::read());
    inner.insert_mapping(m);
    let addr = 3u64 * 0x4000_0000 + 0x1000;
    let found = inner.lookup_object(addr).expect("slot 3 mapped");
    assert_eq!(found.obj, 42);
    assert!(inner.lookup_object(0).is_none());
    // overwriting the slot replaces the mapping
    let m2 = Mapping::new(77, 1, 3, MappingPerms::write());
    inner.insert_mapping(m2);
    assert_eq!(inner.lookup_object(addr).unwrap().obj, 77);
    assert_eq!(inner.slots.len(), 1);
}

#[test]
fn last_thread_out_clears_mappings() {
    let mut inner = MemoryContextInner::new();
    inner.insert_mapping(Mapping::new(42, 1, 0, MappingPerms::read()));
    inner.add_thread();
    inner.add_thread();
    inner.remove_thread();
    assert_eq!(inner.slots.len(), 1);
    inner.remove_thread();
    assert_eq!(inner.slots.len(), 0);
}

#[test]
fn upcall_address_round_trip() {
    let mut ctx = MemoryContext::new();
    assert_eq!(ctx.get_upcall_address(), None);
    ctx.set_upcall_address(0x1234);
    assert_eq!(ctx.get_upcall_address(), Some(0x1234));
    let a = MemoryContext::with_id(5);
    let b = MemoryContext::with_id(5);
    let c = MemoryContext::with_id(6);
    assert!(a == b);
    assert!(!(a == c));
}

#[test]
fn clock_error_codes_round_trip() {
    assert_eq!(ReadClockInfoError::from(1u64), ReadClockInfoError::InvalidArgument);
    assert_eq!(ReadClockInfoError::from(0u64), ReadClockInfoError::Unknown);
    assert_eq!(ReadClockInfoError::from(999u64), ReadClockInfoError::Unknown);
    assert_eq!(u64::from(ReadClockInfoError::InvalidArgument), 1);
    assert_eq!(u64::from(ReadClockInfoError::Unknown), 0);
    assert_eq!(ReadClockListError::from(1u64), ReadClockListError::InvalidArgument);
    assert_eq!(u64::from(ReadClockListError::Unknown), 0);
    assert_eq!(ReadClockInfoError::Unknown.as_str(), "an unknown error occurred");
    assert_eq!(ReadClockListError::InvalidArgument.as_str(), "invalid argument");
}

#[test]
fn clock_sources_encode_and_decode() {
    assert_eq!(ClockSource::from(0u64), ClockSource::BestMonotonic);
    assert_eq!(ClockSource::from(1u64), ClockSource::BestRealTime);
    assert_eq!(ClockSource::from(7u64), ClockSource::ID(ClockID(7)));
    assert_eq!(u64::from(ClockSource::BestMonotonic), 0);
    assert_eq!(u64::from(ClockSource::BestRealTime), 1);
    assert_eq!(u64::from(ClockSource::ID(ClockID(7))), 7);
}

struct FixedPins {
    result: Option<(u64, Vec<u64>)>,
}

impl PinSource for FixedPins {
    fn pin_pages(&mut self, _obj_id: u128, _start: u64, _count: usize) -> Option<(u64, Vec<u64>)> {
        self.result.clone()
    }
}

#[test]
fn dma_page_accounting() {
    let r = DmaRegion::new(9, 1, Access::BiDirectional, DmaOptions::empty(), 0);
    assert_eq!(r.nr_pages(), 1);
    let r = DmaRegion::new(9, 0x1000, Access::BiDirectional, DmaOptions::empty(), 0);
    assert_eq!(r.nr_pages(), 1);
    let r = DmaRegion::new(9, 0x1001, Access::BiDirectional, DmaOptions::empty(), 0);
    assert_eq!(r.nr_pages(), 2);
    assert_eq!(r.num_bytes(), 0x1001);
    assert_eq!(r.access(), Access::BiDirectional);
}

#[test]
fn dma_pin_decodes_kernel_result() {
    // 2 pages pinned (high half), token 0xBEEF (low half).
    let mut r = DmaRegion::new(9, 0x1001, Access::DeviceToHost, DmaOptions::empty(), 0);
    let mut src = FixedPins { result: Some(((2u64 << 32) | 0xBEEF, vec![0x7000, 0x8000])) };
    let pin = r.pin(&mut src).expect("pin succeeds");
    assert_eq!(pin.phys, &vec![0x7000, 0x8000]);
    assert_eq!(r.backing.as_ref().unwrap().1, 0xBEEF);
}

#[test]
fn dma_pin_exhaustion_and_garbled_results() {
    let mut r = DmaRegion::new(9, 0x2000, Access::DeviceToHost, DmaOptions::empty(), 0);
    let mut too_few = FixedPins { result: Some(((1u64 << 32) | 1, vec![0x7000])) };
    assert_eq!(r.setup_backing(&mut too_few), Err(PinError::Exhausted));
    let mut too_many = FixedPins { result: Some(((3u64 << 32) | 1, vec![1, 2, 3])) };
    assert_eq!(r.setup_backing(&mut too_many), Err(PinError::InternalError));
    let mut failed = FixedPins { result: None };
    assert_eq!(r.setup_backing(&mut failed), Err(PinError::InternalError));
    let mut mismatched = FixedPins { result: Some(((2u64 << 32) | 1, vec![1])) };
    assert_eq!(r.setup_backing(&mut mismatched), Err(PinError::InternalError));
}

#[test]
fn dma_slice_region_accounting() {
    let s = DmaSliceRegion::new(9, 0x4000, Access::HostToDevice, DmaOptions::empty(), 0, 512, 8);
    assert_eq!(s.num_bytes(), 0x4000);
    assert_eq!(s.len(), 512);
    assert_eq!(s.access(), Access::HostToDevice);
}

#[test]
fn coherence_rules_follow_access_direction() {
    assert_eq!(read_sync_mode(Access::HostToDevice), None);
    assert_eq!(read_sync_mode(Access::DeviceToHost), Some(SyncMode::PostDeviceToCpu));
    assert_eq!(read_sync_mode(Access::BiDirectional), Some(SyncMode::PostDeviceToCpu));
    assert_eq!(pre_write_sync_mode(Access::HostToDevice), SyncMode::PreCpuToDevice);
    assert_eq!(pre_write_sync_mode(Access::DeviceToHost), SyncMode::PostDeviceToCpu);
    assert_eq!(pre_write_sync_mode(Access::BiDirectional), SyncMode::FullCoherence);
    assert_eq!(post_write_sync_mode(Access::DeviceToHost), None);
    assert_eq!(post_write_sync_mode(Access::HostToDevice), Some(SyncMode::PostCpuToDevice));
}

#[test]
fn tx_cell_set_and_abort() {
    let mut cell: TxCell<u32> = TxCell::new(5);
    assert_eq!(*cell.get(), 5);
    let tx = UnsafeTxHandle::new();
    cell.set(9, &tx).expect("unsafe handle allows everything");
    assert_eq!(*cell.get(), 9);

    struct Frozen;
    impl TxHandle for Frozen {
        fn tx_check(&self) -> Result<(), TxError<()>> {
            Err(TxError::Immutable)
        }
    }
    let err = cell.set(11, &Frozen).expect_err("frozen handle refuses");
    assert_eq!(err, TxError::Immutable);
    assert_eq!(*cell.get(), 9);
}

#[test]
fn tx_error_from_abort_value() {
    let e: TxError<&str> = TxError::from("boom");
    assert_eq!(e, TxError::Abort("boom"));
}

#[test]
fn global_ptr_carries_location() {
    let p: GlobalPtr<u64> = GlobalPtr::new(42, 0x100);
    assert_eq!(p.id(), 42);
    assert_eq!(p.offset(), 0x100);
    let q: GlobalPtr<u8> = p.cast();
    assert_eq!(q.id(), 42);
    assert_eq!(q.offset(), 0x100);
    let r = p.clone();
    assert_eq!(r.id(), 42);
}

#[test]
fn inv_ptr_raw_round_trip() {
    let p: InvPtr<u32> = InvPtr::from_raw(0xABCD);
    assert_eq!(p.raw(), 0xABCD);
}

#[test]
fn tls_object_accounting() {
    let t = TlsObject::new(1, 2, 0x8000, 16);
    assert_eq!(t.handle_id, 1);
    assert_eq!(t.comphandle_id, 2);
    assert_eq!(t.stack_size, 0x8000);
    assert_eq!(t.tls_size, 0);
    assert_eq!(t.init_size, 16);
}

#[test]
fn monitor_state_registers_comps() {
    let ctx = comploader::context::Context::new();
    let mut state = MonitorState::new(ctx, String::from("libmon.so"));
    state.add_comp(Comp::new(9, 0));
    state.add_comp(Comp::new(10, 1));
    assert_eq!(state.comps.len(), 2);
    assert_eq!(state.comps[0].sctx_id, 9);
    // with no monitor compartment loaded there is no nth library
    assert!(state.get_nth_library(0).is_none());
}

#[test]
fn monitor_comp_registration_overwrites_by_sctx() {
    let ctx = comploader::context::Context::new();
    let mut state = MonitorState::new(ctx, String::from("libmon.so"));
    state.add_comp(Comp::new(9, 0));
    state.add_comp(Comp::new(9, 5));
    assert_eq!(state.comps.len(), 1);
    assert_eq!(state.comps[0].compartment_id, 5);
    state.add_comp(Comp::new(10, 1));
    assert_eq!(state.comps.len(), 2);
}

struct CountingPins {
    calls: usize,
}

impl PinSource for CountingPins {
    fn pin_pages(&mut self, _obj_id: u128, _start: u64, _count: usize) -> Option<(u64, Vec<u64>)> {
        self.calls += 1;
        Some(((1u64 << 32) | 7, vec![0x9000]))
    }
}

#[test]
fn pin_is_idempotent() {
    // A second pin keeps the cached backing and asks the kernel nothing.
    let mut r = DmaRegion::new(9, 0x800, Access::DeviceToHost, DmaOptions::empty(), 0);
    let mut src = CountingPins { calls: 0 };
    r.pin(&mut src).expect("first pin");
    r.pin(&mut src).expect("second pin");
    assert_eq!(src.calls, 1);
    assert_eq!(r.backing.as_ref().unwrap().0, vec![0x9000]);
}
