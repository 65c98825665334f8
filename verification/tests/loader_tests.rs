//! Tests of the compartment loader and the bring-up driver.

use comploader::context::{Resolution, Selector};
use comploader::ctors::CtorInfo;
use comploader::errors::LoadError;
use comploader::image::Backing;
use comploader::library::UnloadedLibrary;
use comploader::loader::{
    CompMan, CompManInner, ExtraCompInfo, Loader, RecordingStarter, RunComp, RUNTIME_NAME,
};

/// Build a minimal little-endian ELF64 shared object with a dynamic
/// symbol table, a dynamic string table, and a dynamic section.
fn build_elf(
    needed: &[&str],
    syms: &[(&str, u64, u64, u16)],
    init: Option<u64>,
    entry: u64,
) -> Vec<u8> {
    let mut strtab: Vec<u8> = vec![0];
    let mut needed_offs: Vec<u64> = Vec::new();
    for n in needed {
        needed_offs.push(strtab.len() as u64);
        strtab.extend_from_slice(n.as_bytes());
        strtab.push(0);
    }
    let mut sym_offs: Vec<u32> = Vec::new();
    for (n, _, _, _) in syms {
        sym_offs.push(strtab.len() as u32);
        strtab.extend_from_slice(n.as_bytes());
        strtab.push(0);
    }

    let dynsym_off = 64usize;
    let nsyms = 1 + syms.len();
    let dynsym_size = nsyms * 24;
    let strtab_off = dynsym_off + dynsym_size;
    let strtab_size = strtab.len();
    let dyn_off = strtab_off + strtab_size;
    let ndyn = needed.len() + if init.is_some() { 1 } else { 0 } + 1;
    let dyn_size = ndyn * 16;
    let shoff = dyn_off + dyn_size;

    let mut v: Vec<u8> = Vec::new();
    v.extend_from_slice(&[0x7f, b'E', b'L', b'F', 2, 1, 1, 0, 0, 0, 0, 0, 0, 0, 0, 0]);
    v.extend_from_slice(&3u16.to_le_bytes());
    v.extend_from_slice(&62u16.to_le_bytes());
    v.extend_from_slice(&1u32.to_le_bytes());
    v.extend_from_slice(&entry.to_le_bytes());
    v.extend_from_slice(&0u64.to_le_bytes());
    v.extend_from_slice(&(shoff as u64).to_le_bytes());
    v.extend_from_slice(&0u32.to_le_bytes());
    v.extend_from_slice(&64u16.to_le_bytes());
    v.extend_from_slice(&56u16.to_le_bytes());
    v.extend_from_slice(&0u16.to_le_bytes());
    v.extend_from_slice(&64u16.to_le_bytes());
    v.extend_from_slice(&4u16.to_le_bytes());
    v.extend_from_slice(&0u16.to_le_bytes());

    v.extend_from_slice(&[0u8; 24]);
    for (i, (_, val, sz, shndx)) in syms.iter().enumerate() {
        v.extend_from_slice(&sym_offs[i].to_le_bytes());
        v.push(0);
        v.push(0);
        v.extend_from_slice(&shndx.to_le_bytes());
        v.extend_from_slice(&val.to_le_bytes());
        v.extend_from_slice(&sz.to_le_bytes());
    }
    v.extend_from_slice(&strtab);
    for off in &needed_offs {
        v.extend_from_slice(&1u64.to_le_bytes());
        v.extend_from_slice(&off.to_le_bytes());
    }
    if let Some(ia) = init {
        v.extend_from_slice(&12u64.to_le_bytes());
        v.extend_from_slice(&ia.to_le_bytes());
    }
    v.extend_from_slice(&0u64.to_le_bytes());
    v.extend_from_slice(&0u64.to_le_bytes());

    let shdr = |v: &mut Vec<u8>, ty: u32, off: usize, size: usize, link: u32, info: u32, entsize: u64| {
        v.extend_from_slice(&0u32.to_le_bytes());
        v.extend_from_slice(&ty.to_le_bytes());
        v.extend_from_slice(&0u64.to_le_bytes());
        v.extend_from_slice(&0u64.to_le_bytes());
        v.extend_from_slice(&(off as u64).to_le_bytes());
        v.extend_from_slice(&(size as u64).to_le_bytes());
        v.extend_from_slice(&link.to_le_bytes());
        v.extend_from_slice(&info.to_le_bytes());
        v.extend_from_slice(&1u64.to_le_bytes());
        v.extend_from_slice(&entsize.to_le_bytes());
    };
    v.extend_from_slice(&[0u8; 64]);
    shdr(&mut v, 11, dynsym_off, dynsym_size, 2, 1, 24);
    shdr(&mut v, 3, strtab_off, strtab_size, 0, 0, 0);
    shdr(&mut v, 6, dyn_off, dyn_size, 2, 0, 16);
    v
}

/// A selector over a fixed name table; a name may carry a compartment
/// redirect.
struct TableSelector {
    files: Vec<(String, Vec<u8>, Option<String>)>,
}

impl TableSelector {
    fn add(&mut self, name: &str, data: Vec<u8>) {
        self.files.push((name.to_string(), data, None));
    }

    fn add_in(&mut self, name: &str, data: Vec<u8>, comp: &str) {
        self.files.push((name.to_string(), data, Some(comp.to_string())));
    }
}

impl Selector for TableSelector {
    fn resolve_name(&self, name: &str) -> Option<Resolution> {
        for (i, (n, data, redirect)) in self.files.iter().enumerate() {
            if n == name {
                let backing = Backing::new(i as u128 + 1, data.clone());
                return Some(match redirect {
                    None => Resolution::Local(backing),
                    Some(c) => Resolution::InCompartment(c.clone(), backing),
                });
            }
        }
        None
    }
}

fn rt_image() -> Vec<u8> {
    // The runtime image: an entry point inside the image, no deps.
    build_elf(&[], &[], None, 0x40)
}

#[test]
fn simple_load_builds_topological_ctors() {
    // root needs libA; libA needs libB; all in one compartment.  The
    // constructor list runs dependencies first: B, then A, then root.
    let mut sel = TableSelector { files: vec![] };
    sel.add("root.so", build_elf(&["libA.so"], &[], Some(0x10), 0));
    sel.add("libA.so", build_elf(&["libB.so"], &[], Some(0x20), 0));
    sel.add("libB.so", build_elf(&[], &[], Some(0x30), 0));
    sel.add(RUNTIME_NAME, rt_image());
    let mut man = CompMan::new();
    let loader = man
        .load_compartment("test", UnloadedLibrary::new("root.so"), &sel)
        .expect("load succeeds");
    assert_eq!(loader.extra_compartments.len(), 0);
    let ctors: &Vec<CtorInfo> = &loader.root_comp.ctor_info;
    let root_id = loader.root_comp.root_id;
    // root is last
    assert_eq!(ctors[ctors.len() - 1].lib, root_id);
    // find positions by name
    let pos = |name: &str| -> usize {
        for (k, c) in ctors.iter().enumerate() {
            let lib = man.inner.dynlink.get_library(c.lib).unwrap();
            if lib.name == name {
                return k;
            }
        }
        panic!("{} not in ctor list", name);
    };
    assert!(pos("libB.so") < pos("libA.so"));
    assert!(pos("libA.so") < pos("root.so"));
    // constructor addresses are rebased to each library's load base
    for c in loader.root_comp.ctor_info.iter() {
        let lib = man.inner.dynlink.get_library(c.lib).unwrap();
        if lib.name == "libB.so" {
            assert_eq!(c.ctor, Some(lib.base + 0x30));
        }
    }
    // the whole closure is relocated
    let root_lib = man.inner.dynlink.get_library(root_id).unwrap();
    assert!(root_lib.relocated);
}

#[test]
fn shared_compartment_gets_one_bringup() {
    // root needs libA and libB; libA needs libstd-1.0, which normalizes
    // to libstd.so and resolves into the shared compartment; libB needs
    // libstd.so too.  The loader emits exactly one bring-up record for
    // the shared compartment, not two.
    let mut sel = TableSelector { files: vec![] };
    sel.add("root.so", build_elf(&["libA.so", "libB.so"], &[], None, 0));
    sel.add("libA.so", build_elf(&["libstd-1.0"], &[], None, 0));
    sel.add("libB.so", build_elf(&["libstd.so"], &[], None, 0));
    sel.add_in("libstd.so", build_elf(&[], &[], Some(0x50), 0), "shared");
    sel.add(RUNTIME_NAME, rt_image());
    let mut man = CompMan::new();
    let loader = man
        .load_compartment("test", UnloadedLibrary::new("root.so"), &sel)
        .expect("load succeeds");
    assert_eq!(loader.extra_compartments.len(), 1);
    let shared = &loader.extra_compartments[0];
    assert_eq!(shared.comp.name, "shared");
    // the shared compartment holds exactly one libstd plus the runtime
    let comp = man.inner.dynlink.get_compartment(shared.comp.compartment_id).unwrap();
    let mut nstd = 0;
    for id in comp.lib_ids.iter() {
        let lib = man.inner.dynlink.get_library(*id).unwrap();
        if lib.name == "libstd.so" {
            nstd += 1;
        }
    }
    assert_eq!(nstd, 1);
}

#[test]
fn duplicate_compartment_rejected_and_state_unchanged() {
    let mut sel = TableSelector { files: vec![] };
    sel.add("root.so", build_elf(&[], &[], None, 0));
    sel.add(RUNTIME_NAME, rt_image());
    let mut man = CompMan::new();
    man.load_compartment("test", UnloadedLibrary::new("root.so"), &sel).expect("first load");
    let nlibs = man.inner.dynlink.libraries.len();
    let ncomps = man.inner.dynlink.compartments.len();
    let err = match man.load_compartment("test", UnloadedLibrary::new("root.so"), &sel) {
        Err(e) => e,
        Ok(_) => panic!("same name again must fail"),
    };
    assert_eq!(err, LoadError::DuplicateCompartment);
    assert_eq!(man.inner.dynlink.libraries.len(), nlibs);
    assert_eq!(man.inner.dynlink.compartments.len(), ncomps);
}

#[test]
fn unresolved_dependency_aborts_and_rolls_back() {
    // A failed load registers nothing: the state is exactly as before.
    let mut sel = TableSelector { files: vec![] };
    sel.add("root.so", build_elf(&["libMissing.so"], &[], None, 0));
    sel.add(RUNTIME_NAME, rt_image());
    let mut man = CompMan::new();
    let err = match man.load_compartment("test", UnloadedLibrary::new("root.so"), &sel) {
        Err(e) => e,
        Ok(_) => panic!("missing dependency must fail"),
    };
    match err {
        LoadError::Dependency(es) => {
            assert_eq!(es.len(), 1);
        },
        other => panic!("unexpected error {:?}", other.as_str()),
    }
    assert_eq!(man.inner.dynlink.libraries.len(), 0);
    assert_eq!(man.inner.dynlink.compartments.len(), 0);
}

#[test]
fn runtime_injection_is_idempotent() {
    // Injecting the shared runtime into the same compartment twice
    // yields the same library id both times, and the second call leaves
    // the state untouched.
    let mut sel = TableSelector { files: vec![] };
    sel.add(RUNTIME_NAME, rt_image());
    let mut inner = CompManInner::new();
    let comp = inner.dynlink.add_compartment("c").unwrap();
    let root = inner.dynlink.register_library(
        comp,
        String::from("root.so"),
        Backing::new(99, build_elf(&[], &[], None, 0)),
    );
    let rt1 = inner.maybe_inject_rt(root, comp, &sel).expect("first injection");
    let nlibs = inner.dynlink.libraries.len();
    let rt2 = inner.maybe_inject_rt(root, comp, &sel).expect("second injection");
    assert_eq!(rt1, rt2);
    assert_eq!(inner.dynlink.libraries.len(), nlibs);
}

#[test]
fn cyclic_dependencies_are_a_hard_error() {
    let mut sel = TableSelector { files: vec![] };
    sel.add("root.so", build_elf(&["libA.so"], &[], None, 0));
    sel.add("libA.so", build_elf(&["root.so"], &[], None, 0));
    sel.add(RUNTIME_NAME, rt_image());
    let mut man = CompMan::new();
    let err = match man.load_compartment("test", UnloadedLibrary::new("root.so"), &sel) {
        Err(e) => e,
        Ok(_) => panic!("cycle must fail"),
    };
    assert!(matches!(err, LoadError::Dependency(_)));
    assert_eq!(man.inner.dynlink.libraries.len(), 0);
}

#[test]
fn unbound_symbol_fails_relocation() {
    // root references an undefined symbol nothing defines.
    let mut sel = TableSelector { files: vec![] };
    sel.add("root.so", build_elf(&[], &[("missing_sym", 0, 0, 0)], None, 0));
    sel.add(RUNTIME_NAME, rt_image());
    let mut man = CompMan::new();
    let err = match man.load_compartment("test", UnloadedLibrary::new("root.so"), &sel) {
        Err(e) => e,
        Ok(_) => panic!("binding must fail"),
    };
    assert_eq!(err, LoadError::Relocation);
    assert_eq!(man.inner.dynlink.libraries.len(), 0);
}

#[test]
fn undefined_symbol_binds_against_closure() {
    // root references a symbol that libA defines; relocation binds it.
    let mut sel = TableSelector { files: vec![] };
    sel.add(
        "root.so",
        build_elf(&["libA.so"], &[("shared_fn", 0, 0, 0)], None, 0),
    );
    sel.add("libA.so", build_elf(&[], &[("shared_fn", 0x200, 8, 1)], None, 0));
    sel.add(RUNTIME_NAME, rt_image());
    let mut man = CompMan::new();
    man.load_compartment("test", UnloadedLibrary::new("root.so"), &sel)
        .expect("binding succeeds");
}

#[test]
fn missing_entry_point_reported() {
    // The runtime image's entry lies outside the image: no usable entry.
    let mut sel = TableSelector { files: vec![] };
    sel.add("root.so", build_elf(&[], &[], None, 0));
    sel.add(RUNTIME_NAME, build_elf(&[], &[], None, 0x99_9999));
    let mut man = CompMan::new();
    let err = match man.load_compartment("test", UnloadedLibrary::new("root.so"), &sel) {
        Err(e) => e,
        Ok(_) => panic!("out-of-range entry must fail"),
    };
    assert_eq!(err, LoadError::MissingEntry);
}

#[test]
fn start_main_reverses_extras_and_starts_root_last() {
    // start_main starts extra compartments in exact reverse of the order
    // they were emitted, and the root compartment strictly last.
    let mk_extra = |sctx: u128, entry: u64| ExtraCompInfo {
        root_id: 0,
        rt_id: 0,
        sctx_id: sctx,
        comp: RunComp::new(sctx, sctx, &String::from("c"), 0, 0),
        ctor_info: Vec::new(),
        entry_point: entry,
    };
    let loader = Loader {
        extra_compartments: vec![mk_extra(10, 100), mk_extra(11, 101), mk_extra(12, 102)],
        records: Vec::new(),
        start_unload: 0,
        root_comp: mk_extra(1, 500),
    };
    let mut starter = RecordingStarter::new();
    let waiter = loader.start_main(&mut starter).expect("all start");
    assert_eq!(waiter.sctx_id, 1);
    assert_eq!(
        starter.started,
        vec![(12u128, 102u64), (11, 101), (10, 100), (1, 500)]
    );
}

#[test]
fn loaded_compartment_reaches_start() {
    // End to end: load, then start; the recorded start order ends with
    // the root compartment.
    let mut sel = TableSelector { files: vec![] };
    sel.add("root.so", build_elf(&["libstd.so"], &[], None, 0));
    sel.add_in("libstd.so", build_elf(&[], &[], None, 0), "shared");
    sel.add(RUNTIME_NAME, rt_image());
    let mut man = CompMan::new();
    let loader = man
        .load_compartment("main", UnloadedLibrary::new("root.so"), &sel)
        .expect("load succeeds");
    assert_eq!(loader.extra_compartments.len(), 1);
    let mut starter = RecordingStarter::new();
    let waiter = loader.start_main(&mut starter).expect("all start");
    assert_eq!(starter.started.len(), 2);
    // the shared compartment starts first, the root last
    assert_eq!(starter.started[0].0, loader.extra_compartments[0].sctx_id);
    assert_eq!(starter.started[1].0, loader.root_comp.sctx_id);
    assert_eq!(waiter.sctx_id, loader.root_comp.sctx_id);
}

#[test]
fn later_load_reuses_existing_shared_compartment() {
    // A second load whose dependency resolves into a compartment that an
    // earlier load already populated reuses the canonical instance: the
    // shared compartment gains no second copy, and the second loader
    // still carries exactly one bring-up record for it.
    let mut sel = TableSelector { files: vec![] };
    sel.add("first.so", build_elf(&["libstd.so"], &[], None, 0));
    sel.add("second.so", build_elf(&["libstd-2.0"], &[], None, 0));
    sel.add_in("libstd.so", build_elf(&[], &[], Some(0x50), 0), "shared");
    sel.add(RUNTIME_NAME, rt_image());
    let mut man = CompMan::new();
    man.load_compartment("one", UnloadedLibrary::new("first.so"), &sel)
        .expect("first load");
    let shared_id = man.inner.dynlink.lookup_compartment("shared").expect("shared exists");
    let std_id = man
        .inner
        .dynlink
        .lookup_library(shared_id, "libstd.so")
        .expect("libstd loaded");
    let loader = man
        .load_compartment("two", UnloadedLibrary::new("second.so"), &sel)
        .expect("second load");
    assert_eq!(loader.extra_compartments.len(), 1);
    assert_eq!(loader.extra_compartments[0].comp.compartment_id, shared_id);
    // still the same, single canonical instance
    assert_eq!(
        man.inner.dynlink.lookup_library(shared_id, "libstd.so"),
        Some(std_id)
    );
    let comp = man.inner.dynlink.get_compartment(shared_id).unwrap();
    let mut nstd = 0;
    for id in comp.lib_ids.iter() {
        if man.inner.dynlink.get_library(*id).unwrap().name == "libstd.so" {
            nstd += 1;
        }
    }
    assert_eq!(nstd, 1);
}

struct FailingStarter {
    started: Vec<(u128, u64)>,
    fail_after: usize,
}

impl comploader::loader::Starter for FailingStarter {
    fn start_compartment(
        &mut self,
        comp: &RunComp,
        _ctor_info: &Vec<CtorInfo>,
        entry_point: u64,
    ) -> Result<comploader::loader::MainThreadReadyWaiter, comploader::errors::StartError> {
        if self.started.len() >= self.fail_after {
            return Err(comploader::errors::StartError { sctx_id: comp.sctx_id });
        }
        self.started.push((comp.sctx_id, entry_point));
        Ok(comploader::loader::MainThreadReadyWaiter { sctx_id: comp.sctx_id })
    }
}

#[test]
fn start_failure_names_the_compartment_and_stops() {
    // A start failure aborts the sequence and names the compartment that
    // failed; compartments already started are not rolled back.
    let mk_extra = |sctx: u128, entry: u64| ExtraCompInfo {
        root_id: 0,
        rt_id: 0,
        sctx_id: sctx,
        comp: RunComp::new(sctx, sctx, &String::from("c"), 0, 0),
        ctor_info: Vec::new(),
        entry_point: entry,
    };
    let loader = Loader {
        extra_compartments: vec![mk_extra(10, 100), mk_extra(11, 101)],
        records: Vec::new(),
        start_unload: 0,
        root_comp: mk_extra(1, 500),
    };
    let mut starter = FailingStarter { started: Vec::new(), fail_after: 1 };
    let err = match loader.start_main(&mut starter) {
        Err(e) => e,
        Ok(_) => panic!("second start must fail"),
    };
    // extras start in reverse order: 11 started, then 10 failed
    assert_eq!(starter.started, vec![(11u128, 101u64)]);
    assert_eq!(err.sctx_id, 10);
}

#[test]
fn load_records_cover_every_touched_compartment() {
    // The records list every resolved dependency, root first; every
    // non-root compartment among them has a bring-up record.
    let mut sel = TableSelector { files: vec![] };
    sel.add("root.so", build_elf(&["libA.so", "libstd.so"], &[], None, 0));
    sel.add("libA.so", build_elf(&[], &[], None, 0));
    sel.add_in("libstd.so", build_elf(&[], &[], None, 0), "shared");
    sel.add(RUNTIME_NAME, rt_image());
    let mut man = CompMan::new();
    let loader = man
        .load_compartment("main", UnloadedLibrary::new("root.so"), &sel)
        .expect("load succeeds");
    assert!(loader.records.len() >= 3);
    assert_eq!(loader.records[0].lib, loader.root_comp.root_id);
    for rec in loader.records.iter() {
        if rec.comp != loader.root_comp.comp.compartment_id {
            assert!(loader
                .extra_compartments
                .iter()
                .any(|e| e.comp.compartment_id == rec.comp));
        }
    }
}

#[test]
fn security_context_ids_are_fresh_and_distinct() {
    // Ids come from a strictly increasing counter: the extras get
    // consecutive ids, the root the next one, and a second load starts
    // beyond them.
    let mut sel = TableSelector { files: vec![] };
    sel.add("root.so", build_elf(&["libstd.so"], &[], None, 0));
    sel.add("other.so", build_elf(&[], &[], None, 0));
    sel.add_in("libstd.so", build_elf(&[], &[], None, 0), "shared");
    sel.add(RUNTIME_NAME, rt_image());
    let mut man = CompMan::new();
    let first = man
        .load_compartment("one", UnloadedLibrary::new("root.so"), &sel)
        .expect("first load");
    assert_eq!(first.extra_compartments.len(), 1);
    assert_eq!(first.extra_compartments[0].sctx_id, 1);
    assert_eq!(first.root_comp.sctx_id, 2);
    let second = man
        .load_compartment("two", UnloadedLibrary::new("other.so"), &sel)
        .expect("second load");
    assert_eq!(second.root_comp.sctx_id, 3);
    assert_ne!(first.root_comp.sctx_id, second.root_comp.sctx_id);
}
