//! Tests of image parsing, dependency enumeration, and symbol lookup.

use comploader::errors::DependencyError;
use comploader::image::{init_addr, needed_name_offsets, Backing};
use comploader::library::{normalize_name, Library, LibraryLoader};
use comploader::symbol::{lookup_by_id, lookup_unrelocated, Symbol, SymbolId, SymbolName};

/// Build a minimal little-endian ELF64 shared object with a dynamic
/// symbol table, a dynamic string table, and a dynamic section.
fn build_elf(
    needed: &[&str],
    syms: &[(&str, u64, u64, u16)],
    init: Option<u64>,
    entry: u64,
) -> Vec<u8> {
    let mut strtab: Vec<u8> = vec![0];
    let mut needed_offs: Vec<u64> = Vec::new();
    for n in needed {
        needed_offs.push(strtab.len() as u64);
        strtab.extend_from_slice(n.as_bytes());
        strtab.push(0);
    }
    let mut sym_offs: Vec<u32> = Vec::new();
    for (n, _, _, _) in syms {
        sym_offs.push(strtab.len() as u32);
        strtab.extend_from_slice(n.as_bytes());
        strtab.push(0);
    }

    let dynsym_off = 64usize;
    let nsyms = 1 + syms.len();
    let dynsym_size = nsyms * 24;
    let strtab_off = dynsym_off + dynsym_size;
    let strtab_size = strtab.len();
    let dyn_off = strtab_off + strtab_size;
    let ndyn = needed.len() + if init.is_some() { 1 } else { 0 } + 1;
    let dyn_size = ndyn * 16;
    let shoff = dyn_off + dyn_size;

    let mut v: Vec<u8> = Vec::new();
    v.extend_from_slice(&[0x7f, b'E', b'L', b'F', 2, 1, 1, 0, 0, 0, 0, 0, 0, 0, 0, 0]);
    v.extend_from_slice(&3u16.to_le_bytes());
    v.extend_from_slice(&62u16.to_le_bytes());
    v.extend_from_slice(&1u32.to_le_bytes());
    v.extend_from_slice(&entry.to_le_bytes());
    v.extend_from_slice(&0u64.to_le_bytes());
    v.extend_from_slice(&(shoff as u64).to_le_bytes());
    v.extend_from_slice(&0u32.to_le_bytes());
    v.extend_from_slice(&64u16.to_le_bytes());
    v.extend_from_slice(&56u16.to_le_bytes());
    v.extend_from_slice(&0u16.to_le_bytes());
    v.extend_from_slice(&64u16.to_le_bytes());
    v.extend_from_slice(&4u16.to_le_bytes());
    v.extend_from_slice(&0u16.to_le_bytes());
    assert_eq!(v.len(), 64);

    v.extend_from_slice(&[0u8; 24]);
    for (i, (_, val, sz, shndx)) in syms.iter().enumerate() {
        v.extend_from_slice(&sym_offs[i].to_le_bytes());
        v.push(0);
        v.push(0);
        v.extend_from_slice(&shndx.to_le_bytes());
        v.extend_from_slice(&val.to_le_bytes());
        v.extend_from_slice(&sz.to_le_bytes());
    }
    assert_eq!(v.len(), strtab_off);
    v.extend_from_slice(&strtab);
    for off in &needed_offs {
        v.extend_from_slice(&1u64.to_le_bytes());
        v.extend_from_slice(&off.to_le_bytes());
    }
    if let Some(ia) = init {
        v.extend_from_slice(&12u64.to_le_bytes());
        v.extend_from_slice(&ia.to_le_bytes());
    }
    v.extend_from_slice(&0u64.to_le_bytes());
    v.extend_from_slice(&0u64.to_le_bytes());
    assert_eq!(v.len(), shoff);

    let shdr = |v: &mut Vec<u8>, ty: u32, off: usize, size: usize, link: u32, info: u32, entsize: u64| {
        v.extend_from_slice(&0u32.to_le_bytes());
        v.extend_from_slice(&ty.to_le_bytes());
        v.extend_from_slice(&0u64.to_le_bytes());
        v.extend_from_slice(&0u64.to_le_bytes());
        v.extend_from_slice(&(off as u64).to_le_bytes());
        v.extend_from_slice(&(size as u64).to_le_bytes());
        v.extend_from_slice(&link.to_le_bytes());
        v.extend_from_slice(&info.to_le_bytes());
        v.extend_from_slice(&1u64.to_le_bytes());
        v.extend_from_slice(&entsize.to_le_bytes());
    };
    v.extend_from_slice(&[0u8; 64]);
    shdr(&mut v, 11, dynsym_off, dynsym_size, 2, 1, 24);
    shdr(&mut v, 3, strtab_off, strtab_size, 0, 0, 0);
    shdr(&mut v, 6, dyn_off, dyn_size, 2, 0, 16);
    v
}

struct MapLoader {
    files: Vec<(String, Vec<u8>)>,
}

impl LibraryLoader for MapLoader {
    fn open(&mut self, name: &str) -> Option<Backing> {
        for (i, (n, data)) in self.files.iter().enumerate() {
            if n == name {
                return Some(Backing::new(i as u128 + 1, data.clone()));
            }
        }
        None
    }
}

#[test]
fn needed_names_extracted_in_order() {
    let img = build_elf(&["libA.so", "libB.so"], &[], None, 0);
    let offs = needed_name_offsets(&img).expect("dynamic section parses");
    assert_eq!(offs.len(), 2);
    // the names behind the offsets come back through the enumerator
    let a = build_elf(&[], &[], None, 0);
    let b = build_elf(&[], &[], None, 0);
    let lib = Library::new(Backing::new(7, img), String::from("root.so"));
    let mut loader = MapLoader {
        files: vec![(String::from("libA.so"), a), (String::from("libB.so"), b)],
    };
    let deps = lib.enumerate_needed(&mut loader).expect("both resolve");
    assert_eq!(deps[0].name, "libA.so");
    assert_eq!(deps[1].name, "libB.so");
}

#[test]
fn garbage_is_not_an_image() {
    let junk = vec![1u8, 2, 3, 4, 5, 6, 7, 8];
    assert!(needed_name_offsets(&junk).is_none());
    assert!(init_addr(&junk).is_none());
}

#[test]
fn init_entry_found() {
    let img = build_elf(&["libA.so"], &[], Some(0x300), 0);
    assert_eq!(init_addr(&img), Some(0x300));
    let img2 = build_elf(&["libA.so"], &[], None, 0);
    assert_eq!(init_addr(&img2), None);
}

#[test]
fn enumerator_empty_needed_list_is_ok() {
    // An image whose dynamic section lacks any needed-library entries
    // yields an empty dependency list and no error.
    let img = build_elf(&[], &[], Some(0x300), 0);
    let lib = Library::new(Backing::new(7, img), String::from("root.so"));
    let mut loader = MapLoader { files: vec![] };
    let deps = lib.enumerate_needed(&mut loader).expect("no error");
    assert_eq!(deps.len(), 0);
}

#[test]
fn enumerator_aggregates_all_failures() {
    let img = build_elf(&["libA.so", "libGone.so", "libAlsoGone.so"], &[], None, 0);
    let a = build_elf(&[], &[], None, 0);
    let lib = Library::new(Backing::new(7, img), String::from("root.so"));
    let mut loader = MapLoader { files: vec![(String::from("libA.so"), a)] };
    let errs = match lib.enumerate_needed(&mut loader) {
        Err(es) => es,
        Ok(_) => panic!("two names should be unresolved"),
    };
    assert_eq!(errs.len(), 2);
    assert_eq!(errs[0], DependencyError::UnresolvedName(String::from("libGone.so")));
    assert_eq!(errs[1], DependencyError::UnresolvedName(String::from("libAlsoGone.so")));
}

#[test]
fn enumerator_resolves_siblings() {
    let img = build_elf(&["libA.so", "libB.so"], &[], None, 0);
    let a = build_elf(&[], &[], None, 0);
    let b = build_elf(&[], &[], None, 0);
    let lib = Library::new(Backing::new(7, img), String::from("root.so"));
    let mut loader = MapLoader {
        files: vec![(String::from("libA.so"), a), (String::from("libB.so"), b)],
    };
    let deps = lib.enumerate_needed(&mut loader).expect("both resolve");
    assert_eq!(deps.len(), 2);
    assert_eq!(deps[0].name, "libA.so");
    assert_eq!(deps[1].name, "libB.so");
}

#[test]
fn malformed_image_reported() {
    let lib = Library::new(Backing::new(7, vec![0u8; 16]), String::from("root.so"));
    let mut loader = MapLoader { files: vec![] };
    let errs = match lib.enumerate_needed(&mut loader) {
        Err(es) => es,
        Ok(_) => panic!("junk is not an image"),
    };
    assert_eq!(errs.len(), 1);
    assert_eq!(errs[0], DependencyError::MalformedImage);
}

#[test]
fn symbol_lookup_by_name_and_id() {
    let img = build_elf(&[], &[("foo", 0x200, 8, 1), ("bar", 0x280, 4, 1)], None, 0);
    let name = SymbolName::new(b"bar");
    let sym = lookup_unrelocated(&img, &name).expect("bar is defined");
    assert_eq!(sym.raw().st_value, 0x280);
    assert_eq!(sym.raw().st_size, 4);
    assert_eq!(sym.addr(), 0x280);
    assert_eq!(sym.size(), 4);
    let missing = SymbolName::new(b"baz");
    assert!(lookup_unrelocated(&img, &missing).is_none());
    // index 1 is "foo": index 0 is the null symbol
    let by_id = lookup_by_id(&img, SymbolId(1)).expect("in range");
    assert_eq!(by_id.raw().st_value, 0x200);
    assert!(lookup_by_id(&img, SymbolId(99)).is_none());
}

#[test]
fn symbol_roundtrip_relocation() {
    // A symbol looked up by name in its unrelocated form and then
    // relocated reports an address inside the image's mapped range, and
    // not the raw value, because the base is nonzero.
    let img = build_elf(&[], &[("foo", 0x80, 8, 1)], None, 0);
    let size = img.len() as u64;
    assert!(0x80 < size);
    let lib = Library {
        name: String::from("libfoo.so"),
        backing: Backing::new(1, img),
        comp: 0,
        deps: Vec::new(),
        base: 0x4000_0000,
        relocated: true,
    };
    let name = SymbolName::new(b"foo");
    let raw = lookup_unrelocated(&lib.backing.data, &name).unwrap().raw().st_value;
    let rs = lib.lookup_relocated_symbol(&name).expect("foo relocates");
    assert_eq!(rs.raw().st_value, 0x4000_0000 + 0x80);
    assert!(rs.raw().st_value >= 0x4000_0000);
    assert!(rs.raw().st_value < 0x4000_0000 + size);
    assert_ne!(rs.raw().st_value, raw);
}

#[test]
fn relocation_rejects_out_of_range_symbol() {
    // A symbol whose value lies outside the image cannot be relocated.
    let img = build_elf(&[], &[("huge", 0x10_0000, 8, 1)], None, 0);
    let lib = Library {
        name: String::from("libhuge.so"),
        backing: Backing::new(1, img),
        comp: 0,
        deps: Vec::new(),
        base: 0x4000_0000,
        relocated: true,
    };
    let name = SymbolName::new(b"huge");
    assert!(lib.lookup_relocated_symbol(&name).is_none());
}

#[test]
fn name_normalization() {
    assert_eq!(normalize_name("libstd-1.0.so"), "libstd.so");
    assert_eq!(normalize_name("libstd-abc123"), "libstd.so");
    assert_eq!(normalize_name("libc.so"), "libc.so");
    assert_eq!(normalize_name("libstd"), "libstd");
    assert_eq!(normalize_name(""), "");
}
