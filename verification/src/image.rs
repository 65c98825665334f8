//! Images: opened executable artifacts, their backing storage, and the
//! parsed view of their dynamic sections.
//!
//! The executable-image format itself is parsed by the `elf` crate; this
//! module wraps the handful of calls the loader needs and exposes their
//! results as plain values.  The loader's own logic — which dynamic entries
//! name dependencies, where the initializer lives — is verified here.

use vstd::prelude::*;

verus! {

/// The dynamic-section tag that names a needed library.
pub const DT_NEEDED_TAG: i64 = 1;

/// The dynamic-section tag that names the legacy initializer address.
pub const DT_INIT_TAG: i64 = 12;

/// Backing storage for an image: the id of the object holding it and the
/// raw bytes of the file.
pub struct Backing {
    /// Id of the object the image was opened from.
    pub id: u128,
    /// The raw file contents.
    pub data: Vec<u8>,
}

impl Backing {
    /// Wrap an opened object as image backing.
    pub fn new(id: u128, data: Vec<u8>) -> (r: Backing)
        ensures
            r.id == id,
            r.data@ == data@,
    {
        Backing { id, data }
    }
}

/// The dynamic-section entries `(d_tag, d_ptr)` of an image, in table
/// order, or `None` if the file or its dynamic section cannot be parsed.
pub uninterp spec fn dyn_entries_of(data: Seq<u8>) -> Option<Seq<(i64, u64)>>;

/// The string at `off` in the image's dynamic string table, or `None` if
/// the file, the table or the offset is bad or the bytes are not UTF-8.
pub uninterp spec fn dyn_string_of(data: Seq<u8>, off: u64) -> Option<Seq<char>>;

/// The raw bytes at `off` in the image's dynamic string table, up to the
/// terminating NUL, or `None` if the file, the table or the offset is bad.
pub uninterp spec fn dyn_name_of(data: Seq<u8>, off: u64) -> Option<Seq<u8>>;

/// The dynamic symbols `(st_name, st_value, st_size, st_shndx)` of an
/// image, in table order, or `None` if they cannot be parsed.
pub uninterp spec fn dyn_symbols_of(data: Seq<u8>) -> Option<Seq<(u32, u64, u64, u16)>>;

/// The entry-point address in the image's file header, or `None` if the
/// header cannot be parsed.
pub uninterp spec fn entry_addr_of(data: Seq<u8>) -> Option<u64>;

/// Relies on `elf::ElfBytes::minimal_parse` and `find_common_data`: collects
/// the image's dynamic-section entries, in table order.  The result is a
/// function of the bytes alone.
#[verifier::external_body]
pub(crate) fn elf_dynamic_entries(data: &[u8]) -> (r: Option<Vec<(i64, u64)>>)
    ensures
        r matches Some(v) ==> dyn_entries_of(data@) == Some(v@),
        r is None ==> dyn_entries_of(data@) is None,
{
    let elf = elf::ElfBytes::<elf::endian::AnyEndian>::minimal_parse(data).ok()?;
    let common = elf.find_common_data().ok()?;
    let dynamic = common.dynamic?;
    let mut out = Vec::new();
    for d in dynamic.iter() {
        out.push((d.d_tag, d.d_ptr()));
    }
    Some(out)
}

/// Relies on `elf::string_table::StringTable::get` (via
/// `find_common_data`'s dynamic string table): returns the UTF-8 string at
/// the given offset.  The result is a function of the bytes alone.
#[verifier::external_body]
pub(crate) fn elf_dynstr_get(data: &[u8], off: u64) -> (r: Option<String>)
    ensures
        r matches Some(s) ==> dyn_string_of(data@, off) == Some(s@),
        r is None ==> dyn_string_of(data@, off) is None,
{
    let elf = elf::ElfBytes::<elf::endian::AnyEndian>::minimal_parse(data).ok()?;
    let common = elf.find_common_data().ok()?;
    let strs = common.dynsyms_strs?;
    let s = strs.get(usize::try_from(off).ok()?).ok()?;
    Some(s.to_string())
}

/// Relies on `elf::string_table::StringTable::get_raw` (via
/// `find_common_data`'s dynamic string table): returns the raw bytes at the
/// given offset, up to the NUL.  The result is a function of the bytes
/// alone.
#[verifier::external_body]
pub(crate) fn elf_dynstr_get_raw(data: &[u8], off: u64) -> (r: Option<Vec<u8>>)
    ensures
        r matches Some(b) ==> dyn_name_of(data@, off) == Some(b@),
        r is None ==> dyn_name_of(data@, off) is None,
{
    let elf = elf::ElfBytes::<elf::endian::AnyEndian>::minimal_parse(data).ok()?;
    let common = elf.find_common_data().ok()?;
    let strs = common.dynsyms_strs?;
    let raw = strs.get_raw(usize::try_from(off).ok()?).ok()?;
    Some(raw.to_vec())
}

/// Relies on `elf::symbol::SymbolTable::iter` (via `find_common_data`'s
/// `.dynsym` table): collects the dynamic symbols as plain tuples.  The
/// result is a function of the bytes alone.
#[verifier::external_body]
pub(crate) fn elf_dynamic_symbols(data: &[u8]) -> (r: Option<Vec<(u32, u64, u64, u16)>>)
    ensures
        r matches Some(v) ==> dyn_symbols_of(data@) == Some(v@),
        r is None ==> dyn_symbols_of(data@) is None,
{
    let elf = elf::ElfBytes::<elf::endian::AnyEndian>::minimal_parse(data).ok()?;
    let common = elf.find_common_data().ok()?;
    let syms = common.dynsyms?;
    let mut out = Vec::new();
    for s in syms.iter() {
        out.push((s.st_name, s.st_value, s.st_size, s.st_shndx));
    }
    Some(out)
}

/// Relies on `elf::ElfBytes::minimal_parse`: reads the entry-point address
/// from the file header.  The result is a function of the bytes alone.
#[verifier::external_body]
pub(crate) fn elf_entry_addr(data: &[u8]) -> (r: Option<u64>)
    ensures
        r == entry_addr_of(data@),
{
    let elf = elf::ElfBytes::<elf::endian::AnyEndian>::minimal_parse(data).ok()?;
    Some(elf.ehdr.e_entry)
}

/// The string-table offsets of the needed-library entries of a dynamic
/// section, in table order.
pub open spec fn needed_offsets(entries: Seq<(i64, u64)>) -> Seq<u64>
    decreases entries.len(),
{
    if entries.len() == 0 {
        Seq::empty()
    } else {
        let rest = needed_offsets(entries.drop_last());
        if entries.last().0 == DT_NEEDED_TAG {
            rest.push(entries.last().1)
        } else {
            rest
        }
    }
}

/// The address of the first legacy-initializer entry of a dynamic section,
/// if any.
pub open spec fn init_of(entries: Seq<(i64, u64)>) -> Option<u64>
    decreases entries.len(),
{
    if entries.len() == 0 {
        None
    } else if entries.first().0 == DT_INIT_TAG {
        Some(entries.first().1)
    } else {
        init_of(entries.drop_first())
    }
}

/// Extract the string-table offsets of all needed-library entries of an
/// image, in table order; `None` exactly when the dynamic section cannot
/// be parsed.
pub fn needed_name_offsets(data: &[u8]) -> (r: Option<Vec<u64>>)
    ensures
        r is Some <==> dyn_entries_of(data@) is Some,
        r matches Some(v) ==> v@ == needed_offsets(dyn_entries_of(data@).unwrap()),
{
    let entries = match elf_dynamic_entries(data) {
        Some(e) => e,
        None => {
            return None;
        },
    };
    let ghost all = entries@;
    let mut out: Vec<u64> = Vec::new();
    let mut i: usize = 0;
    while i < entries.len()
        invariant
            i <= entries.len(),
            entries@ == all,
            out@ == needed_offsets(all.take(i as int)),
        decreases entries.len() - i,
    {
        let e = entries[i];
        proof {
            assert(all.take(i + 1).drop_last() =~= all.take(i as int));
            assert(all.take(i + 1).last() == all[i as int]);
        }
        if e.0 == DT_NEEDED_TAG {
            out.push(e.1);
        }
        i = i + 1;
    }
    proof {
        assert(all.take(entries@.len() as int) =~= all);
    }
    Some(out)
}

/// Find the first legacy-initializer address of an image's dynamic
/// section; `None` when the section cannot be parsed or holds no such
/// entry.
pub fn init_addr(data: &[u8]) -> (r: Option<u64>)
    ensures
        dyn_entries_of(data@) is None ==> r is None,
        dyn_entries_of(data@) matches Some(entries) ==> r == init_of(entries),
{
    let entries = match elf_dynamic_entries(data) {
        Some(e) => e,
        None => {
            return None;
        },
    };
    let ghost all = entries@;
    proof {
        assert(all.skip(0) =~= all);
    }
    let mut i: usize = 0;
    while i < entries.len()
        invariant
            i <= entries.len(),
            entries@ == all,
            dyn_entries_of(data@) == Some(all),
            init_of(all) == init_of(all.skip(i as int)),
        decreases entries.len() - i,
    {
        let e = entries[i];
        proof {
            assert(all.skip(i as int).first() == all[i as int]);
            assert(all.skip(i as int).drop_first() =~= all.skip(i + 1));
        }
        if e.0 == DT_INIT_TAG {
            proof {
                assert(all.skip(i as int).len() > 0);
                assert(init_of(all.skip(i as int)) == Some(e.1));
            }
            return Some(e.1);
        }
        i = i + 1;
    }
    proof {
        assert(all.skip(entries@.len() as int).len() == 0);
    }
    None
}

} // verus!
