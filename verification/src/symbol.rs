//! Symbols in their two lifecycle states.
//!
//! A symbol read from an image is *unrelocated*: its address is relative to
//! the image.  Once the image's relocation pass has completed, a symbol can
//! be rebased to its load location, producing a *relocated* symbol.  The
//! two states are distinct types, so a pre-relocation address can never be
//! used where a final address is expected.

use vstd::prelude::*;

use crate::image::{dyn_name_of, dyn_symbols_of, elf_dynamic_symbols, elf_dynstr_get_raw};

verus! {

/// A symbol's numeric index in its image's dynamic symbol table.
pub struct SymbolId(pub u32);

/// A symbol name, compared as a raw byte sequence rather than as decoded
/// text, to avoid charset assumptions.
pub struct SymbolName<'a>(&'a [u8]);

impl<'a> SymbolName<'a> {
    /// Wrap raw bytes as a symbol name.
    pub fn new(bytes: &'a [u8]) -> (r: Self)
        ensures
            r@ == bytes@,
    {
        SymbolName(bytes)
    }

    /// The raw bytes of the name.
    pub fn as_bytes(&self) -> (r: &[u8])
        ensures
            r@ == self@,
    {
        self.0
    }
}

impl<'a> View for SymbolName<'a> {
    type V = Seq<u8>;

    closed spec fn view(&self) -> Seq<u8> {
        self.0@
    }
}

impl<'a> From<&'a [u8]> for SymbolName<'a> {
    fn from(value: &'a [u8]) -> (r: Self) {
        SymbolName(value)
    }
}

impl<'a> vstd::std_specs::convert::FromSpecImpl<&'a [u8]> for SymbolName<'a> {
    closed spec fn obeys_from_spec() -> bool {
        true
    }

    closed spec fn from_spec(value: &'a [u8]) -> Self {
        SymbolName(value)
    }
}

/// A raw symbol-table record, as plain values: name offset, value, size,
/// and section index.
#[derive(Clone, Copy, PartialEq, Eq, Structural)]
pub struct RawSymbol {
    /// Offset of the name in the dynamic string table.
    pub st_name: u32,
    /// Image-relative address.
    pub st_value: u64,
    /// Size in bytes.
    pub st_size: u64,
    /// Section index; zero marks an undefined reference.
    pub st_shndx: u16,
}

/// A symbol as read from an image; its address is image-relative.
#[derive(Clone, Copy, PartialEq, Eq)]
pub struct UnrelocatedSymbol {
    sym: RawSymbol,
}

/// A symbol whose address has been rebased to its image's load location.
#[derive(Clone, Copy, PartialEq, Eq)]
pub struct RelocatedSymbol {
    sym: RawSymbol,
}

/// Common surface of the two symbol states.
pub trait Symbol {
    /// The address this symbol reports.
    fn addr(&self) -> u64;

    /// The symbol's size in bytes.
    fn size(&self) -> u64;
}

impl UnrelocatedSymbol {
    /// The underlying raw record, as a spec-level value.
    pub closed spec fn spec_raw(&self) -> RawSymbol {
        self.sym
    }

    /// The image-relative value of this symbol.
    pub open spec fn spec_value(&self) -> u64 {
        self.spec_raw().st_value
    }

    /// The underlying raw record.
    pub fn raw(&self) -> (r: RawSymbol)
        ensures
            r == self.spec_raw(),
    {
        self.sym
    }

    /// Rebase this symbol to the image's load location.
    ///
    /// This is the one place a [`RelocatedSymbol`] is made; the
    /// image-level lookup gates it on the image having completed its
    /// relocation pass.  Returns `None` when the symbol's value lies
    /// outside the image's mapped size.
    pub(crate) fn relocate(self, base: u64, size: u64) -> (r: Option<RelocatedSymbol>)
        requires
            base + size <= u64::MAX,
        ensures
            r is Some <==> self.spec_raw().st_value < size,
            r matches Some(rs) ==> {
                &&& rs.spec_raw().st_value == base + self.spec_raw().st_value
                &&& base <= rs.spec_raw().st_value < base + size
                &&& base != 0 ==> rs.spec_raw().st_value != self.spec_raw().st_value
                &&& rs.spec_raw().st_size == self.spec_raw().st_size
                &&& rs.spec_raw().st_name == self.spec_raw().st_name
                &&& rs.spec_raw().st_shndx == self.spec_raw().st_shndx
            },
    {
        if self.sym.st_value < size {
            Some(
                RelocatedSymbol {
                    sym: RawSymbol {
                        st_name: self.sym.st_name,
                        st_value: base + self.sym.st_value,
                        st_size: self.sym.st_size,
                        st_shndx: self.sym.st_shndx,
                    },
                },
            )
        } else {
            None
        }
    }
}

impl RelocatedSymbol {
    /// The underlying raw record, as a spec-level value.
    pub closed spec fn spec_raw(&self) -> RawSymbol {
        self.sym
    }

    /// The rebased value of this symbol.
    pub open spec fn spec_value(&self) -> u64 {
        self.spec_raw().st_value
    }

    /// The underlying raw record.
    pub fn raw(&self) -> (r: RawSymbol)
        ensures
            r == self.spec_raw(),
    {
        self.sym
    }
}

impl Symbol for UnrelocatedSymbol {
    fn addr(&self) -> (r: u64)
        ensures
            r == self.spec_raw().st_value,
    {
        self.sym.st_value
    }

    fn size(&self) -> (r: u64)
        ensures
            r == self.spec_raw().st_size,
    {
        self.sym.st_size
    }
}

impl Symbol for RelocatedSymbol {
    fn addr(&self) -> (r: u64)
        ensures
            r == self.spec_raw().st_value,
    {
        self.sym.st_value
    }

    fn size(&self) -> (r: u64)
        ensures
            r == self.spec_raw().st_size,
    {
        self.sym.st_size
    }
}

impl From<RawSymbol> for UnrelocatedSymbol {
    fn from(value: RawSymbol) -> (r: Self) {
        UnrelocatedSymbol { sym: value }
    }
}

impl vstd::std_specs::convert::FromSpecImpl<RawSymbol> for UnrelocatedSymbol {
    closed spec fn obeys_from_spec() -> bool {
        true
    }

    closed spec fn from_spec(value: RawSymbol) -> Self {
        UnrelocatedSymbol { sym: value }
    }
}

/// Compare two byte slices for equality.
pub fn bytes_eq(a: &[u8], b: &[u8]) -> (r: bool)
    ensures
        r == (a@ == b@),
{
    if a.len() != b.len() {
        proof {
            assert(a@.len() != b@.len());
        }
        return false;
    }
    let mut i: usize = 0;
    while i < a.len()
        invariant
            i <= a.len(),
            a@.len() == b@.len(),
            forall|j: int| 0 <= j < i ==> a@[j] == b@[j],
        decreases a.len() - i,
    {
        if a[i] != b[i] {
            return false;
        }
        i = i + 1;
    }
    proof {
        assert(a@ =~= b@);
    }
    true
}

/// The first symbol of `syms` whose name bytes in `data`'s dynamic string
/// table equal `name`, if any.
pub open spec fn find_sym(data: Seq<u8>, syms: Seq<(u32, u64, u64, u16)>, name: Seq<u8>) -> Option<
    (u32, u64, u64, u16),
>
    decreases syms.len(),
{
    if syms.len() == 0 {
        None
    } else if dyn_name_of(data, syms.first().0 as u64) == Some(name) {
        Some(syms.first())
    } else {
        find_sym(data, syms.drop_first(), name)
    }
}

/// The raw tuple of a symbol record.
pub open spec fn sym_tuple(s: RawSymbol) -> (u32, u64, u64, u16) {
    (s.st_name, s.st_value, s.st_size, s.st_shndx)
}

/// Look up a symbol by name in an image's dynamic symbol table, in its
/// unrelocated form.  The name is compared as raw bytes.
pub fn lookup_unrelocated(data: &[u8], name: &SymbolName<'_>) -> (r: Option<UnrelocatedSymbol>)
    ensures
        dyn_symbols_of(data@) is None ==> r is None,
        dyn_symbols_of(data@) matches Some(syms) ==> match r {
            Some(u) => find_sym(data@, syms, name@) == Some(sym_tuple(u.spec_raw())),
            None => find_sym(data@, syms, name@) is None,
        },
{
    let syms = match elf_dynamic_symbols(data) {
        Some(s) => s,
        None => {
            return None;
        },
    };
    let ghost all = syms@;
    proof {
        assert(all.skip(0) =~= all);
    }
    let mut i: usize = 0;
    while i < syms.len()
        invariant
            i <= syms.len(),
            syms@ == all,
            dyn_symbols_of(data@) == Some(all),
            find_sym(data@, all, name@) == find_sym(data@, all.skip(i as int), name@),
        decreases syms.len() - i,
    {
        let s = syms[i];
        proof {
            assert(all.skip(i as int).first() == all[i as int]);
            assert(all.skip(i as int).drop_first() =~= all.skip(i + 1));
        }
        let sym_name = elf_dynstr_get_raw(data, s.0 as u64);
        let matched = match &sym_name {
            Some(b) => bytes_eq(b.as_slice(), name.as_bytes()),
            None => false,
        };
        if matched {
            return Some(
                UnrelocatedSymbol {
                    sym: RawSymbol { st_name: s.0, st_value: s.1, st_size: s.2, st_shndx: s.3 },
                },
            );
        }
        i = i + 1;
    }
    None
}

/// Look up a symbol by numeric index in an image's dynamic symbol table,
/// in its unrelocated form.
pub fn lookup_by_id(data: &[u8], id: SymbolId) -> (r: Option<UnrelocatedSymbol>)
    ensures
        dyn_symbols_of(data@) is None ==> r is None,
        dyn_symbols_of(data@) matches Some(syms) ==> match r {
            Some(u) => {
                &&& (id.0 as int) < syms.len()
                &&& syms[id.0 as int] == sym_tuple(u.spec_raw())
            },
            None => syms.len() <= id.0 as int,
        },
{
    let syms = match elf_dynamic_symbols(data) {
        Some(s) => s,
        None => {
            return None;
        },
    };
    let idx = id.0 as usize;
    if idx < syms.len() {
        let s = syms[idx];
        Some(
            UnrelocatedSymbol {
                sym: RawSymbol { st_name: s.0, st_value: s.1, st_size: s.2, st_shndx: s.3 },
            },
        )
    } else {
        None
    }
}

} // verus!
