//! Loaded and not-yet-loaded libraries, and the dependency enumerator.

use vstd::prelude::*;
use vstd::string::StrSliceExecFns;

use crate::errors::DependencyError;
use crate::image::{dyn_entries_of, dyn_string_of, dyn_symbols_of, needed_offsets, elf_dynstr_get, needed_name_offsets, Backing};
use crate::symbol::{find_sym, lookup_unrelocated, RelocatedSymbol, SymbolName};

verus! {

/// A library name pending resolution; not yet backed by storage.
pub struct UnloadedLibrary {
    /// The requested name.
    pub name: String,
}

impl UnloadedLibrary {
    /// Name a library to be resolved later.
    pub fn new(name: &str) -> (r: UnloadedLibrary)
        ensures
            r.name@ == name@,
    {
        UnloadedLibrary { name: name.to_owned() }
    }
}

/// An opened, parsed library artifact, owned by exactly one compartment
/// once registered with a context.
pub struct Library {
    /// Display name, as resolved.
    pub name: String,
    /// The storage backing the image.
    pub backing: Backing,
    /// Id of the compartment owning this library.
    pub comp: usize,
    /// Ids of the libraries this one directly depends on.
    pub deps: Vec<usize>,
    /// Load base address; fixed when the library is registered.
    pub base: u64,
    /// Whether this library's relocation pass has completed.
    pub relocated: bool,
}

impl Library {
    /// Wrap a resolved backing as a not-yet-registered library.
    pub fn new(backing: Backing, name: String) -> (r: Library)
        ensures
            r.name@ == name@,
            r.backing.id == backing.id,
            r.backing.data@ == backing.data@,
            r.comp == 0,
            r.deps@.len() == 0,
            r.base == 0,
            !r.relocated,
    {
        Library { name, backing, comp: 0, deps: Vec::new(), base: 0, relocated: false }
    }

    /// The image's mapped size in bytes.
    pub fn size(&self) -> (r: u64)
        ensures
            r == self.backing.data@.len(),
    {
        self.backing.data.len() as u64
    }
}

/// Opens backing storage for needed library names.
///
/// This is the loader callback of the dependency enumerator; resolving a
/// name may itself perform I/O, so implementations live with their
/// environment and only hand plain backings across.
pub trait LibraryLoader {
    /// The names opened so far and what came back for each, oldest
    /// first.  Implementations outside the library leave the default,
    /// which records nothing.
    open spec fn log(&self) -> Seq<(Seq<char>, Option<Backing>)> {
        Seq::empty()
    }

    /// Open the backing for a needed name; `None` when no backing exists.
    fn open(&mut self, name: &str) -> (r: Option<Backing>)
        ensures
            final(self).log() == old(self).log().push((name@, r)),
    ;
}

/// One failed needed entry: its string-table record was unreadable, or
/// its name found no backing.
pub enum EnumFailure {
    /// The entry's name could not be read from the string table.
    Unreadable,
    /// The named dependency found no backing.
    Unresolved(Seq<char>),
}

/// The readable needed names of an image, in dynamic-section order.
pub open spec fn readable_names(data: Seq<u8>, offs: Seq<u64>) -> Seq<Seq<char>>
    decreases offs.len(),
{
    if offs.len() == 0 {
        Seq::empty()
    } else {
        let rest = readable_names(data, offs.drop_last());
        match dyn_string_of(data, offs.last()) {
            Some(n) => rest.push(n),
            None => rest,
        }
    }
}

/// The failures enumeration reports for the needed offsets, in order,
/// given the loader's answers to the readable names.
pub open spec fn enum_failures(
    data: Seq<u8>,
    offs: Seq<u64>,
    answers: Seq<Option<Backing>>,
) -> Seq<EnumFailure>
    decreases offs.len(),
{
    if offs.len() == 0 {
        Seq::empty()
    } else {
        match dyn_string_of(data, offs.last()) {
            None => enum_failures(data, offs.drop_last(), answers).push(EnumFailure::Unreadable),
            Some(n) => {
                let rest = enum_failures(data, offs.drop_last(), answers.drop_last());
                if answers.len() >= 1 && answers.last() is Some {
                    rest
                } else {
                    rest.push(EnumFailure::Unresolved(n))
                }
            },
        }
    }
}

/// The resolved libraries enumeration yields for the needed offsets, in
/// order, given the loader's answers to the readable names.
pub open spec fn enum_successes(
    data: Seq<u8>,
    offs: Seq<u64>,
    answers: Seq<Option<Backing>>,
) -> Seq<(Seq<char>, Backing)>
    decreases offs.len(),
{
    if offs.len() == 0 {
        Seq::empty()
    } else {
        match dyn_string_of(data, offs.last()) {
            None => enum_successes(data, offs.drop_last(), answers),
            Some(n) => {
                let rest = enum_successes(data, offs.drop_last(), answers.drop_last());
                if answers.len() >= 1 {
                    match answers.last() {
                        Some(b) => rest.push((n, b)),
                        None => rest,
                    }
                } else {
                    rest
                }
            },
        }
    }
}

/// The answers recorded in a loader log from position `from` on.
pub open spec fn answers_of(log: Seq<(Seq<char>, Option<Backing>)>, from: int) -> Seq<
    Option<Backing>,
> {
    log.subrange(from, log.len() as int).map_values(|e: (Seq<char>, Option<Backing>)| e.1)
}

impl Library {
    /// Enumerate this library's directly-needed libraries.
    ///
    /// Reads the needed-library names from the image's dynamic section and
    /// resolves each through `loader`.  A missing dependency does not abort
    /// enumeration of its siblings: every failure is collected, and the
    /// call fails only after all names were attempted, reporting all of
    /// them.  An image whose dynamic section holds no needed entries yields
    /// an empty list and no error.
    pub fn enumerate_needed<L: LibraryLoader>(&self, loader: &mut L) -> (r: Result<
        Vec<Library>,
        Vec<DependencyError>,
    >)
        ensures
            dyn_entries_of(self.backing.data@) is None ==> (r matches Err(es) && es@.len() == 1
                && es@[0] is MalformedImage && final(loader).log() == old(loader).log()),
            dyn_entries_of(self.backing.data@) matches Some(entries) ==> {
                let offs = needed_offsets(entries);
                &&& offs.len() == 0 ==> (r matches Ok(v) && v@.len() == 0)
                &&& r matches Ok(v) ==> v@.len() == offs.len() && (forall|k: int|
                    0 <= k < offs.len() ==> dyn_string_of(self.backing.data@, offs[k]) == Some(
                        v@[k].name@,
                    ))
                &&& r matches Err(es) ==> es@.len() > 0
            },
            dyn_entries_of(self.backing.data@) matches Some(entries) ==> {
                let offs = needed_offsets(entries);
                let data = self.backing.data@;
                let names = readable_names(data, offs);
                let logf = final(loader).log();
                let log0 = old(loader).log();
                &&& logf.len() == log0.len() + names.len()
                &&& forall|q: int| 0 <= q < log0.len() ==> #[trigger] logf[q] == log0[q]
                &&& forall|q: int|
                    0 <= q < names.len() ==> (#[trigger] logf[log0.len() + q]).0 == names[q]
                &&& {
                    let answers = answers_of(logf, log0.len() as int);
                    let fails = enum_failures(data, offs, answers);
                    let succs = enum_successes(data, offs, answers);
                    &&& (r is Ok <==> fails.len() == 0)
                    &&& r matches Ok(v) ==> v@.len() == succs.len() && (forall|k: int|
                        0 <= k < succs.len() ==> ((#[trigger] v@[k]).name@ == succs[k].0
                            && v@[k].backing.id == succs[k].1.id && v@[k].backing.data@
                            == succs[k].1.data@))
                    &&& r matches Err(es) ==> es@.len() == fails.len() && (forall|k: int|
                        0 <= k < fails.len() ==> match #[trigger] fails[k] {
                            EnumFailure::Unreadable => es@[k] is MalformedImage,
                            EnumFailure::Unresolved(n) => es@[k]
                                matches DependencyError::UnresolvedName(s) && s@ == n,
                        })
                }
            },
    {
        let offs = match needed_name_offsets(self.backing.data.as_slice()) {
            Some(o) => o,
            None => {
                let mut es: Vec<DependencyError> = Vec::new();
                es.push(DependencyError::MalformedImage);
                return Err(es);
            },
        };
        let ghost offs_model = offs@;
        let ghost data = self.backing.data@;
        let ghost log0 = loader.log();
        let mut out: Vec<Library> = Vec::new();
        let mut errors: Vec<DependencyError> = Vec::new();
        let mut i: usize = 0;
        proof {
            assert(offs_model.take(0).len() == 0);
            assert(loader.log().subrange(log0.len() as int, loader.log().len() as int)
                =~= Seq::empty());
            assert(answers_of(loader.log(), log0.len() as int) =~= Seq::empty());
        }
        while i < offs.len()
            invariant
                i <= offs.len(),
                offs@ == offs_model,
                data == self.backing.data@,
                log0 == old(loader).log(),
                dyn_entries_of(self.backing.data@) matches Some(entries) && needed_offsets(
                    entries,
                ) == offs_model,
                errors@.len() <= i,
                errors@.len() == 0 ==> out@.len() == i && (forall|k: int|
                    0 <= k < i ==> dyn_string_of(self.backing.data@, offs_model[k]) == Some(
                        out@[k].name@,
                    )),
                loader.log().len() == log0.len() + readable_names(
                    data,
                    offs_model.take(i as int),
                ).len(),
                forall|q: int| 0 <= q < log0.len() ==> #[trigger] loader.log()[q] == log0[q],
                forall|q: int|
                    0 <= q < readable_names(data, offs_model.take(i as int)).len()
                        ==> (#[trigger] loader.log()[log0.len() + q]).0 == readable_names(
                        data,
                        offs_model.take(i as int),
                    )[q],
                errors@.len() == enum_failures(
                    data,
                    offs_model.take(i as int),
                    answers_of(loader.log(), log0.len() as int),
                ).len(),
                forall|k: int|
                    0 <= k < errors@.len() ==> match #[trigger] enum_failures(
                        data,
                        offs_model.take(i as int),
                        answers_of(loader.log(), log0.len() as int),
                    )[k] {
                        EnumFailure::Unreadable => errors@[k] is MalformedImage,
                        EnumFailure::Unresolved(n) => errors@[k]
                            matches DependencyError::UnresolvedName(s) && s@ == n,
                    },
                out@.len() == enum_successes(
                    data,
                    offs_model.take(i as int),
                    answers_of(loader.log(), log0.len() as int),
                ).len(),
                forall|k: int|
                    0 <= k < out@.len() ==> {
                        let succs = enum_successes(
                            data,
                            offs_model.take(i as int),
                            answers_of(loader.log(), log0.len() as int),
                        );
                        (#[trigger] out@[k]).name@ == succs[k].0 && out@[k].backing.id
                            == succs[k].1.id && out@[k].backing.data@ == succs[k].1.data@
                    },
            decreases offs.len() - i,
        {
            let off = offs[i];
            let ghost logpre = loader.log();
            let ghost apre = answers_of(logpre, log0.len() as int);
            proof {
                assert(offs_model.take(i + 1).drop_last() =~= offs_model.take(i as int));
                assert(offs_model.take(i + 1).last() == offs_model[i as int]);
            }
            match elf_dynstr_get(self.backing.data.as_slice(), off) {
                None => {
                    errors.push(DependencyError::MalformedImage);
                    proof {
                        let fails = enum_failures(data, offs_model.take(i + 1), apre);
                        assert(fails == enum_failures(data, offs_model.take(i as int), apre).push(
                            EnumFailure::Unreadable,
                        ));
                        assert(errors@[errors@.len() - 1] is MalformedImage);
                    }
                },
                Some(name) => {
                    let opened = loader.open(name.as_str());
                    proof {
                        assert(loader.log() == logpre.push((name@, opened)));
                        assert(loader.log().subrange(log0.len() as int, loader.log().len() as int)
                            =~= logpre.subrange(log0.len() as int, logpre.len() as int).push(
                            (name@, opened),
                        ));
                        assert(answers_of(loader.log(), log0.len() as int) =~= apre.push(opened));
                        assert(readable_names(data, offs_model.take(i + 1)) == readable_names(
                            data,
                            offs_model.take(i as int),
                        ).push(name@));
                        assert(loader.log()[loader.log().len() - 1].0 == name@);
                        assert forall|q: int|
                            0 <= q < readable_names(data, offs_model.take(i + 1)).len()
                                implies (#[trigger] loader.log()[log0.len() + q]).0
                            == readable_names(data, offs_model.take(i + 1))[q] by {
                            if q < readable_names(data, offs_model.take(i as int)).len() {
                                assert(loader.log()[log0.len() + q] == logpre[log0.len() + q]);
                            }
                        }
                        assert(apre.push(opened).drop_last() =~= apre);
                    }
                    match opened {
                        None => {
                            errors.push(DependencyError::UnresolvedName(name));
                            proof {
                                let a2 = answers_of(loader.log(), log0.len() as int);
                                assert(enum_failures(data, offs_model.take(i + 1), a2)
                                    == enum_failures(data, offs_model.take(i as int), apre).push(
                                    EnumFailure::Unresolved(name@),
                                ));
                                assert(enum_successes(data, offs_model.take(i + 1), a2)
                                    == enum_successes(data, offs_model.take(i as int), apre));
                            }
                        },
                        Some(backing) => {
                            let ghost b = backing;
                            out.push(Library::new(backing, name));
                            proof {
                                let a2 = answers_of(loader.log(), log0.len() as int);
                                assert(enum_failures(data, offs_model.take(i + 1), a2)
                                    == enum_failures(data, offs_model.take(i as int), apre));
                                assert(enum_successes(data, offs_model.take(i + 1), a2)
                                    == enum_successes(data, offs_model.take(i as int), apre).push(
                                    (name@, b),
                                ));
                                assert(out@[out@.len() - 1].name@ == name@);
                            }
                        },
                    }
                },
            }
            i = i + 1;
        }
        proof {
            assert(offs_model.take(offs@.len() as int) =~= offs_model);
        }
        if errors.len() == 0 {
            Ok(out)
        } else {
            Err(errors)
        }
    }
}

impl Library {
    /// Look up a symbol by name and report its relocated address.
    ///
    /// Only an image that has completed its own relocation pass can hand
    /// out relocated symbols.  The round trip holds: the symbol found by
    /// name in its unrelocated form reports, once relocated, an address
    /// inside the image's mapped range — never outside it, and never the
    /// raw unrelocated value unless the image is loaded at a zero base.
    pub fn lookup_relocated_symbol(&self, name: &SymbolName<'_>) -> (r: Option<RelocatedSymbol>)
        requires
            self.relocated,
            self.base + self.backing.data@.len() <= u64::MAX,
        ensures
            dyn_symbols_of(self.backing.data@) is None ==> r is None,
            dyn_symbols_of(self.backing.data@) matches Some(syms) ==> match find_sym(
                self.backing.data@,
                syms,
                name@,
            ) {
                Some(t) => {
                    if t.1 < self.backing.data@.len() {
                        &&& r matches Some(rs)
                        &&& rs.spec_value() == self.base + t.1
                        &&& self.base <= rs.spec_value() < self.base
                            + self.backing.data@.len()
                        &&& self.base != 0 ==> rs.spec_value() != t.1
                    } else {
                        r is None
                    }
                },
                None => r is None,
            },
    {
        let u = match lookup_unrelocated(self.backing.data.as_slice(), name) {
            Some(u) => u,
            None => {
                return None;
            },
        };
        let size = self.backing.data.len() as u64;
        u.relocate(self.base, size)
    }
}

/// The canonical form of a library name: a versioned standard-library
/// name collapses to its unversioned name.
pub open spec fn normalized_name(name: Seq<char>) -> Seq<char> {
    if name.len() >= "libstd-"@.len() && name.subrange(0, "libstd-"@.len() as int)
        == "libstd-"@ {
        "libstd.so"@
    } else {
        name
    }
}

/// Whether `s` starts with `prefix`, by characters.
pub fn str_starts_with(s: &str, prefix: &str) -> (r: bool)
    ensures
        r == (s@.len() >= prefix@.len() && s@.subrange(0, prefix@.len() as int) == prefix@),
{
    let n = prefix.unicode_len();
    let sn = s.unicode_len();
    if sn < n {
        proof {
            assert(!(s@.len() >= prefix@.len()));
        }
        return false;
    }
    let mut i: usize = 0;
    while i < n
        invariant
            i <= n,
            n == prefix@.len(),
            sn == s@.len(),
            sn >= n,
            forall|j: int| 0 <= j < i ==> s@[j] == prefix@[j],
        decreases n - i,
    {
        if s.get_char(i) != prefix.get_char(i) {
            proof {
                assert(s@.subrange(0, prefix@.len() as int)[i as int] != prefix@[i as int]);
            }
            return false;
        }
        i = i + 1;
    }
    proof {
        assert(s@.subrange(0, prefix@.len() as int) =~= prefix@);
    }
    true
}

/// Collapse a versioned standard-library name to its canonical name.
///
/// Applied to every needed name before lookup, so all versioned requests
/// land on the one canonical instance.
pub fn normalize_name(name: &str) -> (r: String)
    ensures
        r@ == normalized_name(name@),
{
    if str_starts_with(name, "libstd-") {
        "libstd.so".to_owned()
    } else {
        name.to_owned()
    }
}

} // verus!
