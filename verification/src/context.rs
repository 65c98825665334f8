//! The loader context: an arena of compartments and libraries.
//!
//! Compartments and libraries are keyed by small integer ids; every
//! cross-reference is an id, never an ownership link, so shared images
//! cannot form reference cycles.  Every library belongs to exactly one
//! compartment, and no compartment holds two libraries of the same name,
//! which is what makes lookup-or-load idempotent.

use vstd::prelude::*;

use crate::errors::{DependencyError, LoadError};
use crate::image::{elf_dynstr_get, needed_name_offsets, Backing};
use crate::library::{normalize_name, normalized_name, Library, UnloadedLibrary};
use crate::MAX_LIBRARIES;

verus! {

/// The span of the address-space slot each image is mapped into; a
/// library's load base is its slot's start address.
pub const SLOT_SIZE: u64 = 0x4000_0000;

/// An isolation domain: a named set of libraries.
pub struct Compartment {
    /// Human-readable name; unique within a context.
    pub name: String,
    /// Ids of the libraries this compartment owns.
    pub lib_ids: Vec<usize>,
}

/// The global loader state: all compartments and all loaded libraries.
///
/// A context is an explicit value threaded through the loader API; callers
/// that share one across threads guard it with one exclusive lock.
pub struct Context {
    /// All compartments, keyed by index.
    pub compartments: Vec<Compartment>,
    /// All libraries, keyed by index.
    pub libraries: Vec<Library>,
}

/// One resolved dependency: a library and the compartment it landed in.
#[derive(Clone, Copy, PartialEq, Eq, Structural)]
pub struct LoadRecord {
    /// The library's id.
    pub lib: usize,
    /// The compartment's id.
    pub comp: usize,
}

impl Context {
    /// Well-formedness of one library record.
    pub open spec fn lib_wf(&self, l: int) -> bool {
        let lib = self.libraries@[l];
        &&& (lib.comp as int) < self.compartments@.len()
        &&& forall|j: int|
            0 <= j < lib.deps@.len() ==> (#[trigger] lib.deps@[j] as int) < self.libraries@.len()
        &&& lib.backing.data@.len() < SLOT_SIZE
        &&& lib.base == (l + 1) * (SLOT_SIZE as int)
        &&& lib.relocated ==> forall|j: int|
            0 <= j < lib.deps@.len() ==> self.libraries@[#[trigger] lib.deps@[j] as int].relocated
        &&& exists|k: int|
            0 <= k < self.compartments@[lib.comp as int].lib_ids@.len()
                && self.compartments@[lib.comp as int].lib_ids@[k] == l
    }

    /// Well-formedness of one compartment record.
    pub open spec fn comp_wf(&self, c: int) -> bool {
        let ids = self.compartments@[c].lib_ids@;
        &&& forall|k: int|
            0 <= k < ids.len() ==> (#[trigger] ids[k] as int) < self.libraries@.len()
                && self.libraries@[ids[k] as int].comp == c
        &&& forall|k1: int, k2: int|
            0 <= k1 < k2 < ids.len() ==> #[trigger] ids[k1] != #[trigger] ids[k2]
        &&& forall|k1: int, k2: int|
            0 <= k1 < k2 < ids.len() ==> #[trigger] self.libraries@[ids[k1] as int].name@
                != #[trigger] self.libraries@[ids[k2] as int].name@
    }

    /// Well-formedness of the whole context.
    pub open spec fn wf(&self) -> bool {
        &&& self.libraries@.len() <= MAX_LIBRARIES
        &&& forall|l: int| 0 <= l < self.libraries@.len() ==> #[trigger] self.lib_wf(l)
        &&& forall|c: int| 0 <= c < self.compartments@.len() ==> #[trigger] self.comp_wf(c)
        &&& forall|c1: int, c2: int|
            0 <= c1 < c2 < self.compartments@.len()
                ==> #[trigger] self.compartments@[c1].name@
                != #[trigger] self.compartments@[c2].name@
    }

    /// Whether compartment `c` holds a library named `name`.
    pub open spec fn comp_has_name(&self, c: int, name: Seq<char>) -> bool {
        exists|k: int|
            0 <= k < self.compartments@[c].lib_ids@.len()
                && self.libraries@[#[trigger] self.compartments@[c].lib_ids@[k] as int].name@
                == name
    }

    /// An empty context.
    pub fn new() -> (r: Context)
        ensures
            r.wf(),
            r.compartments@.len() == 0,
            r.libraries@.len() == 0,
    {
        Context { compartments: Vec::new(), libraries: Vec::new() }
    }

    /// Find a compartment by name.
    pub fn lookup_compartment(&self, name: &str) -> (r: Option<usize>)
        ensures
            r matches Some(c) ==> (c as int) < self.compartments@.len()
                && self.compartments@[c as int].name@ == name@,
            r is None ==> forall|c: int|
                0 <= c < self.compartments@.len() ==> #[trigger] self.compartments@[c].name@
                    != name@,
    {
        let name_owned = name.to_owned();
        let mut c: usize = 0;
        let n = self.compartments.len();
        while c < n
            invariant
                c <= n,
                n == self.compartments@.len(),
                name_owned@ == name@,
                forall|i: int| 0 <= i < c ==> #[trigger] self.compartments@[i].name@ != name@,
            decreases n - c,
        {
            if self.compartments[c].name == name_owned {
                return Some(c);
            }
            c = c + 1;
        }
        None
    }

    /// Find a library by name within one compartment.
    pub fn lookup_library(&self, comp_id: usize, name: &str) -> (r: Option<usize>)
        requires
            self.wf(),
            (comp_id as int) < self.compartments@.len(),
        ensures
            r matches Some(id) ==> (id as int) < self.libraries@.len()
                && self.libraries@[id as int].comp == comp_id
                && self.libraries@[id as int].name@ == name@ && self.comp_has_name(
                comp_id as int,
                name@,
            ),
            r is None ==> !self.comp_has_name(comp_id as int, name@),
    {
        let name_owned = name.to_owned();
        let ids = &self.compartments[comp_id].lib_ids;
        let mut k: usize = 0;
        let n = ids.len();
        assert(self.comp_wf(comp_id as int));
        while k < n
            invariant
                k <= n,
                self.wf(),
                (comp_id as int) < self.compartments@.len(),
                ids@ == self.compartments@[comp_id as int].lib_ids@,
                n == ids@.len(),
                name_owned@ == name@,
                forall|i: int|
                    0 <= i < k ==> #[trigger] self.libraries@[ids@[i] as int].name@ != name@,
            decreases n - k,
        {
            assert(self.comp_wf(comp_id as int));
            let id = ids[k];
            if self.libraries[id].name == name_owned {
                return Some(id);
            }
            k = k + 1;
        }
        assert(!self.comp_has_name(comp_id as int, name@));
        None
    }

    /// Get a library by id.
    pub fn get_library(&self, id: usize) -> (r: Option<&Library>)
        ensures
            (id as int) < self.libraries@.len() ==> (r matches Some(l) && *l
                == self.libraries@[id as int]),
            (id as int) >= self.libraries@.len() ==> r is None,
    {
        if id < self.libraries.len() {
            Some(&self.libraries[id])
        } else {
            None
        }
    }

    /// Get a compartment by id.
    pub fn get_compartment(&self, id: usize) -> (r: Option<&Compartment>)
        ensures
            (id as int) < self.compartments@.len() ==> (r matches Some(c) && *c
                == self.compartments@[id as int]),
            (id as int) >= self.compartments@.len() ==> r is None,
    {
        if id < self.compartments.len() {
            Some(&self.compartments[id])
        } else {
            None
        }
    }

    /// Create a new, empty compartment.
    ///
    /// Fails with [`LoadError::DuplicateCompartment`] exactly when a
    /// compartment of that name already exists.
    pub fn add_compartment(&mut self, name: &str) -> (r: Result<usize, LoadError>)
        requires
            old(self).wf(),
        ensures
            final(self).wf(),
            final(self).libraries@ == old(self).libraries@,
            match r {
                Ok(c) => {
                    &&& c as int == old(self).compartments@.len()
                    &&& final(self).compartments@.len() == old(self).compartments@.len() + 1
                    &&& forall|i: int|
                        0 <= i < old(self).compartments@.len()
                            ==> #[trigger] final(self).compartments@[i]
                            == old(self).compartments@[i]
                    &&& final(self).compartments@[c as int].name@ == name@
                    &&& final(self).compartments@[c as int].lib_ids@.len() == 0
                    &&& forall|i: int|
                        0 <= i < old(self).compartments@.len()
                            ==> #[trigger] old(self).compartments@[i].name@ != name@
                },
                Err(e) => {
                    &&& e is DuplicateCompartment
                    &&& *final(self) == *old(self)
                    &&& exists|i: int|
                        0 <= i < old(self).compartments@.len()
                            && #[trigger] old(self).compartments@[i].name@ == name@
                },
            },
    {
        match self.lookup_compartment(name) {
            Some(_) => Err(LoadError::DuplicateCompartment),
            None => {
                let c = self.compartments.len();
                self.compartments.push(Compartment { name: name.to_owned(), lib_ids: Vec::new() });
                proof {
                    assert forall|l: int| 0 <= l < self.libraries@.len() implies #[trigger] self.lib_wf(l) by {
                        assert(old(self).lib_wf(l));
                        let lib = self.libraries@[l];
                        assert(self.compartments@[lib.comp as int] == old(
                            self,
                        ).compartments@[lib.comp as int]);
                        let k = choose|k: int|
                            0 <= k < old(self).compartments@[lib.comp as int].lib_ids@.len() && old(
                                self,
                            ).compartments@[lib.comp as int].lib_ids@[k] == l;
                        assert(self.compartments@[lib.comp as int].lib_ids@[k] == l);
                    }
                    assert forall|cc: int|
                        0 <= cc < self.compartments@.len() implies #[trigger] self.comp_wf(cc) by {
                        if cc < old(self).compartments@.len() {
                            assert(old(self).comp_wf(cc));
                            assert(self.compartments@[cc] == old(self).compartments@[cc]);
                        } else {
                            assert(self.compartments@[cc].lib_ids@.len() == 0);
                        }
                    }
                }
                Ok(c)
            },
        }
    }

    /// Record that library `from` depends on library `to`.
    pub fn add_manual_dependency(&mut self, from: usize, to: usize)
        requires
            old(self).wf(),
            (from as int) < old(self).libraries@.len(),
            (to as int) < old(self).libraries@.len(),
            !old(self).libraries@[from as int].relocated,
        ensures
            final(self).wf(),
            final(self).compartments@ == old(self).compartments@,
            final(self).libraries@.len() == old(self).libraries@.len(),
            forall|i: int|
                0 <= i < old(self).libraries@.len() && i != from as int
                    ==> #[trigger] final(self).libraries@[i] == old(self).libraries@[i],
            final(self).libraries@[from as int].deps@ == old(self).libraries@[from as int].deps@.push(to),
            final(self).libraries@[from as int].name@ == old(self).libraries@[from as int].name@,
            final(self).libraries@[from as int].comp == old(self).libraries@[from as int].comp,
            final(self).libraries@[from as int].base == old(self).libraries@[from as int].base,
            final(self).libraries@[from as int].relocated == old(
                self,
            ).libraries@[from as int].relocated,
            final(self).libraries@[from as int].backing.data@ == old(
                self,
            ).libraries@[from as int].backing.data@,
            final(self).libraries@[from as int].backing.id == old(
                self,
            ).libraries@[from as int].backing.id,
    {
        let lib = &mut self.libraries[from];
        lib.deps.push(to);
        proof {
            assert forall|l: int| 0 <= l < self.libraries@.len() implies #[trigger] self.lib_wf(l) by {
                assert(old(self).lib_wf(l));
                let lib_l = self.libraries@[l];
                let old_l = old(self).libraries@[l];
                assert(lib_l.comp == old_l.comp);
                let k = choose|k: int|
                    0 <= k < old(self).compartments@[old_l.comp as int].lib_ids@.len() && old(
                        self,
                    ).compartments@[old_l.comp as int].lib_ids@[k] == l;
                assert(self.compartments@[lib_l.comp as int].lib_ids@[k] == l);
                if l == from as int {
                    assert(lib_l.deps@ == old_l.deps@.push(to));
                    assert forall|j: int| 0 <= j < lib_l.deps@.len() implies (
                    #[trigger] lib_l.deps@[j] as int) < self.libraries@.len() by {
                        if j < old_l.deps@.len() {
                            assert(old(self).lib_wf(l));
                        }
                    }
                }
            }
            assert forall|cc: int|
                0 <= cc < self.compartments@.len() implies #[trigger] self.comp_wf(cc) by {
                assert(old(self).comp_wf(cc));
                let ids = self.compartments@[cc].lib_ids@;
                assert forall|k: int| 0 <= k < ids.len() implies (#[trigger] ids[k] as int)
                    < self.libraries@.len() && self.libraries@[ids[k] as int].comp == cc by {
                    assert(old(self).comp_wf(cc));
                    assert(old(self).libraries@[ids[k] as int].comp == cc);
                }
            }
        }
    }

    /// Register a fresh library in a compartment, assigning its id and its
    /// load base.
    pub fn register_library(&mut self, comp_id: usize, name: String, backing: Backing) -> (id:
        usize)
        requires
            old(self).wf(),
            (comp_id as int) < old(self).compartments@.len(),
            old(self).libraries@.len() < MAX_LIBRARIES,
            backing.data@.len() < SLOT_SIZE,
            !old(self).comp_has_name(comp_id as int, name@),
        ensures
            final(self).wf(),
            id as int == old(self).libraries@.len(),
            final(self).libraries@.len() == old(self).libraries@.len() + 1,
            forall|i: int|
                0 <= i < old(self).libraries@.len() ==> #[trigger] final(self).libraries@[i]
                    == old(self).libraries@[i],
            final(self).libraries@[id as int].name@ == name@,
            final(self).libraries@[id as int].comp == comp_id,
            final(self).libraries@[id as int].deps@.len() == 0,
            final(self).libraries@[id as int].base == (id + 1) * (SLOT_SIZE as int),
            !final(self).libraries@[id as int].relocated,
            final(self).libraries@[id as int].backing.id == backing.id,
            final(self).libraries@[id as int].backing.data@ == backing.data@,
            final(self).compartments@.len() == old(self).compartments@.len(),
            forall|c: int|
                0 <= c < old(self).compartments@.len() && c != comp_id as int
                    ==> #[trigger] final(self).compartments@[c] == old(self).compartments@[c],
            final(self).compartments@[comp_id as int].name@ == old(
                self,
            ).compartments@[comp_id as int].name@,
            final(self).compartments@[comp_id as int].lib_ids@ == old(
                self,
            ).compartments@[comp_id as int].lib_ids@.push(id),
    {
        let id = self.libraries.len();
        let base = (id as u64 + 1) * SLOT_SIZE;
        let mut lib = Library::new(backing, name);
        lib.comp = comp_id;
        lib.base = base;
        self.libraries.push(lib);
        let comp = &mut self.compartments[comp_id];
        comp.lib_ids.push(id);
        proof {
            let ids = self.compartments@[comp_id as int].lib_ids@;
            assert forall|k: int| 0 <= k < ids.len() implies (#[trigger] ids[k] as int)
                < self.libraries@.len() && self.libraries@[ids[k] as int].comp == comp_id as int by {
                if k < ids.len() - 1 {
                    assert(old(self).comp_wf(comp_id as int));
                }
            }
            assert forall|l: int| 0 <= l < self.libraries@.len() implies #[trigger] self.lib_wf(l) by {
                if l < old(self).libraries@.len() {
                    assert(old(self).lib_wf(l));
                    let lib_l = self.libraries@[l];
                    if lib_l.comp == comp_id {
                        let old_ids = old(self).compartments@[comp_id as int].lib_ids@;
                        let k = choose|k: int| 0 <= k < old_ids.len() && old_ids[k] == l;
                        assert(ids[k] == l);
                    } else {
                        assert(self.compartments@[lib_l.comp as int] == old(
                            self,
                        ).compartments@[lib_l.comp as int]);
                        let old_ids = old(self).compartments@[lib_l.comp as int].lib_ids@;
                        let k = choose|k: int| 0 <= k < old_ids.len() && old_ids[k] == l;
                        assert(self.compartments@[lib_l.comp as int].lib_ids@[k] == l);
                    }
                } else {
                    assert(ids[ids.len() - 1] == l);
                }
            }
            assert forall|cc: int|
                0 <= cc < self.compartments@.len() implies #[trigger] self.comp_wf(cc) by {
                assert(old(self).comp_wf(cc));
                if cc == comp_id as int {
                    let old_ids = old(self).compartments@[cc].lib_ids@;
                    assert forall|k1: int, k2: int|
                        0 <= k1 < k2 < ids.len() implies #[trigger] ids[k1] != #[trigger] ids[k2] by {
                        if k2 == ids.len() - 1 {
                            assert(old(self).comp_wf(cc));
                            assert((old_ids[k1] as int) < old(self).libraries@.len());
                        }
                    }
                    assert forall|k1: int, k2: int|
                        0 <= k1 < k2 < ids.len() implies #[trigger] self.libraries@[ids[k1] as int].name@
                        != #[trigger] self.libraries@[ids[k2] as int].name@ by {
                        if k2 == ids.len() - 1 {
                            assert((old_ids[k1] as int) < old(self).libraries@.len());
                            assert(!old(self).comp_has_name(cc, name@));
                            assert(old(self).libraries@[old_ids[k1] as int].name@ != name@);
                        }
                    }
                }
            }
        }
        id
    }
}

/// Where a resolved name's backing should live.
pub enum Resolution {
    /// Load the image into the requesting compartment.
    Local(Backing),
    /// The image belongs in the named compartment — the isolation
    /// mechanism: a shared library lands once in a shared domain instead
    /// of being duplicated per compartment.
    InCompartment(String, Backing),
}

/// Policy object mapping a library name to backing storage.
///
/// The loader hands it already-normalized names.  Returning `None` is not
/// an error here; the loader turns it into an unresolved-name report.
/// Opening a backing may itself perform I/O, so implementations live with
/// their environment.
pub trait Selector {
    /// Resolve one needed name, or say that no backing exists for it.
    fn resolve_name(&self, name: &str) -> Option<Resolution>;
}

/// The outcome of resolving one needed name against a context.
pub enum ResolveOutcome {
    /// The name was already loaded in its target compartment.
    Existing(usize),
    /// A fresh library was registered under this id.
    Created(usize),
    /// The name could not be resolved or its image not accepted.
    Failed(DependencyError),
}

impl Context {
    /// Whether `new_c` extends `old_c`: all old libraries are unchanged,
    /// all old compartments keep their names and only gain libraries.
    pub open spec fn extends(old_c: Context, new_c: Context) -> bool {
        &&& old_c.libraries@.len() <= new_c.libraries@.len()
        &&& forall|i: int|
            0 <= i < old_c.libraries@.len() ==> #[trigger] new_c.libraries@[i]
                == old_c.libraries@[i]
        &&& old_c.compartments@.len() <= new_c.compartments@.len()
        &&& forall|c: int|
            0 <= c < old_c.compartments@.len() ==> #[trigger] new_c.compartments@[c].name@
                == old_c.compartments@[c].name@
        &&& forall|c: int|
            0 <= c < old_c.compartments@.len()
                ==> #[trigger] old_c.compartments@[c].lib_ids@.is_prefix_of(
                new_c.compartments@[c].lib_ids@,
            )
    }

    /// Extension composes.
    pub proof fn lemma_extends_trans(a: Context, b: Context, c: Context)
        requires
            Self::extends(a, b),
            Self::extends(b, c),
        ensures
            Self::extends(a, c),
    {
        assert forall|i: int|
            0 <= i < a.compartments@.len() implies #[trigger] a.compartments@[i].lib_ids@.is_prefix_of(
            c.compartments@[i].lib_ids@,
        ) by {
            assert(a.compartments@[i].lib_ids@.is_prefix_of(b.compartments@[i].lib_ids@));
            assert(b.compartments@[i].lib_ids@.is_prefix_of(c.compartments@[i].lib_ids@));
        }
    }

    /// Extension survives adding a dependency edge to a library that the
    /// base state did not yet hold.
    pub proof fn lemma_extends_dep_push(a: Context, b: Context, c: Context, d: int)
        requires
            Self::extends(a, b),
            c.compartments@ == b.compartments@,
            c.libraries@.len() == b.libraries@.len(),
            forall|i: int|
                0 <= i < b.libraries@.len() && i != d ==> #[trigger] c.libraries@[i]
                    == b.libraries@[i],
            d >= a.libraries@.len(),
        ensures
            Self::extends(a, c),
    {
        assert forall|i: int|
            0 <= i < a.libraries@.len() implies #[trigger] c.libraries@[i] == a.libraries@[i] by {
            assert(b.libraries@[i] == a.libraries@[i]);
        }
        assert forall|cc: int|
            0 <= cc < a.compartments@.len() implies #[trigger] a.compartments@[cc].lib_ids@.is_prefix_of(
            c.compartments@[cc].lib_ids@,
        ) by {
            assert(a.compartments@[cc].lib_ids@.is_prefix_of(b.compartments@[cc].lib_ids@));
        }
    }

    /// Resolve one needed name for a requesting compartment: normalize it,
    /// ask the selector for backing (which may redirect into another,
    /// possibly pre-existing compartment), and look the name up there
    /// before registering anything, so the same name never lands twice in
    /// one compartment.
    pub fn resolve_one<S: Selector>(&mut self, req_comp: usize, name: &str, sel: &S) -> (r:
        ResolveOutcome)
        requires
            old(self).wf(),
            (req_comp as int) < old(self).compartments@.len(),
        ensures
            final(self).wf(),
            Self::extends(*old(self), *final(self)),
            final(self).compartments@.len() <= old(self).compartments@.len() + 1,
            match r {
                ResolveOutcome::Existing(id) => {
                    &&& *final(self) == *old(self)
                    &&& (id as int) < final(self).libraries@.len()
                    &&& final(self).libraries@[id as int].name@ == normalized_name(name@)
                },
                ResolveOutcome::Created(id) => {
                    &&& id as int == old(self).libraries@.len()
                    &&& final(self).libraries@.len() == old(self).libraries@.len() + 1
                    &&& final(self).libraries@[id as int].name@ == normalized_name(name@)
                    &&& final(self).libraries@[id as int].deps@.len() == 0
                    &&& !final(self).libraries@[id as int].relocated
                },
                ResolveOutcome::Failed(e) => {
                    &&& final(self).libraries@ == old(self).libraries@
                    &&& (e is UnresolvedName || e is MalformedImage)
                },
            },
    {
        let norm = normalize_name(name);
        let resolution = match sel.resolve_name(norm.as_str()) {
            None => {
                return ResolveOutcome::Failed(DependencyError::UnresolvedName(norm));
            },
            Some(res) => res,
        };
        let (target, backing) = match resolution {
            Resolution::Local(backing) => (req_comp, backing),
            Resolution::InCompartment(cname, backing) => {
                match self.lookup_compartment(cname.as_str()) {
                    Some(c) => (c, backing),
                    None => {
                        match self.add_compartment(cname.as_str()) {
                            Ok(c) => (c, backing),
                            Err(_) => {
                                return ResolveOutcome::Failed(
                                    DependencyError::UnresolvedName(norm),
                                );
                            },
                        }
                    },
                }
            },
        };
        let ghost mid = *self;
        match self.lookup_library(target, norm.as_str()) {
            Some(id) => ResolveOutcome::Existing(id),
            None => {
                if self.libraries.len() >= MAX_LIBRARIES {
                    return ResolveOutcome::Failed(DependencyError::UnresolvedName(norm));
                }
                if (backing.data.len() as u64) >= SLOT_SIZE {
                    return ResolveOutcome::Failed(DependencyError::MalformedImage);
                }
                let id = self.register_library(target, norm, backing);
                proof {
                    Self::lemma_extends_trans(*old(self), mid, *self);
                }
                ResolveOutcome::Created(id)
            },
        }
    }
}

/// One pending resolution: a name needed by `dependent`, requested from
/// compartment `comp`.
struct WorkItem {
    comp: usize,
    name: String,
    dependent: Option<usize>,
}

/// Whether `recs` records library `lib`.
pub open spec fn recorded(recs: Seq<LoadRecord>, lib: int) -> bool {
    exists|k: int| 0 <= k < recs.len() && (#[trigger] recs[k]).lib == lib
}

/// A recorded library stays recorded when another record is appended.
proof fn lemma_recorded_push(recs: Seq<LoadRecord>, r: LoadRecord, i: int)
    requires
        recorded(recs, i),
    ensures
        recorded(recs.push(r), i),
{
    let k = choose|k: int| 0 <= k < recs.len() && (#[trigger] recs[k]).lib == i;
    assert(recs.push(r)[k].lib == i);
}

/// Whether `recs` already records library `lib`.
fn records_contain(recs: &Vec<LoadRecord>, lib: usize) -> (r: bool)
    ensures
        r == recorded(recs@, lib as int),
{
    let mut k: usize = 0;
    let n = recs.len();
    while k < n
        invariant
            k <= n,
            n == recs@.len(),
            forall|i: int| 0 <= i < k ==> (#[trigger] recs@[i]).lib != lib,
        decreases n - k,
    {
        if recs[k].lib == lib {
            return true;
        }
        k = k + 1;
    }
    false
}

impl Context {
    /// Queue the needed names of a freshly registered library.
    ///
    /// A name whose string-table entry cannot be read is reported as a
    /// malformed image; so is an unparsable dynamic section.
    fn enqueue_needed(
        &self,
        id: usize,
        work: &mut Vec<WorkItem>,
        errors: &mut Vec<DependencyError>,
    )
        requires
            self.wf(),
            (id as int) < self.libraries@.len(),
        ensures
            final(work)@.len() >= old(work)@.len(),
            forall|w: int|
                0 <= w < old(work)@.len() ==> #[trigger] final(work)@[w] == old(work)@[w],
            forall|w: int|
                old(work)@.len() <= w < final(work)@.len() ==> (#[trigger] final(work)@[w]).comp
                    == self.libraries@[id as int].comp && final(work)@[w].dependent == Some(id),
            final(errors)@.len() >= old(errors)@.len(),
            forall|e: int|
                0 <= e < old(errors)@.len() ==> #[trigger] final(errors)@[e] == old(errors)@[e],
    {
        let lib = &self.libraries[id];
        let tc = lib.comp;
        let offs = match needed_name_offsets(lib.backing.data.as_slice()) {
            Some(o) => o,
            None => {
                errors.push(DependencyError::MalformedImage);
                return ;
            },
        };
        let mut i: usize = 0;
        while i < offs.len()
            invariant
                self.wf(),
                (id as int) < self.libraries@.len(),
                tc == self.libraries@[id as int].comp,
                work@.len() >= old(work)@.len(),
                forall|w: int|
                    0 <= w < old(work)@.len() ==> #[trigger] work@[w] == old(work)@[w],
                forall|w: int|
                    old(work)@.len() <= w < work@.len() ==> (#[trigger] work@[w]).comp == tc
                        && work@[w].dependent == Some(id),
                errors@.len() >= old(errors)@.len(),
                forall|e: int|
                    0 <= e < old(errors)@.len() ==> #[trigger] errors@[e] == old(errors)@[e],
            decreases offs.len() - i,
        {
            match elf_dynstr_get(self.libraries[id].backing.data.as_slice(), offs[i]) {
                None => {
                    errors.push(DependencyError::MalformedImage);
                },
                Some(name) => {
                    work.push(WorkItem { comp: tc, name, dependent: Some(id) });
                },
            }
            i = i + 1;
        }
    }

    /// Load a library and its transitive dependency closure into a
    /// compartment.
    ///
    /// Resolution may redirect any dependency into another compartment;
    /// within one compartment the same name is never loaded twice.  One
    /// missing dependency does not abort its siblings: all resolution
    /// failures of the whole closure are aggregated into one report.  On
    /// success the records cover the root (first) and every library this
    /// call registered, each exactly once.
    pub fn load_library_in_compartment<S: Selector>(
        &mut self,
        comp_id: usize,
        root_unlib: UnloadedLibrary,
        sel: &S,
    ) -> (r: Result<Vec<LoadRecord>, LoadError>)
        requires
            old(self).wf(),
            (comp_id as int) < old(self).compartments@.len(),
        ensures
            final(self).wf(),
            Self::extends(*old(self), *final(self)),
            forall|i: int|
                old(self).libraries@.len() <= i < final(self).libraries@.len() ==> !(
                #[trigger] final(self).libraries@[i]).relocated,
            match r {
                Ok(recs) => {
                    &&& recs@.len() >= 1
                    &&& forall|k: int|
                        0 <= k < recs@.len() ==> ((#[trigger] recs@[k]).lib as int) < final(self).libraries@.len()
                            && final(self).libraries@[recs@[k].lib as int].comp == recs@[k].comp
                    &&& forall|k1: int, k2: int|
                        0 <= k1 < k2 < recs@.len() ==> (#[trigger] recs@[k1]).lib != (
                        #[trigger] recs@[k2]).lib
                    &&& final(self).libraries@[recs@[0].lib as int].name@ == normalized_name(
                        root_unlib.name@,
                    )
                    &&& forall|i: int|
                        old(self).libraries@.len() <= i < final(self).libraries@.len()
                            ==> #[trigger] recorded(recs@, i)
                },
                Err(e) => e matches LoadError::Dependency(es) && es@.len() > 0,
            },
    {
        let ghost orig = *self;
        let ghost old_nlibs = orig.libraries@.len() as int;
        let mut records: Vec<LoadRecord> = Vec::new();
        let mut errors: Vec<DependencyError> = Vec::new();
        let mut work: Vec<WorkItem> = Vec::new();
        match self.resolve_one(comp_id, root_unlib.name.as_str(), sel) {
            ResolveOutcome::Failed(e) => {
                errors.push(e);
                return Err(LoadError::Dependency(errors));
            },
            ResolveOutcome::Existing(id) => {
                let c = self.libraries[id].comp;
                records.push(LoadRecord { lib: id, comp: c });
            },
            ResolveOutcome::Created(id) => {
                proof {
                    assert(self.lib_wf(id as int));
                }
                let c = self.libraries[id].comp;
                records.push(LoadRecord { lib: id, comp: c });
                self.enqueue_needed(id, &mut work, &mut errors);
            },
        }
        let ghost after_root = *self;
        while work.len() > 0
            invariant
                self.wf(),
                old_nlibs == orig.libraries@.len(),
                Self::extends(orig, *self),
                (comp_id as int) < self.compartments@.len(),
                forall|w: int|
                    0 <= w < work@.len() ==> ((#[trigger] work@[w]).comp as int)
                        < self.compartments@.len() && match work@[w].dependent {
                        Some(d) => old_nlibs <= d as int && (d as int) < self.libraries@.len(),
                        None => true,
                    },
                records@.len() >= 1,
                forall|k: int|
                    0 <= k < records@.len() ==> ((#[trigger] records@[k]).lib as int)
                        < self.libraries@.len()
                        && self.libraries@[records@[k].lib as int].comp == records@[k].comp,
                forall|k1: int, k2: int|
                    0 <= k1 < k2 < records@.len() ==> (#[trigger] records@[k1]).lib != (
                    #[trigger] records@[k2]).lib,
                self.libraries@[records@[0].lib as int].name@ == normalized_name(
                    root_unlib.name@,
                ),
                forall|i: int|
                    old_nlibs <= i < self.libraries@.len() ==> #[trigger] recorded(records@, i),
                forall|i: int|
                    old_nlibs <= i < self.libraries@.len() ==> !(
                    #[trigger] self.libraries@[i]).relocated,
            decreases
                    MAX_LIBRARIES as int - self.libraries@.len(),
                    work@.len(),
        {
            let ghost pre = *self;
            let ghost pre_work = work@;
            let item = match work.pop() {
                Some(it) => it,
                None => {
                    break ;
                },
            };
            proof {
                assert(pre_work[pre_work.len() - 1] == item);
                assert(forall|w: int| 0 <= w < work@.len() ==> work@[w] == pre_work[w]);
            }
            match self.resolve_one(item.comp, item.name.as_str(), sel) {
                ResolveOutcome::Failed(e) => {
                    errors.push(e);
                    proof {
                        Self::lemma_extends_trans(orig, pre, *self);
                    }
                },
                ResolveOutcome::Existing(id) => {
                    if let Some(d) = item.dependent {
                        proof {
                            assert(pre_work[pre_work.len() - 1].dependent == Some(d));
                            assert(old_nlibs <= d as int);
                        }
                        self.add_manual_dependency(d, id);
                        proof {
                            Self::lemma_extends_dep_push(orig, pre, *self, d as int);
                        }
                    }
                    if !records_contain(&records, id) {
                        let ghost recs_before = records@;
                        let c = self.libraries[id].comp;
                        records.push(LoadRecord { lib: id, comp: c });
                        proof {
                            assert forall|i: int|
                                old_nlibs <= i < self.libraries@.len() implies recorded(
                                records@,
                                i,
                            ) by {
                                if i == id as int {
                                    assert(records@[records@.len() - 1].lib == id);
                                } else {
                                    assert(recorded(recs_before, i));
                                    lemma_recorded_push(
                                        recs_before,
                                        LoadRecord { lib: id, comp: c },
                                        i,
                                    );
                                }
                            }
                        }
                    }
                },
                ResolveOutcome::Created(id) => {
                    let ghost mid = *self;
                    proof {
                        Self::lemma_extends_trans(orig, pre, mid);
                        assert(self.lib_wf(id as int));
                    }
                    if let Some(d) = item.dependent {
                        proof {
                            assert(self.libraries@[d as int] == pre.libraries@[d as int]);
                        }
                        self.add_manual_dependency(d, id);
                        proof {
                            Self::lemma_extends_dep_push(orig, mid, *self, d as int);
                        }
                    }
                    proof {
                        assert(self.lib_wf(id as int));
                    }
                    let ghost recs_before = records@;
                    let c = self.libraries[id].comp;
                    records.push(LoadRecord { lib: id, comp: c });
                    proof {
                        assert forall|i: int|
                            old_nlibs <= i < self.libraries@.len() implies recorded(
                            records@,
                            i,
                        ) by {
                            if i == id as int {
                                assert(records@[records@.len() - 1].lib == id);
                            } else {
                                assert(recorded(recs_before, i));
                                lemma_recorded_push(
                                    recs_before,
                                    LoadRecord { lib: id, comp: c },
                                    i,
                                );
                            }
                        }
                    }
                    self.enqueue_needed(id, &mut work, &mut errors);
                },
            }
        }
        proof {
            assert(Self::extends(*old(self), *self));
        }
        if errors.len() > 0 {
            return Err(LoadError::Dependency(errors));
        }
        Ok(records)
    }
}

} // verus!
