//! The compartment loader and the runtime bring-up driver.
//!
//! `load_compartment` builds a new compartment around a root image,
//! pulls in its transitive dependency closure (which resolution may
//! spread across compartments), injects the shared runtime library into
//! every compartment it touched, relocates the root closure, and emits
//! one bring-up record per compartment.  `start_main` then starts the
//! extra compartments in exact reverse of the order they were emitted,
//! and the root compartment strictly last.

use vstd::prelude::*;

use crate::context::{Context, LoadRecord, Selector};
use crate::ctors::{ctors_topo_ok, CtorInfo};
use crate::errors::{DependencyError, LoadError, StartError};
use crate::image::{elf_entry_addr, entry_addr_of, Backing};
use crate::library::{normalized_name, Library, UnloadedLibrary};

verus! {

/// The well-known name of the shared runtime library injected into every
/// compartment.
pub const RUNTIME_NAME: &'static str = "libtwz_rt.so";

/// The view of the runtime library's name.
pub open spec fn rt_name() -> Seq<char> {
    "libtwz_rt.so"@
}

/// A compartment prepared for running: its identity and its place in the
/// loader context.
pub struct RunComp {
    /// The security-context id this compartment runs under.
    pub sctx_id: u128,
    /// The object instance backing the security context.
    pub instance: u128,
    /// The compartment's human-readable name.
    pub name: String,
    /// The compartment's id in the loader context.
    pub compartment_id: usize,
    /// The id of the compartment's root library.
    pub root_library_id: usize,
}

impl RunComp {
    /// Describe a compartment for running.
    pub fn new(
        sctx_id: u128,
        instance: u128,
        name: &String,
        compartment_id: usize,
        root_library_id: usize,
    ) -> (r: RunComp)
        ensures
            r.sctx_id == sctx_id,
            r.instance == instance,
            r.name@ == name@,
            r.compartment_id == compartment_id,
            r.root_library_id == root_library_id,
    {
        RunComp { sctx_id, instance, name: name.clone(), compartment_id, root_library_id }
    }
}

/// Everything needed to start one compartment's main thread.
pub struct ExtraCompInfo {
    /// The compartment's root library.
    pub root_id: usize,
    /// The runtime library serving this compartment.
    pub rt_id: usize,
    /// The security-context id assigned to the compartment.
    pub sctx_id: u128,
    /// The compartment's run description.
    pub comp: RunComp,
    /// Dependency-ordered constructor list of the root's closure.
    pub ctor_info: Vec<CtorInfo>,
    /// Absolute address of the runtime entry point.
    pub entry_point: u64,
}

/// The result of a compartment load: the root compartment's bring-up
/// record and the extra compartments', in discovery order.
pub struct Loader {
    /// Bring-up records of the other compartments this load touched.
    pub extra_compartments: Vec<ExtraCompInfo>,
    /// Every dependency this load resolved, the root's record first, one
    /// per library.
    pub records: Vec<LoadRecord>,
    /// The root library, where a future unload would begin.
    pub start_unload: usize,
    /// The root compartment's bring-up record.
    pub root_comp: ExtraCompInfo,
}

/// The serialized loader state: the context and the security-context id
/// counter.
pub struct CompManInner {
    /// The loader context: all compartments and libraries.
    pub dynlink: Context,
    /// The next security-context id to hand out.
    pub ctx_num: u64,
}

/// The compartment manager.  Callers that share one across threads wrap
/// it in one exclusive lock; all loads serialize behind it.
pub struct CompMan {
    /// The guarded state.
    pub inner: CompManInner,
}

/// Field-wise equality of libraries.
pub open spec fn lib_eq(a: Library, b: Library) -> bool {
    &&& a.name@ == b.name@
    &&& a.backing.id == b.backing.id
    &&& a.backing.data@ == b.backing.data@
    &&& a.comp == b.comp
    &&& a.deps@ == b.deps@
    &&& a.base == b.base
    &&& a.relocated == b.relocated
}

/// Field-wise equality of contexts.
pub open spec fn ctx_eq(a: Context, b: Context) -> bool {
    &&& a.libraries@.len() == b.libraries@.len()
    &&& forall|i: int|
        0 <= i < a.libraries@.len() ==> lib_eq(
            #[trigger] a.libraries@[i],
            #[trigger] b.libraries@[i],
        )
    &&& a.compartments@.len() == b.compartments@.len()
    &&& forall|c: int|
        0 <= c < a.compartments@.len() ==> (#[trigger] a.compartments@[c]).name@
            == b.compartments@[c].name@ && a.compartments@[c].lib_ids@
            == b.compartments@[c].lib_ids@
}

/// Field-wise equality of loader states.
pub open spec fn inner_eq(a: CompManInner, b: CompManInner) -> bool {
    ctx_eq(a.dynlink, b.dynlink) && a.ctx_num == b.ctx_num
}

/// Duplicate a library, field for field.
fn clone_library(l: &Library) -> (r: Library)
    ensures
        lib_eq(r, *l),
{
    let data = l.backing.data.clone();
    let deps = l.deps.clone();
    proof {
        assert forall|i: int| 0 <= i < l.backing.data@.len() implies data@[i]
            == l.backing.data@[i] by {
            assert(cloned::<u8>(l.backing.data@[i], data@[i]));
        }
        assert(data@ =~= l.backing.data@);
        assert forall|i: int| 0 <= i < l.deps@.len() implies deps@[i] == l.deps@[i] by {
            assert(cloned::<usize>(l.deps@[i], deps@[i]));
        }
        assert(deps@ =~= l.deps@);
    }
    Library {
        name: l.name.clone(),
        backing: Backing { id: l.backing.id, data },
        comp: l.comp,
        deps,
        base: l.base,
        relocated: l.relocated,
    }
}

/// Duplicate a context, field for field.
fn clone_context(ctx: &Context) -> (r: Context)
    ensures
        ctx_eq(r, *ctx),
{
    let mut libraries: Vec<Library> = Vec::new();
    let mut i: usize = 0;
    let n = ctx.libraries.len();
    while i < n
        invariant
            i <= n,
            n == ctx.libraries@.len(),
            libraries@.len() == i,
            forall|k: int|
                0 <= k < i ==> lib_eq(#[trigger] libraries@[k], #[trigger] ctx.libraries@[k]),
        decreases n - i,
    {
        libraries.push(clone_library(&ctx.libraries[i]));
        i = i + 1;
    }
    let mut compartments: Vec<crate::context::Compartment> = Vec::new();
    let mut c: usize = 0;
    let m = ctx.compartments.len();
    while c < m
        invariant
            c <= m,
            m == ctx.compartments@.len(),
            compartments@.len() == c,
            forall|k: int|
                0 <= k < c ==> (#[trigger] compartments@[k]).name@ == ctx.compartments@[k].name@
                    && compartments@[k].lib_ids@ == ctx.compartments@[k].lib_ids@,
        decreases m - c,
    {
        let comp = &ctx.compartments[c];
        let ids = comp.lib_ids.clone();
        proof {
            assert forall|i2: int| 0 <= i2 < comp.lib_ids@.len() implies ids@[i2]
                == comp.lib_ids@[i2] by {
                assert(cloned::<usize>(comp.lib_ids@[i2], ids@[i2]));
            }
            assert(ids@ =~= comp.lib_ids@);
        }
        compartments.push(crate::context::Compartment { name: comp.name.clone(), lib_ids: ids });
        c = c + 1;
    }
    Context { compartments, libraries }
}

/// Equal contexts are interchangeably well-formed.
proof fn lemma_ctx_eq_wf(a: Context, b: Context)
    requires
        ctx_eq(a, b),
        a.wf(),
    ensures
        b.wf(),
{
    assert forall|l: int| 0 <= l < b.libraries@.len() implies #[trigger] b.lib_wf(l) by {
        assert(a.lib_wf(l));
        assert(lib_eq(a.libraries@[l], b.libraries@[l]));
        let lib_a = a.libraries@[l];
        let lib_b = b.libraries@[l];
        assert forall|j: int| 0 <= j < lib_b.deps@.len() implies (#[trigger] lib_b.deps@[j] as int)
            < b.libraries@.len() by {
            assert(lib_a.deps@[j] == lib_b.deps@[j]);
        }
        if lib_b.relocated {
            assert forall|j: int|
                0 <= j < lib_b.deps@.len() implies b.libraries@[(
            #[trigger] lib_b.deps@[j]) as int].relocated by {
                assert(lib_a.deps@[j] == lib_b.deps@[j]);
                assert(a.libraries@[lib_a.deps@[j] as int].relocated);
                assert(lib_eq(
                    a.libraries@[lib_a.deps@[j] as int],
                    b.libraries@[lib_a.deps@[j] as int],
                ));
            }
        }
        let k = choose|k: int|
            0 <= k < a.compartments@[lib_a.comp as int].lib_ids@.len()
                && a.compartments@[lib_a.comp as int].lib_ids@[k] == l;
        assert(b.compartments@[lib_b.comp as int].lib_ids@[k] == l);
    }
    assert forall|c: int| 0 <= c < b.compartments@.len() implies #[trigger] b.comp_wf(c) by {
        assert(a.comp_wf(c));
        let ids = b.compartments@[c].lib_ids@;
        assert(ids == a.compartments@[c].lib_ids@);
        assert forall|k: int| 0 <= k < ids.len() implies (#[trigger] ids[k] as int)
            < b.libraries@.len() && b.libraries@[ids[k] as int].comp == c by {
            assert(a.libraries@[ids[k] as int].comp == c);
            assert(lib_eq(a.libraries@[ids[k] as int], b.libraries@[ids[k] as int]));
        }
        assert forall|k1: int, k2: int|
            0 <= k1 < k2 < ids.len() implies #[trigger] b.libraries@[ids[k1] as int].name@
            != #[trigger] b.libraries@[ids[k2] as int].name@ by {
            assert(a.libraries@[ids[k1] as int].name@ != a.libraries@[ids[k2] as int].name@);
            assert(lib_eq(a.libraries@[ids[k1] as int], b.libraries@[ids[k1] as int]));
            assert(lib_eq(a.libraries@[ids[k2] as int], b.libraries@[ids[k2] as int]));
        }
    }
    assert forall|c1: int, c2: int|
        0 <= c1 < c2 < b.compartments@.len() implies #[trigger] b.compartments@[c1].name@
        != #[trigger] b.compartments@[c2].name@ by {
        assert(a.compartments@[c1].name@ != a.compartments@[c2].name@);
    }
}

/// Law: a compartment holds at most one library of a given name, so two
/// lookups of the runtime library in the same compartment yield the same
/// id — injecting the shared runtime twice returns the same library both
/// times.
pub proof fn lemma_runtime_injection_idempotent(
    ctx: Context,
    comp_id: int,
    id1: int,
    id2: int,
)
    requires
        ctx.wf(),
        0 <= comp_id < ctx.compartments@.len(),
        0 <= id1 < ctx.libraries@.len(),
        0 <= id2 < ctx.libraries@.len(),
        ctx.libraries@[id1].comp == comp_id,
        ctx.libraries@[id2].comp == comp_id,
        ctx.libraries@[id1].name@ == rt_name(),
        ctx.libraries@[id2].name@ == rt_name(),
    ensures
        id1 == id2,
{
    assert(ctx.lib_wf(id1));
    assert(ctx.lib_wf(id2));
    assert(ctx.comp_wf(comp_id));
    let ids = ctx.compartments@[comp_id].lib_ids@;
    let k1 = choose|k: int| 0 <= k < ids.len() && ids[k] == id1;
    let k2 = choose|k: int| 0 <= k < ids.len() && ids[k] == id2;
    if k1 != k2 {
        if k1 < k2 {
            assert(ctx.libraries@[ids[k1] as int].name@ != ctx.libraries@[ids[k2] as int].name@);
        } else {
            assert(ctx.libraries@[ids[k2] as int].name@ != ctx.libraries@[ids[k1] as int].name@);
        }
    }
}

/// Frame between library arenas: entries keep their identity (name,
/// compartment, base, backing), while dependency edges and relocation
/// marks may advance and new entries may be appended.
pub open spec fn libs_frame(a: Seq<Library>, b: Seq<Library>) -> bool {
    &&& a.len() <= b.len()
    &&& forall|i: int|
        0 <= i < a.len() ==> ((#[trigger] b[i]).name@ == a[i].name@ && b[i].comp == a[i].comp
            && b[i].base == a[i].base && b[i].backing.id == a[i].backing.id && b[i].backing.data@
            == a[i].backing.data@)
}

/// Frame between compartment arenas: names persist, entries may be
/// appended.
pub open spec fn comps_frame(
    a: Seq<crate::context::Compartment>,
    b: Seq<crate::context::Compartment>,
) -> bool {
    a.len() <= b.len() && forall|c: int|
        0 <= c < a.len() ==> (#[trigger] b[c]).name@ == a[c].name@
}

/// Frames compose.
proof fn lemma_frames_trans(
    a: Context,
    b: Context,
    c: Context,
)
    requires
        libs_frame(a.libraries@, b.libraries@),
        libs_frame(b.libraries@, c.libraries@),
        comps_frame(a.compartments@, b.compartments@),
        comps_frame(b.compartments@, c.compartments@),
    ensures
        libs_frame(a.libraries@, c.libraries@),
        comps_frame(a.compartments@, c.compartments@),
{
}

/// An extension is a frame.
proof fn lemma_extends_frame(a: Context, b: Context)
    requires
        Context::extends(a, b),
    ensures
        libs_frame(a.libraries@, b.libraries@),
        comps_frame(a.compartments@, b.compartments@),
{
}

/// The runtime library's name is already canonical.
proof fn lemma_rt_name_normalized()
    ensures
        normalized_name(rt_name()) == rt_name(),
{
    reveal_strlit("libtwz_rt.so");
    reveal_strlit("libstd-");
    if rt_name().len() >= "libstd-"@.len() && rt_name().subrange(0, "libstd-"@.len() as int)
        == "libstd-"@ {
        assert(rt_name().subrange(0, "libstd-"@.len() as int)[3] == "libstd-"@[3]);
        assert(rt_name()[3] == 't');
        assert("libstd-"@[3] == 's');
    }
}

/// A duplicate-free sequence of ids below `n` has at most `n` entries.
proof fn lemma_distinct_bounded(s: Seq<usize>, n: int)
    requires
        forall|k1: int, k2: int| 0 <= k1 < k2 < s.len() ==> s[k1] != s[k2],
        forall|k: int| 0 <= k < s.len() ==> (s[k] as int) < n,
        n >= 0,
    ensures
        s.len() <= n,
{
    let t = s.map_values(|v: usize| v as int);
    assert(t.len() == s.len());
    assert(t.no_duplicates()) by {
        assert forall|k1: int, k2: int|
            0 <= k1 < t.len() && 0 <= k2 < t.len() && k1 != k2 implies t[k1] != t[k2] by {
            if k1 < k2 {
                assert(s[k1] != s[k2]);
            } else {
                assert(s[k2] != s[k1]);
            }
        }
    }
    t.unique_seq_to_set();
    vstd::set_lib::lemma_int_range(0, n);
    assert(t.to_set().subset_of(vstd::set_lib::set_int_range(0, n))) by {
        assert forall|e: int| t.to_set().contains(e) implies vstd::set_lib::set_int_range(
            0,
            n,
        ).contains(e) by {
            assert(t.contains(e));
            let k = choose|k: int| 0 <= k < t.len() && t[k] == e;
            assert(0 <= s[k] as int && (s[k] as int) < n);
        }
    }
    vstd::set_lib::lemma_len_subset(t.to_set(), vstd::set_lib::set_int_range(0, n));
}

impl CompManInner {
    /// A fresh loader state.
    pub fn new() -> (r: CompManInner)
        ensures
            r.dynlink.wf(),
            r.dynlink.libraries@.len() == 0,
            r.dynlink.compartments@.len() == 0,
            r.ctx_num == 1,
    {
        CompManInner { dynlink: Context::new(), ctx_num: 1 }
    }

    /// Allocate a fresh security-context id; the counter wraps.
    fn next_sctx(&mut self) -> (r: u128)
        ensures
            final(self).dynlink == old(self).dynlink,
            r == old(self).ctx_num as u128,
            old(self).ctx_num < u64::MAX ==> final(self).ctx_num == old(self).ctx_num + 1,
    {
        let r = self.ctx_num;
        if self.ctx_num == u64::MAX {
            self.ctx_num = 0;
        } else {
            self.ctx_num = self.ctx_num + 1;
        }
        r as u128
    }

    /// Inject the shared runtime library into a compartment, loading it
    /// only when it is not already there: lookup-or-load is idempotent,
    /// and a second injection returns the same library id.  A fresh
    /// runtime copy is recorded as a dependency of `root_id`.
    pub fn maybe_inject_rt<S: Selector>(
        &mut self,
        root_id: usize,
        comp_id: usize,
        sel: &S,
    ) -> (r: Result<usize, LoadError>)
        requires
            old(self).dynlink.wf(),
            (root_id as int) < old(self).dynlink.libraries@.len(),
            (comp_id as int) < old(self).dynlink.compartments@.len(),
        ensures
            final(self).dynlink.wf(),
            final(self).ctx_num == old(self).ctx_num,
            libs_frame(old(self).dynlink.libraries@, final(self).dynlink.libraries@),
            comps_frame(old(self).dynlink.compartments@, final(self).dynlink.compartments@),
            old(self).dynlink.comp_has_name(comp_id as int, rt_name())
                ==> (*final(self) == *old(self)
                    && (r matches Ok(id)
                        && (id as int) < old(self).dynlink.libraries@.len()
                        && old(self).dynlink.libraries@[id as int].comp == comp_id
                        && old(self).dynlink.libraries@[id as int].name@ == rt_name())),
            r matches Ok(id) ==> (id as int) < final(self).dynlink.libraries@.len()
                && final(self).dynlink.libraries@[id as int].name@ == rt_name()
                && final(self).dynlink.libraries@[id as int].comp == comp_id,
            !old(self).dynlink.comp_has_name(comp_id as int, rt_name()) ==> (r matches Ok(id)
                ==> {
                &&& !old(self).dynlink.libraries@[root_id as int].relocated
                    ==> final(self).dynlink.libraries@[root_id as int].deps@
                    == old(self).dynlink.libraries@[root_id as int].deps@.push(id)
                &&& old(self).dynlink.libraries@[root_id as int].relocated
                    ==> final(self).dynlink.libraries@[root_id as int].deps@
                    == old(self).dynlink.libraries@[root_id as int].deps@
            }),
            r matches Err(e) ==> (e matches LoadError::Dependency(es) && es@.len() > 0),
    {
        match self.dynlink.lookup_library(comp_id, RUNTIME_NAME) {
            Some(id) => Ok(id),
            None => {
                let ghost pre = self.dynlink;
                let rt_unlib = UnloadedLibrary::new(RUNTIME_NAME);
                let loads = match self.dynlink.load_library_in_compartment(
                    comp_id,
                    rt_unlib,
                    sel,
                ) {
                    Ok(l) => l,
                    Err(e) => {
                        proof {
                            lemma_extends_frame(pre, self.dynlink);
                        }
                        return Err(e);
                    },
                };
                proof {
                    lemma_extends_frame(pre, self.dynlink);
                    lemma_rt_name_normalized();
                }
                let rt_id = match self.dynlink.lookup_library(comp_id, RUNTIME_NAME) {
                    Some(id) => id,
                    None => {
                        // the resolver sent the runtime's backing elsewhere;
                        // it cannot serve this compartment
                        let mut es: Vec<DependencyError> = Vec::new();
                        es.push(
                            DependencyError::UnresolvedName(RUNTIME_NAME.to_owned()),
                        );
                        return Err(LoadError::Dependency(es));
                    },
                };
                if !self.dynlink.libraries[root_id].relocated {
                    let ghost mid = self.dynlink;
                    self.dynlink.add_manual_dependency(root_id, rt_id);
                    proof {
                        assert(libs_frame(mid.libraries@, self.dynlink.libraries@));
                        lemma_frames_trans(pre, mid, self.dynlink);
                        assert(self.dynlink.libraries@[root_id as int].deps@
                            == old(self).dynlink.libraries@[root_id as int].deps@.push(rt_id));
                    }
                }
                Ok(rt_id)
            },
        }
    }
}

/// One staged extra compartment, before its bring-up record is built.
struct StagedComp {
    comp: usize,
    root: usize,
    rt: usize,
    sctx: u128,
}

/// Whether `v` holds `x`.
fn usize_vec_contains(v: &Vec<usize>, x: usize) -> (r: bool)
    ensures
        r == exists|k: int| 0 <= k < v@.len() && (#[trigger] v@[k]) == x,
{
    let mut k: usize = 0;
    let n = v.len();
    while k < n
        invariant
            k <= n,
            n == v@.len(),
            forall|i: int| 0 <= i < k ==> (#[trigger] v@[i]) != x,
        decreases n - k,
    {
        if v[k] == x {
            return true;
        }
        k = k + 1;
    }
    false
}

/// The absolute runtime entry-point address of a library, if its image
/// header names one that lies inside the image.
fn entry_of(ctx: &Context, rt: usize) -> (r: Option<u64>)
    requires
        ctx.wf(),
        (rt as int) < ctx.libraries@.len(),
    ensures
        match r {
            Some(e) => entry_addr_of(ctx.libraries@[rt as int].backing.data@) matches Some(v) && v
                < ctx.libraries@[rt as int].backing.data@.len() && e == ctx.libraries@[rt as int].base
                + v,
            None => !(entry_addr_of(ctx.libraries@[rt as int].backing.data@) matches Some(v) && v
                < ctx.libraries@[rt as int].backing.data@.len()),
        },
{
    proof {
        assert(ctx.lib_wf(rt as int));
        assert((rt as int + 1) * (crate::context::SLOT_SIZE as int) <= (
        crate::MAX_LIBRARIES as int) * (crate::context::SLOT_SIZE as int)) by (nonlinear_arith)
            requires
                rt as int + 1 <= crate::MAX_LIBRARIES as int,
                crate::context::SLOT_SIZE as int >= 0,
        ;
    }
    let lib = &ctx.libraries[rt];
    match elf_entry_addr(lib.backing.data.as_slice()) {
        Some(v) => {
            if v < lib.backing.data.len() as u64 {
                Some(lib.base + v)
            } else {
                None
            }
        },
        None => None,
    }
}

impl CompMan {
    /// A fresh compartment manager.
    pub fn new() -> (r: CompMan)
        ensures
            r.inner.dynlink.wf(),
            r.inner.dynlink.libraries@.len() == 0,
            r.inner.dynlink.compartments@.len() == 0,
            r.inner.ctx_num == 1,
    {
        CompMan { inner: CompManInner::new() }
    }

    /// Load a named compartment around a root image.
    ///
    /// Creates the compartment, pulls in the root's transitive dependency
    /// closure (resolution may place shared dependencies in other,
    /// possibly pre-existing compartments), injects the shared runtime
    /// into every compartment this load touched, relocates the whole root
    /// closure, and emits one bring-up record per compartment: the root's
    /// own, and one for each other compartment encountered, each exactly
    /// once.  Every constructor list is a dependency-first order of its
    /// compartment, ending at that compartment's root library.  The
    /// returned records list every resolved dependency, the root's first.
    /// Security-context ids come from the strictly increasing counter:
    /// the extra compartments get consecutive ids and the root the next
    /// one, so no id ever repeats.  On any failure nothing is registered:
    /// the state is left exactly as it was; a name clash with an existing
    /// compartment is rejected up front.
    pub fn load_compartment<S: Selector>(
        &mut self,
        comp_name: &str,
        root_unlib: UnloadedLibrary,
        sel: &S,
    ) -> (r: Result<Loader, LoadError>)
        requires
            old(self).inner.dynlink.wf(),
            old(self).inner.ctx_num as int + crate::MAX_LIBRARIES as int + 1 <= u64::MAX as int,
        ensures
            final(self).inner.dynlink.wf(),
            (exists|c: int|
                0 <= c < old(self).inner.dynlink.compartments@.len()
                    && (#[trigger] old(self).inner.dynlink.compartments@[c]).name@ == comp_name@)
                <==> (r matches Err(e) && e is DuplicateCompartment),
            match r {
                Ok(loader) => {
                    let libs = final(self).inner.dynlink.libraries@;
                    let comps = final(self).inner.dynlink.compartments@;
                    let extras = loader.extra_compartments@;
                    &&& (loader.root_comp.comp.compartment_id as int) < comps.len()
                    &&& comps[loader.root_comp.comp.compartment_id as int].name@ == comp_name@
                    &&& loader.root_comp.comp.name@ == comp_name@
                    &&& (loader.root_comp.root_id as int) < libs.len()
                    &&& libs[loader.root_comp.root_id as int].name@ == normalized_name(
                        root_unlib.name@,
                    )
                    &&& loader.start_unload == loader.root_comp.root_id
                    &&& loader.root_comp.comp.root_library_id == loader.root_comp.root_id
                    &&& libs[loader.root_comp.root_id as int].relocated
                    &&& ctors_topo_ok(
                        libs,
                        libs[loader.root_comp.root_id as int].comp,
                        loader.root_comp.ctor_info@,
                    )
                    &&& loader.root_comp.ctor_info@.len() >= 1
                    &&& loader.root_comp.ctor_info@[loader.root_comp.ctor_info@.len() - 1].lib
                        == loader.root_comp.root_id
                    &&& forall|k: int|
                        0 <= k < extras.len() ==> ((#[trigger] extras[k]).comp.compartment_id
                            as int) < comps.len() && extras[k].comp.compartment_id
                            != loader.root_comp.comp.compartment_id
                    &&& forall|k1: int, k2: int|
                        0 <= k1 < k2 < extras.len() ==> (
                        #[trigger] extras[k1]).comp.compartment_id != (
                        #[trigger] extras[k2]).comp.compartment_id
                    &&& forall|k: int|
                        0 <= k < extras.len() ==> {
                            let e = #[trigger] extras[k];
                            &&& (e.root_id as int) < libs.len()
                            &&& libs[e.root_id as int].comp == e.comp.compartment_id
                            &&& e.comp.root_library_id == e.root_id
                            &&& ctors_topo_ok(libs, e.comp.compartment_id, e.ctor_info@)
                            &&& e.ctor_info@.len() >= 1
                            &&& e.ctor_info@[e.ctor_info@.len() - 1].lib == e.root_id
                            &&& (e.rt_id as int) < libs.len()
                            &&& libs[e.rt_id as int].name@ == rt_name()
                        }
                    &&& loader.records@.len() >= 1
                    &&& loader.records@[0].lib == loader.root_comp.root_id
                    &&& forall|k: int|
                        0 <= k < loader.records@.len() ==> (((#[trigger] loader.records@[k]).lib)
                            as int) < libs.len()
                            && libs[loader.records@[k].lib as int].comp == loader.records@[k].comp
                    &&& forall|k1: int, k2: int|
                        0 <= k1 < k2 < loader.records@.len() ==> (#[trigger] loader.records@[k1]).lib
                            != (#[trigger] loader.records@[k2]).lib
                    &&& forall|k: int|
                        0 <= k < loader.records@.len() && (#[trigger] loader.records@[k]).comp
                            != loader.root_comp.comp.compartment_id ==> exists|j: int|
                            0 <= j < extras.len() && (#[trigger] extras[j]).comp.compartment_id
                                == loader.records@[k].comp
                    &&& forall|k: int|
                        0 <= k < extras.len() ==> ((#[trigger] extras[k]).sctx_id as int == old(
                            self,
                        ).inner.ctx_num as int + k && extras[k].comp.sctx_id == extras[k].sctx_id)
                    &&& loader.root_comp.sctx_id as int == old(self).inner.ctx_num as int
                        + extras.len()
                    &&& loader.root_comp.comp.sctx_id == loader.root_comp.sctx_id
                    &&& final(self).inner.ctx_num as int == old(self).inner.ctx_num as int
                        + extras.len() + 1
                },
                Err(e) => inner_eq(final(self).inner, old(self).inner),
            },
    {
        let mut work = CompManInner {
            dynlink: clone_context(&self.inner.dynlink),
            ctx_num: self.inner.ctx_num,
        };
        proof {
            lemma_ctx_eq_wf(self.inner.dynlink, work.dynlink);
        }
        let ghost w0 = work.dynlink;
        let root_comp_id = match work.dynlink.add_compartment(comp_name) {
            Ok(c) => c,
            Err(e) => {
                proof {
                    let cw = choose|cw: int|
                        0 <= cw < w0.compartments@.len()
                            && (#[trigger] w0.compartments@[cw]).name@ == comp_name@;
                    assert(old(self).inner.dynlink.compartments@[cw].name@ == comp_name@);
                }
                return Err(e);
            },
        };
        proof {
            assert forall|c: int|
                0 <= c < old(self).inner.dynlink.compartments@.len() implies (#[trigger] old(
                self,
            ).inner.dynlink.compartments@[c]).name@ != comp_name@ by {
                assert(w0.compartments@[c].name@ == old(
                    self,
                ).inner.dynlink.compartments@[c].name@);
                assert(w0.compartments@[c].name@ != comp_name@);
            }
        }
        let ghost a0 = work.dynlink;
        let loads = match work.dynlink.load_library_in_compartment(root_comp_id, root_unlib, sel) {
            Ok(l) => l,
            Err(e) => {
                return Err(e);
            },
        };
        let ghost l0 = work.dynlink;
        proof {
            lemma_extends_frame(a0, l0);
            let libseq = loads@.map_values(|r: LoadRecord| r.lib);
            assert forall|k1: int, k2: int|
                0 <= k1 < k2 < libseq.len() implies libseq[k1] != libseq[k2] by {
                assert(loads@[k1].lib != loads@[k2].lib);
            }
            assert forall|k: int| 0 <= k < libseq.len() implies (libseq[k] as int)
                < crate::MAX_LIBRARIES as int by {
                assert((loads@[k].lib as int) < l0.libraries@.len());
            }
            lemma_distinct_bounded(libseq, crate::MAX_LIBRARIES as int);
            assert(loads@.len() <= crate::MAX_LIBRARIES);
        }
        let mut staged: Vec<StagedComp> = Vec::new();
        let mut cache: Vec<usize> = Vec::new();
        let mut k: usize = 0;
        while k < loads.len()
            invariant
                *self == *old(self),
                self.inner.dynlink.wf(),
                !(exists|c: int|
                    0 <= c < old(self).inner.dynlink.compartments@.len()
                        && (#[trigger] old(self).inner.dynlink.compartments@[c]).name@
                        == comp_name@),
                work.dynlink.wf(),
                l0.wf(),
                libs_frame(l0.libraries@, work.dynlink.libraries@),
                comps_frame(l0.compartments@, work.dynlink.compartments@),
                comps_frame(a0.compartments@, l0.compartments@),
                (root_comp_id as int) < a0.compartments@.len(),
                a0.compartments@[root_comp_id as int].name@ == comp_name@,
                loads@.len() >= 1,
                loads@.len() <= crate::MAX_LIBRARIES,
                forall|j: int|
                    0 <= j < loads@.len() ==> (((#[trigger] loads@[j]).lib) as int)
                        < l0.libraries@.len() && l0.libraries@[loads@[j].lib as int].comp
                        == loads@[j].comp,
                forall|j1: int, j2: int|
                    0 <= j1 < j2 < loads@.len() ==> (#[trigger] loads@[j1]).lib != (
                    #[trigger] loads@[j2]).lib,
                k <= loads@.len(),
                staged@.len() <= k,
                work.ctx_num as int == old(self).inner.ctx_num as int + staged@.len(),
                old(self).inner.ctx_num as int + crate::MAX_LIBRARIES as int + 1 <= u64::MAX
                    as int,
                forall|j: int|
                    0 <= j < staged@.len() ==> (#[trigger] staged@[j]).sctx as int == old(
                        self,
                    ).inner.ctx_num as int + j,
                forall|k2: int|
                    0 <= k2 < k && (#[trigger] loads@[k2]).comp != root_comp_id ==> exists|j: int|
                        0 <= j < staged@.len() && (#[trigger] staged@[j]).comp == loads@[k2].comp,
                cache@.len() == staged@.len(),
                forall|j: int|
                    0 <= j < staged@.len() ==> (#[trigger] staged@[j]).comp == cache@[j],
                forall|j1: int, j2: int|
                    0 <= j1 < j2 < staged@.len() ==> (#[trigger] staged@[j1]).comp != (
                    #[trigger] staged@[j2]).comp,
                forall|j: int|
                    0 <= j < staged@.len() ==> {
                        let s = #[trigger] staged@[j];
                        &&& s.comp != root_comp_id
                        &&& (s.comp as int) < work.dynlink.compartments@.len()
                        &&& (s.root as int) < l0.libraries@.len()
                        &&& l0.libraries@[s.root as int].comp == s.comp
                        &&& (s.rt as int) < work.dynlink.libraries@.len()
                        &&& work.dynlink.libraries@[s.rt as int].name@ == rt_name()
                    },
            decreases loads@.len() - k,
        {
            let rec = loads[k];
            if rec.comp != root_comp_id && !usize_vec_contains(&cache, rec.comp) {
                proof {
                    assert(l0.lib_wf(rec.lib as int));
                }
                let ghost pre = work.dynlink;
                let rt_id = match work.maybe_inject_rt(rec.lib, rec.comp, sel) {
                    Ok(id) => id,
                    Err(e) => {
                        return Err(e);
                    },
                };
                proof {
                    lemma_frames_trans(l0, pre, work.dynlink);
                }
                let sctx = work.next_sctx();
                let ghost staged0 = staged@;
                cache.push(rec.comp);
                staged.push(StagedComp { comp: rec.comp, root: rec.lib, rt: rt_id, sctx });
                proof {
                    assert(staged@[staged@.len() - 1].comp == rec.comp);
                    assert forall|k2: int|
                        0 <= k2 < k + 1 && (#[trigger] loads@[k2]).comp != root_comp_id
                            implies exists|j: int|
                        0 <= j < staged@.len() && (#[trigger] staged@[j]).comp
                            == loads@[k2].comp by {
                        if k2 == k as int {
                            assert(staged@[staged@.len() - 1].comp == loads@[k2].comp);
                        } else {
                            let j = choose|j: int|
                                0 <= j < staged0.len() && (#[trigger] staged0[j]).comp
                                    == loads@[k2].comp;
                            assert(staged@[j].comp == loads@[k2].comp);
                        }
                    }
                }
            } else {
                proof {
                    if rec.comp != root_comp_id {
                        let jc = choose|jc: int|
                            0 <= jc < cache@.len() && (#[trigger] cache@[jc]) == rec.comp;
                        assert(staged@[jc].comp == rec.comp);
                    }
                    assert forall|k2: int|
                        0 <= k2 < k + 1 && (#[trigger] loads@[k2]).comp != root_comp_id
                            implies exists|j: int|
                        0 <= j < staged@.len() && (#[trigger] staged@[j]).comp
                            == loads@[k2].comp by {
                        if k2 < k as int {
                            let j = choose|j: int|
                                0 <= j < staged@.len() && (#[trigger] staged@[j]).comp
                                    == loads@[k2].comp;
                        }
                    }
                }
            }
            k = k + 1;
        }
        let root_id = loads[0].lib;
        let ghost pre_rt = work.dynlink;
        let rt_root = match work.maybe_inject_rt(root_id, root_comp_id, sel) {
            Ok(id) => id,
            Err(e) => {
                return Err(e);
            },
        };
        proof {
            lemma_frames_trans(l0, pre_rt, work.dynlink);
        }
        let ghost pre_reloc = work.dynlink;
        match work.dynlink.relocate_all(root_id) {
            Ok(_) => {},
            Err(e) => {
                return Err(e);
            },
        };
        proof {
            assert(libs_frame(pre_reloc.libraries@, work.dynlink.libraries@));
            assert(comps_frame(pre_reloc.compartments@, work.dynlink.compartments@));
            lemma_frames_trans(l0, pre_reloc, work.dynlink);
        }
        let root_sctx = work.next_sctx();
        let ghost wfin = work.dynlink;
        let mut extras: Vec<ExtraCompInfo> = Vec::new();
        let mut k: usize = 0;
        while k < staged.len()
            invariant
                *self == *old(self),
                self.inner.dynlink.wf(),
                !(exists|c: int|
                    0 <= c < old(self).inner.dynlink.compartments@.len()
                        && (#[trigger] old(self).inner.dynlink.compartments@[c]).name@
                        == comp_name@),
                work.dynlink == wfin,
                wfin.wf(),
                libs_frame(l0.libraries@, wfin.libraries@),
                comps_frame(l0.compartments@, wfin.compartments@),
                (root_comp_id as int) < wfin.compartments@.len(),
                k <= staged@.len(),
                loads@.len() >= 1,
                root_id == loads@[0].lib,
                forall|j: int|
                    0 <= j < loads@.len() ==> (((#[trigger] loads@[j]).lib) as int)
                        < l0.libraries@.len() && l0.libraries@[loads@[j].lib as int].comp
                        == loads@[j].comp,
                forall|j1: int, j2: int|
                    0 <= j1 < j2 < loads@.len() ==> (#[trigger] loads@[j1]).lib != (
                    #[trigger] loads@[j2]).lib,
                forall|k2: int|
                    0 <= k2 < loads@.len() && (#[trigger] loads@[k2]).comp != root_comp_id
                        ==> exists|j: int|
                        0 <= j < staged@.len() && (#[trigger] staged@[j]).comp == loads@[k2].comp,
                work.ctx_num as int == old(self).inner.ctx_num as int + staged@.len() + 1,
                root_sctx as int == old(self).inner.ctx_num as int + staged@.len(),
                forall|j: int|
                    0 <= j < staged@.len() ==> (#[trigger] staged@[j]).sctx as int == old(
                        self,
                    ).inner.ctx_num as int + j,
                forall|j1: int, j2: int|
                    0 <= j1 < j2 < staged@.len() ==> (#[trigger] staged@[j1]).comp != (
                    #[trigger] staged@[j2]).comp,
                forall|j: int|
                    0 <= j < staged@.len() ==> {
                        let s = #[trigger] staged@[j];
                        &&& s.comp != root_comp_id
                        &&& (s.comp as int) < wfin.compartments@.len()
                        &&& (s.root as int) < l0.libraries@.len()
                        &&& l0.libraries@[s.root as int].comp == s.comp
                        &&& (s.rt as int) < wfin.libraries@.len()
                        &&& wfin.libraries@[s.rt as int].name@ == rt_name()
                    },
                extras@.len() == k,
                forall|j: int|
                    0 <= j < k ==> {
                        let e = #[trigger] extras@[j];
                        &&& e.comp.compartment_id == staged@[j].comp
                        &&& e.root_id == staged@[j].root
                        &&& e.rt_id == staged@[j].rt
                        &&& e.sctx_id == staged@[j].sctx
                        &&& e.comp.sctx_id == e.sctx_id
                        &&& (e.root_id as int) < wfin.libraries@.len()
                        &&& wfin.libraries@[e.root_id as int].comp == e.comp.compartment_id
                        &&& e.comp.root_library_id == e.root_id
                        &&& ctors_topo_ok(wfin.libraries@, e.comp.compartment_id, e.ctor_info@)
                        &&& e.ctor_info@.len() >= 1
                        &&& e.ctor_info@[e.ctor_info@.len() - 1].lib == e.root_id
                        &&& (e.rt_id as int) < wfin.libraries@.len()
                        &&& wfin.libraries@[e.rt_id as int].name@ == rt_name()
                    },
            decreases staged@.len() - k,
        {
            let s_comp = staged[k].comp;
            let s_root = staged[k].root;
            let s_rt = staged[k].rt;
            let s_sctx = staged[k].sctx;
            let dep_comp = match work.dynlink.get_compartment(s_comp) {
                Some(c) => RunComp::new(s_sctx, s_sctx, &c.name, s_comp, s_root),
                None => {
                    return Err(LoadError::MissingEntry);
                },
            };
            proof {
                assert(l0.libraries@[s_root as int].comp == s_comp);
                assert(wfin.libraries@[s_root as int].comp == s_comp);
            }
            let ctor_info = match work.dynlink.build_ctors_list(s_root) {
                Ok(c) => c,
                Err(e) => {
                    return Err(e);
                },
            };
            let entry_point = match entry_of(&work.dynlink, s_rt) {
                Some(e) => e,
                None => {
                    return Err(LoadError::MissingEntry);
                },
            };
            extras.push(
                ExtraCompInfo {
                    root_id: s_root,
                    rt_id: s_rt,
                    sctx_id: s_sctx,
                    comp: dep_comp,
                    ctor_info,
                    entry_point,
                },
            );
            k = k + 1;
        }
        let owned_name = comp_name.to_owned();
        let root_runcomp = RunComp::new(root_sctx, root_sctx, &owned_name, root_comp_id, root_id);
        let root_ctor_info = match work.dynlink.build_ctors_list(root_id) {
            Ok(c) => c,
            Err(e) => {
                return Err(e);
            },
        };
        let root_entry = match entry_of(&work.dynlink, rt_root) {
            Some(e) => e,
            None => {
                return Err(LoadError::MissingEntry);
            },
        };
        proof {
            assert(wfin.libraries@[root_id as int].name@ == l0.libraries@[root_id as int].name@);
            assert(wfin.compartments@[root_comp_id as int].name@ == comp_name@);
            assert forall|k2: int|
                0 <= k2 < loads@.len() && (#[trigger] loads@[k2]).comp != root_comp_id
                    implies exists|j: int|
                0 <= j < extras@.len() && (#[trigger] extras@[j]).comp.compartment_id
                    == loads@[k2].comp by {
                let j = choose|j: int|
                    0 <= j < staged@.len() && (#[trigger] staged@[j]).comp == loads@[k2].comp;
                assert(extras@[j].comp.compartment_id == loads@[k2].comp);
            }
            assert forall|k2: int| 0 <= k2 < loads@.len() implies (((#[trigger] loads@[k2]).lib)
                as int) < wfin.libraries@.len() && wfin.libraries@[loads@[k2].lib as int].comp
                == loads@[k2].comp by {
                assert(l0.libraries@[loads@[k2].lib as int].comp == loads@[k2].comp);
            }
        }
        self.inner = work;
        Ok(
            Loader {
                extra_compartments: extras,
                records: loads,
                start_unload: root_id,
                root_comp: ExtraCompInfo {
                    root_id,
                    rt_id: rt_root,
                    sctx_id: root_sctx,
                    comp: root_runcomp,
                    ctor_info: root_ctor_info,
                    entry_point: root_entry,
                },
            },
        )
    }
}

/// A handle tied to a started compartment reaching its readiness
/// checkpoint; callers needing end-to-end readiness wait on it
/// explicitly.
pub struct MainThreadReadyWaiter {
    /// The security-context id of the compartment being waited on.
    pub sctx_id: u128,
}

/// Starts compartment main threads.
///
/// The bring-up driver walks a [`Loader`] and hands each compartment to a
/// starter; the starter's log says which compartments were started, in
/// order, as `(security-context id, entry point)` pairs.  The thread
/// spawning itself lives with the implementation's environment.
pub trait Starter {
    /// The compartments started so far, in start order.  Implementations
    /// outside the library leave the default, which records nothing.
    open spec fn log(&self) -> Seq<(u128, u64)> {
        Seq::empty()
    }

    /// Start one compartment's main thread with its constructor list and
    /// entry point.
    fn start_compartment(
        &mut self,
        comp: &RunComp,
        ctor_info: &Vec<CtorInfo>,
        entry_point: u64,
    ) -> (r: Result<MainThreadReadyWaiter, StartError>)
        ensures
            r is Ok ==> final(self).log() == old(self).log().push((comp.sctx_id, entry_point)),
            r matches Ok(w) ==> w.sctx_id == comp.sctx_id,
            r is Err ==> final(self).log() == old(self).log(),
            r matches Err(e) ==> e.sctx_id == comp.sctx_id,
    ;
}

/// A starter that only records what it is asked to start; the test double
/// for the bring-up driver.
pub struct RecordingStarter {
    /// The `(security-context id, entry point)` pairs started, in order.
    pub started: Vec<(u128, u64)>,
}

impl RecordingStarter {
    /// An empty recorder.
    pub fn new() -> (r: RecordingStarter)
        ensures
            r.log() == Seq::<(u128, u64)>::empty(),
    {
        RecordingStarter { started: Vec::new() }
    }
}

impl Starter for RecordingStarter {
    open spec fn log(&self) -> Seq<(u128, u64)> {
        self.started@
    }

    fn start_compartment(
        &mut self,
        comp: &RunComp,
        ctor_info: &Vec<CtorInfo>,
        entry_point: u64,
    ) -> (r: Result<MainThreadReadyWaiter, StartError>) {
        self.started.push((comp.sctx_id, entry_point));
        Ok(MainThreadReadyWaiter { sctx_id: comp.sctx_id })
    }
}

/// The order in which a loader's compartments start: the extra
/// compartments in exact reverse of the order they were emitted, then the
/// root compartment strictly last.
pub open spec fn start_plan(loader: Loader) -> Seq<(u128, u64)> {
    Seq::new(
        loader.extra_compartments@.len(),
        |i: int|
            {
                let e = loader.extra_compartments@[loader.extra_compartments@.len() - 1 - i];
                (e.comp.sctx_id, e.entry_point)
            },
    ).push((loader.root_comp.comp.sctx_id, loader.root_comp.entry_point))
}

impl Loader {
    /// Start every compartment of this load, deepest dependency first.
    ///
    /// The extra compartments start in the exact reverse of the order
    /// they were emitted, and the root compartment strictly last: a
    /// compartment's own startup may assume its dependencies' main
    /// threads are already runnable.  The returned waiter is tied to the
    /// root compartment's readiness checkpoint.  A failure stops the
    /// sequence and names the compartment that failed; compartments
    /// already started are not rolled back.
    pub fn start_main<S: Starter>(&self, starter: &mut S) -> (r: Result<
        MainThreadReadyWaiter,
        StartError,
    >)
        ensures
            r is Ok ==> final(starter).log() == old(starter).log() + start_plan(*self),
            r matches Ok(w) ==> w.sctx_id == self.root_comp.comp.sctx_id,
            r matches Err(e) ==> exists|m: int|
                0 <= m < start_plan(*self).len() && final(starter).log() == old(starter).log()
                    + start_plan(*self).take(m) && e.sctx_id == #[trigger] start_plan(
                    *self,
                )[m].0,
    {
        let ghost plan = start_plan(*self);
        let n = self.extra_compartments.len();
        let mut k: usize = n;
        while k > 0
            invariant
                k <= n,
                n == self.extra_compartments@.len(),
                plan == start_plan(*self),
                plan.len() == n + 1,
                starter.log() == old(starter).log() + plan.take(n - k),
            decreases k,
        {
            k = k - 1;
            let dep = &self.extra_compartments[k];
            let ghost m = n - 1 - k;
            proof {
                assert(plan[m] == (dep.comp.sctx_id, dep.entry_point));
            }
            match starter.start_compartment(&dep.comp, &dep.ctor_info, dep.entry_point) {
                Ok(w) => {
                    proof {
                        assert(plan.take(m + 1) =~= plan.take(m).push(plan[m]));
                    }
                },
                Err(e) => {
                    proof {
                        assert(0 <= m < plan.len());
                        assert(start_plan(*self)[m].0 == e.sctx_id);
                    }
                    return Err(e);
                },
            }
        }
        let ghost m = n as int;
        proof {
            assert(plan[m] == (self.root_comp.comp.sctx_id, self.root_comp.entry_point));
        }
        match starter.start_compartment(
            &self.root_comp.comp,
            &self.root_comp.ctor_info,
            self.root_comp.entry_point,
        ) {
            Ok(w) => {
                proof {
                    assert(plan.take(m).push(plan[m]) =~= plan);
                }
                Ok(w)
            },
            Err(e) => {
                proof {
                    assert(0 <= m < plan.len());
                    assert(start_plan(*self)[m].0 == e.sctx_id);
                }
                Err(e)
            },
        }
    }
}

} // verus!
