//! Constructor-list construction and the relocation pass.
//!
//! Both walk the dependency graph depth-first, emitting libraries in
//! postorder, so every dependency precedes its dependents; a back edge is
//! a cycle and a hard error.  The constructor list is restricted to one
//! compartment's part of the closure; relocation covers the whole closure.

use vstd::prelude::*;

use crate::context::{Context, SLOT_SIZE};
use crate::errors::{DependencyError, LoadError};
use crate::image::{dyn_entries_of, dyn_name_of, dyn_symbols_of, elf_dynamic_symbols, elf_dynstr_get_raw, init_addr, init_of};
use crate::symbol::{find_sym, lookup_unrelocated, SymbolName};
use crate::library::Library;
use crate::MAX_LIBRARIES;

verus! {

/// Constructor information for one library: its id and the absolute
/// address of its legacy initializer, if it has a usable one.
#[derive(Clone, Copy, PartialEq, Eq, Structural)]
pub struct CtorInfo {
    /// The library this entry belongs to.
    pub lib: usize,
    /// Absolute initializer address; `None` when the image has no
    /// initializer entry or its value lies outside the image.
    pub ctor: Option<u64>,
}

/// Whether library `l` belongs to the traversal's scope: all libraries,
/// or one compartment.
pub open spec fn in_scope(libs: Seq<Library>, rc: Option<usize>, l: int) -> bool {
    match rc {
        None => true,
        Some(c) => libs[l].comp == c,
    }
}

/// Whether `out` lists library `l`.
pub open spec fn listed(out: Seq<usize>, l: int) -> bool {
    exists|k: int| 0 <= k < out.len() && (#[trigger] out[k]) as int == l
}

/// Whether `out` is a dependency-first order: every listed library lies in
/// scope, appears once, and sees each of its in-scope dependencies at an
/// earlier position.
pub open spec fn topo_ok(libs: Seq<Library>, rc: Option<usize>, out: Seq<usize>) -> bool {
    &&& forall|k: int|
        0 <= k < out.len() ==> ((#[trigger] out[k]) as int) < libs.len() && in_scope(
            libs,
            rc,
            out[k] as int,
        )
    &&& forall|k1: int, k2: int|
        0 <= k1 < k2 < out.len() ==> (#[trigger] out[k1]) != (#[trigger] out[k2])
    &&& forall|k: int, j: int|
        0 <= k < out.len() && 0 <= j < libs[out[k] as int].deps@.len() && in_scope(
            libs,
            rc,
            (#[trigger] libs[out[k] as int].deps@[j]) as int,
        ) ==> exists|k2: int| 0 <= k2 < k && (#[trigger] out[k2]) == libs[out[k] as int].deps@[j]
}

/// A walk through the dependency graph: consecutive entries are joined
/// by dependency edges, and every entry lies in the traversal's scope.
pub open spec fn is_walk(libs: Seq<Library>, rc: Option<usize>, p: Seq<usize>) -> bool {
    &&& p.len() >= 1
    &&& forall|k: int|
        0 <= k < p.len() ==> ((#[trigger] p[k]) as int) < libs.len() && in_scope(
            libs,
            rc,
            p[k] as int,
        )
    &&& forall|k: int| 0 <= k < p.len() - 1 ==> libs[(#[trigger] p[k]) as int].deps@.contains(
            p[k + 1],
        )
}

/// Whether the in-scope dependency graph reachable from `root` holds a
/// cycle: some walk from `root` repeats a library.
pub open spec fn cyclic_from(libs: Seq<Library>, rc: Option<usize>, root: usize) -> bool {
    exists|p: Seq<usize>|
        is_walk(libs, rc, p) && p[0] == root && (exists|i: int, j: int|
            0 <= i < j < p.len() && p[i] == p[j])
}

/// Whether `to` lies in the in-scope closure of `root` (every library
/// reaches itself).
pub open spec fn reaches(libs: Seq<Library>, rc: Option<usize>, root: usize, to: usize) -> bool {
    exists|p: Seq<usize>| is_walk(libs, rc, p) && p[0] == root && p.last() == to
}

/// The position of a listed library in a dependency-first order.
pub open spec fn pos_in(out: Seq<usize>, v: usize) -> int {
    choose|m: int| 0 <= m < out.len() && out[m] == v
}

/// In a duplicate-free order, a listed library has exactly one position.
proof fn lemma_pos_in(out: Seq<usize>, v: usize)
    requires
        forall|k1: int, k2: int|
            0 <= k1 < k2 < out.len() ==> (#[trigger] out[k1]) != (#[trigger] out[k2]),
        listed(out, v as int),
    ensures
        0 <= pos_in(out, v) < out.len(),
        out[pos_in(out, v)] == v,
        forall|m: int| 0 <= m < out.len() && out[m] == v ==> m == pos_in(out, v),
{
    let k = choose|k: int| 0 <= k < out.len() && (#[trigger] out[k]) as int == v as int;
    assert(out[k] == v);
    let m0 = pos_in(out, v);
    assert(0 <= m0 < out.len() && out[m0] == v);
    assert forall|m: int| 0 <= m < out.len() && out[m] == v implies m == m0 by {
        if m < m0 {
            assert(out[m] != out[m0]);
        } else if m0 < m {
            assert(out[m0] != out[m]);
        }
    }
}

/// Every library on a walk that starts at a listed library is itself
/// listed: a dependency-first order is closed under in-scope edges.
proof fn lemma_walk_listed(
    libs: Seq<Library>,
    rc: Option<usize>,
    out: Seq<usize>,
    p: Seq<usize>,
    k: int,
)
    requires
        topo_ok(libs, rc, out),
        is_walk(libs, rc, p),
        listed(out, p[0] as int),
        0 <= k < p.len(),
    ensures
        listed(out, p[k] as int),
    decreases k,
{
    if k > 0 {
        lemma_walk_listed(libs, rc, out, p, k - 1);
        lemma_pos_in(out, p[k - 1]);
        let m = pos_in(out, p[k - 1]);
        assert(libs[(p[k - 1]) as int].deps@.contains(p[k]));
        let j = choose|j: int|
            0 <= j < libs[(p[k - 1]) as int].deps@.len() && (#[trigger] libs[(p[k
                - 1]) as int].deps@[j]) == p[k];
        assert(out[m] == p[k - 1]);
        assert(libs[out[m] as int].deps@[j] == p[k]);
        assert(in_scope(libs, rc, (libs[out[m] as int].deps@[j]) as int));
        let k2 = choose|k2: int| 0 <= k2 < m && (#[trigger] out[k2]) == libs[out[m] as int].deps@[j];
        assert(out[k2] as int == p[k] as int);
    }
}

/// Along a walk inside a dependency-first order, positions strictly
/// decrease.
proof fn lemma_walk_pos_chain(
    libs: Seq<Library>,
    rc: Option<usize>,
    out: Seq<usize>,
    p: Seq<usize>,
    k1: int,
    k2: int,
)
    requires
        topo_ok(libs, rc, out),
        is_walk(libs, rc, p),
        listed(out, p[0] as int),
        0 <= k1 < k2 < p.len(),
    ensures
        pos_in(out, p[k2]) <= pos_in(out, p[k1]) - (k2 - k1),
    decreases k2 - k1,
{
    if k2 > k1 + 1 {
        lemma_walk_pos_chain(libs, rc, out, p, k1, k2 - 1);
    }
    let ka = k2 - 1;
    lemma_walk_listed(libs, rc, out, p, ka);
    lemma_walk_listed(libs, rc, out, p, k2);
    lemma_pos_in(out, p[ka]);
    lemma_pos_in(out, p[k2]);
    let m = pos_in(out, p[ka]);
    assert(libs[(p[ka]) as int].deps@.contains(p[k2]));
    let j = choose|j: int|
        0 <= j < libs[(p[ka]) as int].deps@.len() && (#[trigger] libs[(p[ka]) as int].deps@[j])
            == p[k2];
    assert(libs[out[m] as int].deps@[j] == p[k2]);
    assert(in_scope(libs, rc, (libs[out[m] as int].deps@[j]) as int));
    let kk = choose|kk: int| 0 <= kk < m && (#[trigger] out[kk]) == libs[out[m] as int].deps@[j];
    assert(out[kk] == p[k2]);
    assert(kk == pos_in(out, p[k2]));
}

/// A dependency-first order rules out cycles among what it lists.
proof fn lemma_topo_acyclic(libs: Seq<Library>, rc: Option<usize>, out: Seq<usize>, root: usize)
    requires
        topo_ok(libs, rc, out),
        listed(out, root as int),
    ensures
        !cyclic_from(libs, rc, root),
{
    if cyclic_from(libs, rc, root) {
        let p = choose|p: Seq<usize>|
            is_walk(libs, rc, p) && p[0] == root && (exists|i: int, j: int|
                0 <= i < j < p.len() && p[i] == p[j]);
        let (i, j): (int, int) = choose|i: int, j: int| 0 <= i < j < p.len() && p[i] == p[j];
        lemma_walk_pos_chain(libs, rc, out, p, i, j);
        lemma_walk_listed(libs, rc, out, p, i);
        lemma_pos_in(out, p[i]);
    }
}

/// Everything reachable from a listed root is listed.
proof fn lemma_reachable_listed(
    libs: Seq<Library>,
    rc: Option<usize>,
    out: Seq<usize>,
    root: usize,
    i: usize,
)
    requires
        topo_ok(libs, rc, out),
        listed(out, root as int),
        reaches(libs, rc, root, i),
    ensures
        listed(out, i as int),
{
    let p = choose|p: Seq<usize>| is_walk(libs, rc, p) && p[0] == root && p.last() == i;
    lemma_walk_listed(libs, rc, out, p, p.len() - 1);
}

/// The number of zero entries of a mark vector.
pub open spec fn count_zero(marks: Seq<u8>) -> nat
    decreases marks.len(),
{
    if marks.len() == 0 {
        0
    } else {
        count_zero(marks.drop_last()) + if marks.last() == 0 {
            1nat
        } else {
            0nat
        }
    }
}

/// Updating a zero entry to a nonzero value lowers the zero count by one.
proof fn lemma_count_zero_set_nonzero(marks: Seq<u8>, i: int, v: u8)
    requires
        0 <= i < marks.len(),
        marks[i] == 0,
        v != 0,
    ensures
        count_zero(marks.update(i, v)) + 1 == count_zero(marks),
    decreases marks.len(),
{
    let updated = marks.update(i, v);
    if i == marks.len() - 1 {
        assert(updated.drop_last() =~= marks.drop_last());
    } else {
        assert(updated.drop_last() =~= marks.drop_last().update(i, v));
        assert(updated.last() == marks.last());
        lemma_count_zero_set_nonzero(marks.drop_last(), i, v);
    }
}

/// Pointwise "no entry returns to zero" keeps the zero count from rising.
proof fn lemma_count_zero_mono(a: Seq<u8>, b: Seq<u8>)
    requires
        a.len() == b.len(),
        forall|i: int| 0 <= i < a.len() && a[i] != 0 ==> b[i] != 0,
    ensures
        count_zero(b) <= count_zero(a),
    decreases a.len(),
{
    if a.len() > 0 {
        lemma_count_zero_mono(a.drop_last(), b.drop_last());
    }
}

/// Updating a nonzero entry to a nonzero value keeps the zero count.
proof fn lemma_count_zero_set_same(marks: Seq<u8>, i: int, v: u8)
    requires
        0 <= i < marks.len(),
        marks[i] != 0,
        v != 0,
    ensures
        count_zero(marks.update(i, v)) == count_zero(marks),
    decreases marks.len(),
{
    let updated = marks.update(i, v);
    if i == marks.len() - 1 {
        assert(updated.drop_last() =~= marks.drop_last());
    } else {
        assert(updated.drop_last() =~= marks.drop_last().update(i, v));
        assert(updated.last() == marks.last());
        lemma_count_zero_set_same(marks.drop_last(), i, v);
    }
}

impl Context {
    /// Invariant of the depth-first walk: marks track the output exactly.
    ///
    /// Mark 0 is unvisited, 1 is on the current path, 2 is emitted.
    pub open spec fn dfs_inv(&self, rc: Option<usize>, marks: Seq<u8>, out: Seq<usize>) -> bool {
        &&& marks.len() == self.libraries@.len()
        &&& forall|i: int| 0 <= i < marks.len() ==> (#[trigger] marks[i]) <= 2
        &&& forall|k: int|
            0 <= k < out.len() ==> ((#[trigger] out[k]) as int) < self.libraries@.len()
                && marks[out[k] as int] == 2
        &&& forall|i: int|
            0 <= i < marks.len() && (#[trigger] marks[i]) == 2 ==> listed(out, i) && in_scope(
                self.libraries@,
                rc,
                i,
            )
        &&& forall|k1: int, k2: int|
            0 <= k1 < k2 < out.len() ==> (#[trigger] out[k1]) != (#[trigger] out[k2])
        &&& forall|k: int, j: int|
            0 <= k < out.len() && 0 <= j < self.libraries@[out[k] as int].deps@.len() && in_scope(
                self.libraries@,
                rc,
                (#[trigger] self.libraries@[out[k] as int].deps@[j]) as int,
            ) ==> exists|k2: int|
                0 <= k2 < k && (#[trigger] out[k2]) == self.libraries@[out[k] as int].deps@[j]
    }

    /// Visit one library depth-first, emitting its in-scope closure in
    /// dependency-first order.  A library already on the current path is a
    /// dependency cycle.
    #[verifier::rlimit(60)]
    fn dfs_visit(
        &self,
        at: usize,
        rc: Option<usize>,
        marks: &mut Vec<u8>,
        out: &mut Vec<usize>,
        trail: Ghost<Seq<usize>>,
    ) -> (r: Result<(), LoadError>)
        requires
            self.wf(),
            (at as int) < self.libraries@.len(),
            in_scope(self.libraries@, rc, at as int),
            self.dfs_inv(rc, old(marks)@, old(out)@),
            is_walk(self.libraries@, rc, trail@.push(at)),
            forall|i: int|
                0 <= i < old(marks)@.len() ==> ((#[trigger] old(marks)@[i]) == 1 <==> trail@.contains(
                    i as usize,
                )),
        ensures
            self.dfs_inv(rc, final(marks)@, final(out)@),
            final(marks)@.len() == old(marks)@.len(),
            forall|i: int|
                0 <= i < old(marks)@.len() && (#[trigger] old(marks)@[i]) != 0 ==> final(marks)@[i] == old(marks)@[i],
            forall|i: int|
                0 <= i < old(marks)@.len() && (#[trigger] old(marks)@[i]) == 0 ==> final(marks)@[i] == 0 || final(marks)@[i] == 2,
            final(out)@.len() >= old(out)@.len(),
            forall|k: int| 0 <= k < old(out)@.len() ==> #[trigger] final(out)@[k] == old(out)@[k],
            r is Ok ==> final(marks)@[at as int] == 2,
            r is Ok && old(marks)@[at as int] == 0 ==> final(out)@.len() > old(out)@.len()
                && final(out)@[final(out)@.len() - 1] == at,
            r matches Err(e) ==> e matches LoadError::Dependency(es) && es@.len() > 0,
            r is Err ==> cyclic_from(self.libraries@, rc, trail@.push(at)[0]),
            forall|k: int|
                old(out)@.len() <= k < final(out)@.len() ==> reaches(
                    self.libraries@,
                    rc,
                    trail@.push(at)[0],
                    #[trigger] final(out)@[k],
                ),
        decreases count_zero(old(marks)@),
    {
        let m = marks[at];
        if m == 2 {
            return Ok(());
        }
        if m == 1 {
            proof {
                let walk = trail@.push(at);
                assert(trail@.contains(at));
                let i0 = choose|i0: int| 0 <= i0 < trail@.len() && trail@[i0] == at;
                assert(walk[i0] == at);
                assert(walk[walk.len() - 1] == at);
                assert(0 <= i0 < walk.len() - 1 < walk.len() && walk[i0] == walk[walk.len() - 1]);
                assert(cyclic_from(self.libraries@, rc, walk[0]));
            }
            let mut es: Vec<DependencyError> = Vec::new();
            es.push(DependencyError::MalformedImage);
            return Err(LoadError::Dependency(es));
        }
        let ghost marks0 = marks@;
        let ghost out0 = out@;
        marks.set(at, 1);
        proof {
            lemma_count_zero_set_nonzero(marks0, at as int, 1);
        }
        let ghost marks1 = marks@;
        proof {
            assert forall|i: int|
                0 <= i < marks@.len() implies ((#[trigger] marks@[i]) == 1 <==> trail@.push(
                at,
            ).contains(i as usize)) by {
                if i == at as int {
                    assert(trail@.push(at)[trail@.len() as int] == at);
                } else {
                    if trail@.contains(i as usize) {
                        let q = choose|q: int| 0 <= q < trail@.len() && trail@[q] == i as usize;
                        assert(trail@.push(at)[q] == i as usize);
                    }
                    if trail@.push(at).contains(i as usize) {
                        let q = choose|q: int|
                            0 <= q < trail@.push(at).len() && trail@.push(at)[q] == i as usize;
                        assert(q < trail@.len());
                        assert(trail@[q] == i as usize);
                    }
                }
            }
        }
        let ndeps = self.libraries[at].deps.len();
        let mut ok: bool = true;
        let mut failed: Option<LoadError> = None;
        let mut j: usize = 0;
        while j < ndeps
            invariant
                self.wf(),
                (at as int) < self.libraries@.len(),
                in_scope(self.libraries@, rc, at as int),
                ndeps == self.libraries@[at as int].deps@.len(),
                marks1 == marks0.update(at as int, 1u8),
                marks0 == old(marks)@,
                out0 == old(out)@,
                marks0.len() == self.libraries@.len(),
                (at as int) < marks0.len(),
                marks0[at as int] == 0,
                marks@.len() == marks0.len(),
                count_zero(marks@) <= count_zero(marks1),
                count_zero(marks1) + 1 == count_zero(marks0),
                self.dfs_inv(rc, marks@, out@),
                marks@[at as int] == 1,
                forall|i: int|
                    0 <= i < marks1.len() && (#[trigger] marks1[i]) != 0 ==> marks@[i] == marks1[i],
                forall|i: int|
                    0 <= i < marks1.len() && (#[trigger] marks1[i]) == 0 ==> marks@[i] == 0
                        || marks@[i] == 2,
                out@.len() >= out0.len(),
                forall|k: int| 0 <= k < out0.len() ==> #[trigger] out@[k] == out0[k],
                forall|i: int|
                    0 <= i < marks@.len() ==> ((#[trigger] marks@[i]) == 1 <==> trail@.push(
                        at,
                    ).contains(i as usize)),
                is_walk(self.libraries@, rc, trail@.push(at)),
                forall|k: int|
                    out0.len() <= k < out@.len() ==> reaches(
                        self.libraries@,
                        rc,
                        trail@.push(at)[0],
                        #[trigger] out@[k],
                    ),
                failed is Some ==> cyclic_from(self.libraries@, rc, trail@.push(at)[0]),
                ok <==> failed is None,
                ok ==> forall|j2: int|
                    0 <= j2 < j && in_scope(
                        self.libraries@,
                        rc,
                        (#[trigger] self.libraries@[at as int].deps@[j2]) as int,
                    ) ==> marks@[self.libraries@[at as int].deps@[j2] as int] == 2,
                failed matches Some(e) ==> e matches LoadError::Dependency(es) && es@.len() > 0,
            decreases ndeps - j,
        {
            if ok {
                let dep = self.libraries[at].deps[j];
                proof {
                    assert(self.lib_wf(at as int));
                }
                let dep_in_scope = match rc {
                    None => true,
                    Some(c) => self.libraries[dep].comp == c,
                };
                if dep_in_scope {
                    let ghost marks_pre = marks@;
                    let ghost trail2 = trail@.push(at);
                    proof {
                        let walk2 = trail2.push(dep);
                        assert(self.libraries@[at as int].deps@.contains(dep));
                        assert forall|k: int|
                            0 <= k < walk2.len() implies ((#[trigger] walk2[k]) as int)
                            < self.libraries@.len() && in_scope(
                            self.libraries@,
                            rc,
                            walk2[k] as int,
                        ) by {
                            if k < trail2.len() {
                                assert(walk2[k] == trail2[k]);
                                assert(trail2[k] == trail@.push(at)[k]);
                            }
                        }
                        assert forall|k: int|
                            0 <= k < walk2.len() - 1 implies self.libraries@[(
                        #[trigger] walk2[k]) as int].deps@.contains(walk2[k + 1]) by {
                            if k < trail2.len() - 1 {
                                assert(walk2[k] == trail2[k]);
                                assert(walk2[k + 1] == trail2[k + 1]);
                                assert(trail@.push(at)[k] == walk2[k]);
                            } else {
                                assert(walk2[k] == at);
                                assert(walk2[k + 1] == dep);
                            }
                        }
                        assert(is_walk(self.libraries@, rc, walk2));
                        assert forall|i: int|
                            0 <= i < marks@.len() implies ((#[trigger] marks@[i]) == 1
                            <==> trail2.contains(i as usize)) by {
                            if trail2.contains(i as usize) {
                                let q = choose|q: int|
                                    0 <= q < trail2.len() && trail2[q] == i as usize;
                                assert(trail@.push(at)[q] == i as usize);
                            }
                            if trail@.push(at).contains(i as usize) {
                                let q = choose|q: int|
                                    0 <= q < trail@.push(at).len() && trail@.push(at)[q] == i
                                        as usize;
                                assert(trail2[q] == i as usize);
                            }
                        }
                    }
                    let res = self.dfs_visit(dep, rc, marks, out, Ghost(trail2));
                    proof {
                        lemma_count_zero_mono(marks_pre, marks@);
                        assert(trail2.push(dep)[0] == trail@.push(at)[0]);
                        assert forall|i: int|
                            0 <= i < marks@.len() implies ((#[trigger] marks@[i]) == 1
                            <==> trail@.push(at).contains(i as usize)) by {
                            if marks_pre[i] == 1 {
                                assert(marks@[i] == marks_pre[i]);
                            } else if marks_pre[i] == 0 {
                                assert(marks@[i] == 0 || marks@[i] == 2);
                            } else {
                                assert(marks@[i] == marks_pre[i]);
                            }
                        }
                    }
                    if let Err(e) = res {
                        ok = false;
                        failed = Some(e);
                    }
                }
            }
            j = j + 1;
        }
        if !ok {
            let e = match failed {
                Some(e) => e,
                None => LoadError::Relocation,
            };
            let ghost marks_f = marks@;
            marks.set(at, 0);
            proof {
                assert forall|k: int|
                    0 <= k < out@.len() implies ((#[trigger] out@[k]) as int)
                    < self.libraries@.len() && marks@[out@[k] as int] == 2 by {
                    assert(marks_f[out@[k] as int] == 2);
                }
                assert forall|i: int|
                    0 <= i < old(marks)@.len() && (#[trigger] old(marks)@[i]) != 0 implies marks@[i]
                    == old(marks)@[i] by {
                    assert(marks1[i] == marks0[i]);
                    assert(marks_f[i] == marks1[i]);
                }
                assert forall|i: int|
                    0 <= i < old(marks)@.len() && (#[trigger] old(marks)@[i]) == 0 implies marks@[i]
                    == 0 || marks@[i] == 2 by {
                    if i != at as int {
                        assert(marks1[i] == 0);
                        assert(marks_f[i] == 0 || marks_f[i] == 2);
                    }
                }
            }
            return Err(e);
        }
        let ghost marks2 = marks@;
        marks.set(at, 2);
        proof {
            lemma_count_zero_set_same(marks2, at as int, 2);
        }
        let ghost out_pre = out@;
        out.push(at);
        proof {
            assert(self.dfs_inv(rc, marks2, out_pre));
            assert(out@[out@.len() - 1] == at);
            let walk = trail@.push(at);
            assert(walk.last() == at);
            assert(reaches(self.libraries@, rc, walk[0], at));
            assert forall|k: int|
                old(out)@.len() <= k < out@.len() implies reaches(
                self.libraries@,
                rc,
                trail@.push(at)[0],
                #[trigger] out@[k],
            ) by {
                if k < out_pre.len() {
                    assert(out@[k] == out_pre[k]);
                } else {
                    assert(out@[k] == at);
                }
            }
            assert forall|i: int|
                0 <= i < old(marks)@.len() && (#[trigger] old(marks)@[i]) != 0 implies marks@[i]
                == old(marks)@[i] by {
                assert(marks1[i] == marks0[i]);
                assert(marks2[i] == marks1[i]);
            }
            assert forall|i: int|
                0 <= i < old(marks)@.len() && (#[trigger] old(marks)@[i]) == 0 implies marks@[i]
                == 0 || marks@[i] == 2 by {
                if i != at as int {
                    assert(marks1[i] == 0);
                    assert(marks2[i] == 0 || marks2[i] == 2);
                }
            }
            assert forall|i: int|
                0 <= i < marks@.len() && (#[trigger] marks@[i]) == 2 implies listed(out@, i)
                && in_scope(self.libraries@, rc, i) by {
                if i == at as int {
                    assert(out@[out@.len() - 1] as int == i);
                } else {
                    assert(marks2[i] == 2);
                    assert(listed(out_pre, i));
                    let k = choose|k: int|
                        0 <= k < out_pre.len() && (#[trigger] out_pre[k]) as int == i;
                    assert(out@[k] as int == i);
                }
            }
            assert forall|k: int, j2: int|
                0 <= k < out@.len() && 0 <= j2 < self.libraries@[out@[k] as int].deps@.len()
                    && in_scope(
                    self.libraries@,
                    rc,
                    (#[trigger] self.libraries@[out@[k] as int].deps@[j2]) as int,
                ) implies exists|k2: int|
                0 <= k2 < k && (#[trigger] out@[k2]) == self.libraries@[out@[k] as int].deps@[j2] by {
                if k == out@.len() - 1 {
                    assert(out@[k] == at);
                    let dep = self.libraries@[at as int].deps@[j2];
                    assert(0 <= j2 < self.libraries@[at as int].deps@.len());
                    assert(self.lib_wf(at as int));
                    assert((dep as int) < self.libraries@.len());
                    assert((dep as int) < marks2.len());
                    assert(in_scope(self.libraries@, rc, dep as int));
                    assert(marks2[dep as int] == 2);
                    assert(marks@[dep as int] == 2);
                    assert(listed(out_pre, dep as int));
                    let k2 = choose|k2: int|
                        0 <= k2 < out_pre.len() && (#[trigger] out_pre[k2]) as int == dep as int;
                    assert(out@[k2] == dep);
                } else {
                    assert(0 <= k < out_pre.len());
                    assert(out@[k] == out_pre[k]);
                    let dep = self.libraries@[out_pre[k] as int].deps@[j2];
                    assert(in_scope(self.libraries@, rc, dep as int));
                    assert(exists|k2: int|
                        0 <= k2 < k && (#[trigger] out_pre[k2]) == self.libraries@[out_pre[k] as int].deps@[j2]);
                    let k2 = choose|k2: int| 0 <= k2 < k && (#[trigger] out_pre[k2]) == dep;
                    assert(out@[k2] == dep);
                }
            }
        }
        Ok(())
    }

    /// The in-scope dependency closure of `root`, in dependency-first
    /// order, ending with `root` itself; an error reports a dependency
    /// cycle.
    pub fn closure_order(&self, root: usize, restrict: Option<usize>) -> (r: Result<
        Vec<usize>,
        LoadError,
    >)
        requires
            self.wf(),
            (root as int) < self.libraries@.len(),
            restrict matches Some(c) ==> self.libraries@[root as int].comp == c,
        ensures
            r is Err <==> cyclic_from(self.libraries@, restrict, root),
            match r {
                Ok(order) => {
                    &&& topo_ok(self.libraries@, restrict, order@)
                    &&& order@.len() >= 1
                    &&& order@.last() == root
                    &&& forall|k: int|
                        0 <= k < order@.len() ==> reaches(
                            self.libraries@,
                            restrict,
                            root,
                            #[trigger] order@[k],
                        )
                    &&& forall|i: usize|
                        (i as int) < self.libraries@.len() && reaches(
                            self.libraries@,
                            restrict,
                            root,
                            i,
                        ) ==> #[trigger] listed(order@, i as int)
                },
                Err(e) => e matches LoadError::Dependency(es) && es@.len() > 0,
            },
    {
        let n = self.libraries.len();
        let mut marks: Vec<u8> = Vec::new();
        let mut i: usize = 0;
        while i < n
            invariant
                i <= n,
                marks@.len() == i,
                forall|k: int| 0 <= k < i ==> #[trigger] marks@[k] == 0,
            decreases n - i,
        {
            marks.push(0);
            i = i + 1;
        }
        let mut out: Vec<usize> = Vec::new();
        proof {
            let walk = Seq::<usize>::empty().push(root);
            assert(walk[0] == root);
            assert(is_walk(self.libraries@, restrict, walk));
        }
        let res = self.dfs_visit(root, restrict, &mut marks, &mut out, Ghost(Seq::empty()));
        proof {
            assert(Seq::<usize>::empty().push(root)[0] == root);
        }
        if let Err(e) = res {
            return Err(e);
        }
        proof {
            assert(out@[out@.len() - 1] == root);
            lemma_topo_acyclic(self.libraries@, restrict, out@, root);
            assert forall|i: usize|
                (i as int) < self.libraries@.len() && reaches(
                    self.libraries@,
                    restrict,
                    root,
                    i,
                ) implies listed(out@, i as int) by {
                lemma_reachable_listed(self.libraries@, restrict, out@, root, i);
            }
        }
        Ok(out)
    }
}

/// The absolute initializer address a library reports: its load base plus
/// the image's first initializer entry, when that entry's value lies
/// inside the image.
pub open spec fn ctor_addr_of(lib: Library) -> Option<u64> {
    match dyn_entries_of(lib.backing.data@) {
        None => None,
        Some(es) => match init_of(es) {
            None => None,
            Some(v) => if v < lib.backing.data@.len() {
                Some((lib.base + v) as u64)
            } else {
                None
            },
        },
    }
}

/// Whether a constructor list is a dependency-first order of compartment
/// `rc`: every entry's library lives in `rc`, appears once, and sees each
/// same-compartment dependency's constructors at an earlier position.
pub open spec fn ctors_topo_ok(libs: Seq<Library>, rc: usize, ctors: Seq<CtorInfo>) -> bool {
    &&& forall|k: int|
        0 <= k < ctors.len() ==> (((#[trigger] ctors[k]).lib) as int) < libs.len()
            && libs[ctors[k].lib as int].comp == rc
    &&& forall|k1: int, k2: int|
        0 <= k1 < k2 < ctors.len() ==> (#[trigger] ctors[k1]).lib != (#[trigger] ctors[k2]).lib
    &&& forall|k: int, j: int|
        0 <= k < ctors.len() && 0 <= j < libs[ctors[k].lib as int].deps@.len() && libs[(
        #[trigger] libs[ctors[k].lib as int].deps@[j]) as int].comp == rc ==> exists|k2: int|
            0 <= k2 < k && (#[trigger] ctors[k2]).lib == libs[ctors[k].lib as int].deps@[j]
}

impl Context {
    /// Build the dependency-ordered constructor list for a library's
    /// compartment-local closure.
    ///
    /// The list covers the libraries of the root's compartment reachable
    /// from the root, dependency-first — a library's constructors run only
    /// after all its same-compartment dependencies' constructors — ending
    /// with the root itself.  A dependency cycle is a hard error.
    pub fn build_ctors_list(&self, root_id: usize) -> (r: Result<Vec<CtorInfo>, LoadError>)
        requires
            self.wf(),
            (root_id as int) < self.libraries@.len(),
        ensures
            r is Err <==> cyclic_from(
                self.libraries@,
                Some(self.libraries@[root_id as int].comp),
                root_id,
            ),
            match r {
                Ok(ctors) => {
                    &&& ctors_topo_ok(
                        self.libraries@,
                        self.libraries@[root_id as int].comp,
                        ctors@,
                    )
                    &&& ctors@.len() >= 1
                    &&& ctors@[ctors@.len() - 1].lib == root_id
                    &&& forall|k: int|
                        0 <= k < ctors@.len() ==> (#[trigger] ctors@[k]).ctor == ctor_addr_of(
                            self.libraries@[ctors@[k].lib as int],
                        )
                },
                Err(e) => e matches LoadError::Dependency(es) && es@.len() > 0,
            },
    {
        let rc = self.libraries[root_id].comp;
        let order = match self.closure_order(root_id, Some(rc)) {
            Ok(o) => o,
            Err(e) => {
                return Err(e);
            },
        };
        let mut ctors: Vec<CtorInfo> = Vec::new();
        let mut k: usize = 0;
        while k < order.len()
            invariant
                self.wf(),
                topo_ok(self.libraries@, Some(rc), order@),
                order@.len() >= 1,
                order@[order@.len() - 1] == root_id,
                k <= order@.len(),
                ctors@.len() == k,
                forall|i: int| 0 <= i < k ==> (#[trigger] ctors@[i]).lib == order@[i],
                forall|i: int|
                    0 <= i < k ==> (#[trigger] ctors@[i]).ctor == ctor_addr_of(
                        self.libraries@[order@[i] as int],
                    ),
            decreases order@.len() - k,
        {
            let id = order[k];
            proof {
                assert(self.lib_wf(id as int));
                assert((id as int + 1) * (SLOT_SIZE as int) <= (MAX_LIBRARIES as int) * (
                SLOT_SIZE as int)) by (nonlinear_arith)
                    requires
                        id as int + 1 <= MAX_LIBRARIES as int,
                        SLOT_SIZE as int >= 0,
                ;
            }
            let lib = &self.libraries[id];
            let ctor = match init_addr(lib.backing.data.as_slice()) {
                Some(v) => {
                    if v < lib.backing.data.len() as u64 {
                        Some(lib.base + v)
                    } else {
                        None
                    }
                },
                None => None,
            };
            ctors.push(CtorInfo { lib: id, ctor });
            k = k + 1;
        }
        proof {
            let libs = self.libraries@;
            assert forall|k1: int, k2: int|
                0 <= k1 < k2 < ctors@.len() implies (#[trigger] ctors@[k1]).lib != (
            #[trigger] ctors@[k2]).lib by {
                assert(ctors@[k1].lib == order@[k1]);
                assert(ctors@[k2].lib == order@[k2]);
            }
            assert forall|k: int, j: int|
                0 <= k < ctors@.len() && 0 <= j < libs[ctors@[k].lib as int].deps@.len() && libs[(
                #[trigger] libs[ctors@[k].lib as int].deps@[j]) as int].comp == rc implies exists|
                k2: int,
            |
                0 <= k2 < k && (#[trigger] ctors@[k2]).lib == libs[ctors@[k].lib as int].deps@[j] by {
                assert(ctors@[k].lib == order@[k]);
                let dep = libs[order@[k] as int].deps@[j];
                assert(in_scope(libs, Some(rc), dep as int));
                let k2 = choose|k2: int| 0 <= k2 < k && (#[trigger] order@[k2]) == dep;
                assert(ctors@[k2].lib == dep);
            }
        }
        Ok(ctors)
    }
}

/// Whether a library's image defines the named symbol: the first symbol
/// of that name in its dynamic symbol table is not an undefined
/// reference.
pub open spec fn defines_sym(lib: Library, name: Seq<u8>) -> bool {
    match dyn_symbols_of(lib.backing.data@) {
        Some(syms) => match find_sym(lib.backing.data@, syms, name) {
            Some(t) => t.3 != 0,
            None => false,
        },
        None => false,
    }
}

/// Whether one of the libraries picked out by `scope` defines the named
/// symbol.
pub open spec fn scope_defines(libs: Seq<Library>, scope: Seq<bool>, name: Seq<u8>) -> bool {
    exists|i: int|
        0 <= i < libs.len() && i < scope.len() && scope[i] && defines_sym(#[trigger] libs[i], name)
}

/// The relocation marks of a library sequence.
pub open spec fn relocated_of(libs: Seq<Library>) -> Seq<bool> {
    Seq::new(libs.len(), |i: int| libs[i].relocated)
}

/// The symbol scope a relocation pass over `root` establishes: everything
/// already relocated, plus the whole closure of `root`.
pub open spec fn pass_scope(libs: Seq<Library>, root: usize) -> Seq<bool> {
    Seq::new(libs.len(), |i: int| libs[i].relocated || reaches(libs, None, root, i as usize))
}

/// Whether every undefined symbol reference of library `l` binds against
/// the libraries picked out by `scope`, with all names readable.  The
/// nameless null entry every symbol table starts with is no reference and
/// is skipped.
pub open spec fn lib_bound(libs: Seq<Library>, scope: Seq<bool>, l: int) -> bool {
    match dyn_symbols_of(libs[l].backing.data@) {
        None => false,
        Some(syms) => forall|j: int|
            0 <= j < syms.len() && (#[trigger] syms[j]).3 == 0 && syms[j].0 != 0 ==> match dyn_name_of(
                libs[l].backing.data@,
                syms[j].0 as u64,
            ) {
                Some(n) => scope_defines(libs, scope, n),
                None => false,
            },
    }
}

impl Context {
    /// Whether every undefined symbol reference of library `l` binds
    /// against the libraries picked out by `scope`.
    fn check_lib_bound(&self, l: usize, scope: &Vec<bool>) -> (r: bool)
        requires
            self.wf(),
            (l as int) < self.libraries@.len(),
            scope@.len() == self.libraries@.len(),
        ensures
            r == lib_bound(self.libraries@, scope@, l as int),
    {
        let data = self.libraries[l].backing.data.as_slice();
        let syms = match elf_dynamic_symbols(data) {
            Some(s) => s,
            None => {
                return false;
            },
        };
        let ghost all = syms@;
        let mut j: usize = 0;
        while j < syms.len()
            invariant
                self.wf(),
                (l as int) < self.libraries@.len(),
                scope@.len() == self.libraries@.len(),
                data@ == self.libraries@[l as int].backing.data@,
                syms@ == all,
                dyn_symbols_of(data@) == Some(all),
                forall|j2: int|
                    0 <= j2 < j && (#[trigger] all[j2]).3 == 0 && all[j2].0 != 0 ==> match dyn_name_of(
                        data@,
                        all[j2].0 as u64,
                    ) {
                        Some(n) => scope_defines(self.libraries@, scope@, n),
                        None => false,
                    },
            decreases syms.len() - j,
        {
            let s = syms[j];
            if s.3 == 0 && s.0 != 0 {
                let name = match elf_dynstr_get_raw(data, s.0 as u64) {
                    Some(n) => n,
                    None => {
                        return false;
                    },
                };
                let mut found = false;
                let mut i: usize = 0;
                while i < self.libraries.len()
                    invariant
                        self.wf(),
                        scope@.len() == self.libraries@.len(),
                        i <= self.libraries@.len(),
                        dyn_name_of(data@, s.0 as u64) == Some(name@),
                        found ==> scope_defines(self.libraries@, scope@, name@),
                        !found ==> forall|i2: int|
                            0 <= i2 < i && i2 < scope@.len() && scope@[i2] ==> !defines_sym(
                                #[trigger] self.libraries@[i2],
                                name@,
                            ),
                    decreases self.libraries@.len() - i,
                {
                    if !found && scope[i] {
                        let sym_name = SymbolName::new(name.as_slice());
                        match lookup_unrelocated(
                            self.libraries[i].backing.data.as_slice(),
                            &sym_name,
                        ) {
                            Some(u) => {
                                if u.raw().st_shndx != 0 {
                                    found = true;
                                    proof {
                                        assert(defines_sym(
                                            self.libraries@[i as int],
                                            name@,
                                        ));
                                    }
                                } else {
                                    proof {
                                        assert(!defines_sym(
                                            self.libraries@[i as int],
                                            name@,
                                        ));
                                    }
                                }
                            },
                            None => {
                                proof {
                                    assert(!defines_sym(self.libraries@[i as int], name@));
                                }
                            },
                        }
                    }
                    i = i + 1;
                }
                if !found {
                    proof {
                        assert(!scope_defines(self.libraries@, scope@, name@));
                    }
                    return false;
                }
            }
            j = j + 1;
        }
        true
    }
}

/// Whether `b` is `a` with at most its relocation flag advanced: all
/// other fields equal, and a completed relocation never undone.
pub open spec fn same_but_relocated(a: Library, b: Library) -> bool {
    &&& b.name@ == a.name@
    &&& b.backing.id == a.backing.id
    &&& b.backing.data@ == a.backing.data@
    &&& b.comp == a.comp
    &&& b.deps@ == a.deps@
    &&& b.base == a.base
    &&& (a.relocated ==> b.relocated)
}

impl Context {
    /// Relocate a library's whole dependency closure.
    ///
    /// Walks the closure dependency-first, checks that every undefined
    /// symbol reference of each not-yet-relocated member binds against the
    /// closure's combined symbol space (its members plus everything
    /// already relocated), and only then marks the closure relocated.
    /// Libraries relocated by an earlier load are never reprocessed.  On
    /// any failure the context is left exactly as it was.
    pub fn relocate_all(&mut self, root_id: usize) -> (r: Result<(), LoadError>)
        requires
            old(self).wf(),
            (root_id as int) < old(self).libraries@.len(),
        ensures
            final(self).wf(),
            final(self).compartments@ == old(self).compartments@,
            final(self).libraries@.len() == old(self).libraries@.len(),
            forall|i: int|
                0 <= i < old(self).libraries@.len() ==> same_but_relocated(
                    #[trigger] old(self).libraries@[i],
                    final(self).libraries@[i],
                ),
            cyclic_from(old(self).libraries@, None, root_id) <==> (r matches Err(e)
                && e is Dependency),
            !cyclic_from(old(self).libraries@, None, root_id) ==> ((r matches Err(e)
                && e is Relocation) <==> exists|i: int|
                0 <= i < old(self).libraries@.len() && reaches(
                    old(self).libraries@,
                    None,
                    root_id,
                    i as usize,
                ) && !old(self).libraries@[i].relocated && !lib_bound(
                    old(self).libraries@,
                    pass_scope(old(self).libraries@, root_id),
                    i,
                )),
            match r {
                Ok(u) => {
                    &&& final(self).libraries@[root_id as int].relocated
                    &&& forall|i: int|
                        0 <= i < old(self).libraries@.len()
                            && final(self).libraries@[i].relocated
                            && !old(self).libraries@[i].relocated
                            ==> lib_bound(
                            old(self).libraries@,
                            relocated_of(final(self).libraries@),
                            i,
                        )
                },
                Err(e) => {
                    &&& *final(self) == *old(self)
                    &&& (e matches LoadError::Dependency(es) && es@.len() > 0) || e is Relocation
                },
            },
    {
        let ghost orig = *self;
        let order = match self.closure_order(root_id, None) {
            Ok(o) => o,
            Err(e) => {
                return Err(e);
            },
        };
        let n = self.libraries.len();
        let mut scope: Vec<bool> = Vec::new();
        let mut i: usize = 0;
        while i < n
            invariant
                i <= n,
                n == self.libraries@.len(),
                *self == orig,
                scope@.len() == i,
                forall|k: int| 0 <= k < i ==> #[trigger] scope@[k] == self.libraries@[k].relocated,
                !cyclic_from(orig.libraries@, None, root_id),
                forall|k2: int|
                    0 <= k2 < order@.len() ==> reaches(
                        orig.libraries@,
                        None,
                        root_id,
                        #[trigger] order@[k2],
                    ),
                forall|i2: usize|
                    (i2 as int) < orig.libraries@.len() && reaches(
                        orig.libraries@,
                        None,
                        root_id,
                        i2,
                    ) ==> #[trigger] listed(order@, i2 as int),
                n == orig.libraries@.len(),
            decreases n - i,
        {
            scope.push(self.libraries[i].relocated);
            i = i + 1;
        }
        let mut k: usize = 0;
        while k < order.len()
            invariant
                self.wf(),
                n == self.libraries@.len(),
                *self == orig,
                topo_ok(self.libraries@, None, order@),
                scope@.len() == n,
                k <= order@.len(),
                forall|j: int|
                    0 <= j < n ==> #[trigger] scope@[j] == (self.libraries@[j].relocated || (
                    exists|k2: int| 0 <= k2 < k && (#[trigger] order@[k2]) as int == j)),
                !cyclic_from(orig.libraries@, None, root_id),
                forall|k2: int|
                    0 <= k2 < order@.len() ==> reaches(
                        orig.libraries@,
                        None,
                        root_id,
                        #[trigger] order@[k2],
                    ),
                forall|i2: usize|
                    (i2 as int) < orig.libraries@.len() && reaches(
                        orig.libraries@,
                        None,
                        root_id,
                        i2,
                    ) ==> #[trigger] listed(order@, i2 as int),
                n == orig.libraries@.len(),
            decreases order@.len() - k,
        {
            let id = order[k];
            let ghost scope_pre = scope@;
            if !scope[id] {
                scope.set(id, true);
            }
            proof {
                assert forall|j: int|
                    0 <= j < n implies #[trigger] scope@[j] == (self.libraries@[j].relocated || (
                exists|k2: int| 0 <= k2 < (k + 1) && (#[trigger] order@[k2]) as int == j)) by {
                    if j == id as int {
                        assert(order@[k as int] as int == j);
                    } else {
                        assert(scope@[j] == scope_pre[j]);
                        if exists|k2: int| 0 <= k2 < k && (#[trigger] order@[k2]) as int == j {
                            let k2 = choose|k2: int|
                                0 <= k2 < k && (#[trigger] order@[k2]) as int == j;
                            assert(0 <= k2 < k + 1);
                        }
                    }
                }
            }
            k = k + 1;
        }
        let ghost scope_full = scope@;
        proof {
            assert forall|j: int| 0 <= j < n implies scope_full[j] == pass_scope(
                orig.libraries@,
                root_id,
            )[j] by {
                if listed(order@, j) {
                    let kq = choose|kq: int|
                        0 <= kq < order@.len() && (#[trigger] order@[kq]) as int == j;
                    assert(reaches(orig.libraries@, None, root_id, order@[kq]));
                }
                if reaches(orig.libraries@, None, root_id, j as usize) {
                    assert(listed(order@, j));
                }
            }
            assert(scope_full =~= pass_scope(orig.libraries@, root_id));
        }
        let mut k: usize = 0;
        while k < order.len()
            invariant
                self.wf(),
                *self == orig,
                n == self.libraries@.len(),
                n == orig.libraries@.len(),
                topo_ok(self.libraries@, None, order@),
                scope@ == scope_full,
                scope_full == pass_scope(orig.libraries@, root_id),
                scope@.len() == n,
                k <= order@.len(),
                forall|j: int|
                    0 <= j < n ==> #[trigger] scope@[j] == (self.libraries@[j].relocated || listed(
                        order@,
                        j,
                    )),
                forall|k2: int|
                    0 <= k2 < k && !self.libraries@[(#[trigger] order@[k2]) as int].relocated
                        ==> lib_bound(self.libraries@, scope_full, order@[k2] as int),
                !cyclic_from(orig.libraries@, None, root_id),
                forall|k2: int|
                    0 <= k2 < order@.len() ==> reaches(
                        orig.libraries@,
                        None,
                        root_id,
                        #[trigger] order@[k2],
                    ),
                forall|i2: usize|
                    (i2 as int) < orig.libraries@.len() && reaches(
                        orig.libraries@,
                        None,
                        root_id,
                        i2,
                    ) ==> #[trigger] listed(order@, i2 as int),
                n == orig.libraries@.len(),
            decreases order@.len() - k,
        {
            let id = order[k];
            if !self.libraries[id].relocated {
                if !self.check_lib_bound(id, &scope) {
                    proof {
                        assert(reaches(orig.libraries@, None, root_id, order@[k as int]));
                        assert(!orig.libraries@[id as int].relocated);
                        assert(!lib_bound(
                            orig.libraries@,
                            pass_scope(orig.libraries@, root_id),
                            id as int,
                        ));
                    }
                    return Err(LoadError::Relocation);
                }
            }
            k = k + 1;
        }
        let mut k: usize = 0;
        while k < order.len()
            invariant
                self.wf(),
                n == self.libraries@.len(),
                n == orig.libraries@.len(),
                self.compartments@ == orig.compartments@,
                topo_ok(orig.libraries@, None, order@),
                scope_full.len() == n,
                k <= order@.len(),
                forall|i2: int|
                    0 <= i2 < n ==> same_but_relocated(
                        #[trigger] orig.libraries@[i2],
                        self.libraries@[i2],
                    ),
                forall|i2: int|
                    0 <= i2 < n ==> #[trigger] self.libraries@[i2].relocated == (
                    orig.libraries@[i2].relocated || (exists|k2: int|
                        0 <= k2 < k && (#[trigger] order@[k2]) as int == i2)),
                forall|j: int|
                    0 <= j < n ==> #[trigger] scope_full[j] == (orig.libraries@[j].relocated
                        || listed(order@, j)),
                forall|k2: int|
                    0 <= k2 < order@.len() && !orig.libraries@[(#[trigger] order@[k2]) as int].relocated
                        ==> lib_bound(orig.libraries@, scope_full, order@[k2] as int),
                !cyclic_from(orig.libraries@, None, root_id),
                scope_full == pass_scope(orig.libraries@, root_id),
                forall|k2: int|
                    0 <= k2 < order@.len() ==> reaches(
                        orig.libraries@,
                        None,
                        root_id,
                        #[trigger] order@[k2],
                    ),
                forall|i2: usize|
                    (i2 as int) < orig.libraries@.len() && reaches(
                        orig.libraries@,
                        None,
                        root_id,
                        i2,
                    ) ==> #[trigger] listed(order@, i2 as int),
            decreases order@.len() - k,
        {
            let id = order[k];
            proof {
                assert((order@[k as int] as int) < orig.libraries@.len());
            }
            let ghost pre = *self;
            let lib = &mut self.libraries[id];
            lib.relocated = true;
            proof {
                assert forall|i2: int|
                    0 <= i2 < n implies #[trigger] self.libraries@[i2].relocated == (
                orig.libraries@[i2].relocated || (exists|k2: int|
                    0 <= k2 < (k + 1) && (#[trigger] order@[k2]) as int == i2)) by {
                    if i2 == id as int {
                        assert(order@[k as int] as int == i2);
                    } else {
                        assert(self.libraries@[i2] == pre.libraries@[i2]);
                        if exists|k2: int| 0 <= k2 < k && (#[trigger] order@[k2]) as int == i2 {
                            let k2 = choose|k2: int|
                                0 <= k2 < k && (#[trigger] order@[k2]) as int == i2;
                            assert(0 <= k2 < k + 1);
                        }
                    }
                }
                assert forall|l: int| 0 <= l < self.libraries@.len() implies #[trigger] self.lib_wf(
                    l,
                ) by {
                    assert(pre.lib_wf(l));
                    let lib_l = self.libraries@[l];
                    assert(lib_l.comp == pre.libraries@[l].comp);
                    assert(self.compartments@ == pre.compartments@);
                    let kk = choose|kk: int|
                        0 <= kk < pre.compartments@[pre.libraries@[l].comp as int].lib_ids@.len()
                            && pre.compartments@[pre.libraries@[l].comp as int].lib_ids@[kk] == l;
                    assert(self.compartments@[lib_l.comp as int].lib_ids@[kk] == l);
                    if lib_l.relocated {
                        assert forall|j: int|
                            0 <= j < lib_l.deps@.len() implies self.libraries@[(
                        #[trigger] lib_l.deps@[j]) as int].relocated by {
                            let dep = lib_l.deps@[j];
                            if l == id as int {
                                assert(0 <= k < order@.len());
                                assert(order@[k as int] as int == l);
                                assert(exists|k2: int|
                                    0 <= k2 < k && (#[trigger] order@[k2]) == orig.libraries@[order@[k as int] as int].deps@[j]);
                                let k2 = choose|k2: int|
                                    0 <= k2 < k && (#[trigger] order@[k2]) == orig.libraries@[order@[k as int] as int].deps@[j];
                                assert(order@[k2] == dep);
                                assert(self.libraries@[dep as int].relocated);
                            } else {
                                assert(pre.libraries@[l].relocated);
                                assert(pre.libraries@[dep as int].relocated);
                            }
                        }
                    }
                }
                assert forall|cc: int|
                    0 <= cc < self.compartments@.len() implies #[trigger] self.comp_wf(cc) by {
                    assert(pre.comp_wf(cc));
                    let ids = self.compartments@[cc].lib_ids@;
                    assert forall|kk: int| 0 <= kk < ids.len() implies (#[trigger] ids[kk] as int)
                        < self.libraries@.len() && self.libraries@[ids[kk] as int].comp == cc by {
                        assert(pre.libraries@[ids[kk] as int].comp == cc);
                    }
                    assert forall|k1: int, k2: int|
                        0 <= k1 < k2 < ids.len() implies #[trigger] self.libraries@[ids[k1] as int].name@
                        != #[trigger] self.libraries@[ids[k2] as int].name@ by {
                        assert(pre.libraries@[ids[k1] as int].name@ != pre.libraries@[ids[k2] as int].name@);
                        assert(self.libraries@[ids[k1] as int].name@ == pre.libraries@[ids[k1] as int].name@);
                        assert(self.libraries@[ids[k2] as int].name@ == pre.libraries@[ids[k2] as int].name@);
                    }
                }
            }
            k = k + 1;
        }
        proof {
            assert(order@[order@.len() - 1] == root_id);
            assert(self.libraries@[root_id as int].relocated);
            assert forall|i2: int|
                0 <= i2 < n && self.libraries@[i2].relocated && !orig.libraries@[i2].relocated
                    implies lib_bound(orig.libraries@, relocated_of(self.libraries@), i2) by {
                let k2 = choose|k2: int|
                    0 <= k2 < order@.len() && (#[trigger] order@[k2]) as int == i2;
                assert(lib_bound(orig.libraries@, scope_full, i2));
                assert(relocated_of(self.libraries@) =~= scope_full);
            }
            assert forall|i2: int|
                0 <= i2 < n && reaches(orig.libraries@, None, root_id, i2 as usize)
                    && !orig.libraries@[i2].relocated implies lib_bound(
                orig.libraries@,
                pass_scope(orig.libraries@, root_id),
                i2,
            ) by {
                assert(listed(order@, i2));
                let k2 = choose|k2: int|
                    0 <= k2 < order@.len() && (#[trigger] order@[k2]) as int == i2;
                assert(lib_bound(orig.libraries@, scope_full, order@[k2] as int));
            }
        }
        Ok(())
    }
}

/// Whether `out` is closed under in-scope dependency edges.
pub open spec fn deps_closed(libs: Seq<Library>, rc: Option<usize>, out: Seq<usize>) -> bool {
    forall|m: int, j: int|
        0 <= m < out.len() && 0 <= j < libs[out[m] as int].deps@.len() && in_scope(
            libs,
            rc,
            (#[trigger] libs[out[m] as int].deps@[j]) as int,
        ) ==> listed(out, libs[out[m] as int].deps@[j] as int)
}

/// One dependency edge extends reachability.
proof fn lemma_reaches_step(
    libs: Seq<Library>,
    rc: Option<usize>,
    root: usize,
    cur: usize,
    dep: usize,
)
    requires
        reaches(libs, rc, root, cur),
        libs[cur as int].deps@.contains(dep),
        (dep as int) < libs.len(),
        in_scope(libs, rc, dep as int),
    ensures
        reaches(libs, rc, root, dep),
{
    let p = choose|p: Seq<usize>| is_walk(libs, rc, p) && p[0] == root && p.last() == cur;
    let q = p.push(dep);
    assert(q[0] == root);
    assert(q.last() == dep);
    assert forall|k: int|
        0 <= k < q.len() implies ((#[trigger] q[k]) as int) < libs.len() && in_scope(
        libs,
        rc,
        q[k] as int,
    ) by {
        if k < p.len() {
            assert(q[k] == p[k]);
        }
    }
    assert forall|k: int|
        0 <= k < q.len() - 1 implies libs[(#[trigger] q[k]) as int].deps@.contains(q[k + 1]) by {
        if k < p.len() - 1 {
            assert(q[k] == p[k]);
            assert(q[k + 1] == p[k + 1]);
        } else {
            assert(q[k] == p.last());
        }
    }
    assert(is_walk(libs, rc, q));
}

/// Every library on a walk that starts inside an edge-closed list is
/// itself listed.
proof fn lemma_walk_listed_closed(
    libs: Seq<Library>,
    rc: Option<usize>,
    out: Seq<usize>,
    p: Seq<usize>,
    k: int,
)
    requires
        deps_closed(libs, rc, out),
        is_walk(libs, rc, p),
        listed(out, p[0] as int),
        0 <= k < p.len(),
    ensures
        listed(out, p[k] as int),
    decreases k,
{
    if k > 0 {
        lemma_walk_listed_closed(libs, rc, out, p, k - 1);
        let m = choose|m: int| 0 <= m < out.len() && (#[trigger] out[m]) as int == p[k - 1] as int;
        assert(libs[(p[k - 1]) as int].deps@.contains(p[k]));
        let j = choose|j: int|
            0 <= j < libs[(p[k - 1]) as int].deps@.len() && (#[trigger] libs[(p[k
                - 1]) as int].deps@[j]) == p[k];
        assert(libs[out[m] as int].deps@[j] == p[k]);
        assert(in_scope(libs, rc, (libs[out[m] as int].deps@[j]) as int));
        assert(listed(out, libs[out[m] as int].deps@[j] as int));
    }
}

impl Context {
    /// The closure of `root` in breadth-first discovery order: `root`
    /// first, then everything reachable over dependency edges, each
    /// library once.
    pub fn bfs_order(&self, root: usize) -> (order: Vec<usize>)
        requires
            self.wf(),
            (root as int) < self.libraries@.len(),
        ensures
            order@.len() >= 1,
            order@[0] == root,
            forall|k1: int, k2: int|
                0 <= k1 < k2 < order@.len() ==> (#[trigger] order@[k1]) != (#[trigger] order@[k2]),
            forall|k: int|
                0 <= k < order@.len() ==> ((#[trigger] order@[k]) as int) < self.libraries@.len()
                    && reaches(self.libraries@, None, root, order@[k]),
            forall|i: usize|
                (i as int) < self.libraries@.len() && reaches(self.libraries@, None, root, i)
                    ==> #[trigger] listed(order@, i as int),
    {
        let n = self.libraries.len();
        let mut marks: Vec<u8> = Vec::new();
        let mut i: usize = 0;
        while i < n
            invariant
                i <= n,
                marks@.len() == i,
                forall|k: int| 0 <= k < i ==> #[trigger] marks@[k] == 0,
            decreases n - i,
        {
            marks.push(0);
            i = i + 1;
        }
        let mut order: Vec<usize> = Vec::new();
        order.push(root);
        let ghost marks00 = marks@;
        marks.set(root, 1);
        proof {
            lemma_count_zero_set_nonzero(marks00, root as int, 1);
            let walk = Seq::<usize>::empty().push(root);
            assert(walk[0] == root && walk.last() == root);
            assert(is_walk(self.libraries@, None, walk));
            assert(order@[0] == root);
        }
        let mut head: usize = 0;
        while head < order.len()
            invariant
                self.wf(),
                (root as int) < self.libraries@.len(),
                marks@.len() == self.libraries@.len(),
                head <= order@.len(),
                order@.len() >= 1,
                order@[0] == root,
                forall|k1: int, k2: int|
                    0 <= k1 < k2 < order@.len() ==> (#[trigger] order@[k1]) != (
                    #[trigger] order@[k2]),
                forall|k: int|
                    0 <= k < order@.len() ==> ((#[trigger] order@[k]) as int)
                        < self.libraries@.len() && reaches(self.libraries@, None, root, order@[k]),
                forall|i2: int|
                    0 <= i2 < marks@.len() ==> ((#[trigger] marks@[i2]) == 1 <==> listed(
                        order@,
                        i2,
                    )),
                forall|i2: int| 0 <= i2 < marks@.len() ==> (#[trigger] marks@[i2]) <= 1,
                forall|m: int, j: int|
                    0 <= m < head && 0 <= j
                        < self.libraries@[order@[m] as int].deps@.len() ==> listed(
                        order@,
                        (#[trigger] self.libraries@[order@[m] as int].deps@[j]) as int,
                    ),
            decreases count_zero(marks@), order@.len() - head,
        {
            let cur = order[head];
            proof {
                assert(self.lib_wf(cur as int));
            }
            let ghost czero0 = count_zero(marks@);
            let ghost olen0 = order@.len();
            let ndeps = self.libraries[cur].deps.len();
            let mut j: usize = 0;
            while j < ndeps
                invariant
                    self.wf(),
                    (root as int) < self.libraries@.len(),
                    (cur as int) < self.libraries@.len(),
                    head < order@.len(),
                    order@[head as int] == cur,
                    ndeps == self.libraries@[cur as int].deps@.len(),
                    marks@.len() == self.libraries@.len(),
                    order@.len() >= 1,
                    order@[0] == root,
                    olen0 <= order@.len(),
                    head < olen0,
                    count_zero(marks@) + (order@.len() - olen0) == czero0,
                    forall|k1: int, k2: int|
                        0 <= k1 < k2 < order@.len() ==> (#[trigger] order@[k1]) != (
                        #[trigger] order@[k2]),
                    forall|k: int|
                        0 <= k < order@.len() ==> ((#[trigger] order@[k]) as int)
                            < self.libraries@.len() && reaches(
                            self.libraries@,
                            None,
                            root,
                            order@[k],
                        ),
                    forall|i2: int|
                        0 <= i2 < marks@.len() ==> ((#[trigger] marks@[i2]) == 1 <==> listed(
                            order@,
                            i2,
                        )),
                    forall|i2: int| 0 <= i2 < marks@.len() ==> (#[trigger] marks@[i2]) <= 1,
                    forall|m: int, j2: int|
                        0 <= m < head && 0 <= j2
                            < self.libraries@[order@[m] as int].deps@.len() ==> listed(
                            order@,
                            (#[trigger] self.libraries@[order@[m] as int].deps@[j2]) as int,
                        ),
                    forall|j2: int|
                        0 <= j2 < j ==> listed(
                            order@,
                            (#[trigger] self.libraries@[cur as int].deps@[j2]) as int,
                        ),
                decreases ndeps - j,
            {
                let dep = self.libraries[cur].deps[j];
                proof {
                    assert(self.lib_wf(cur as int));
                    assert((dep as int) < self.libraries@.len());
                }
                if marks[dep] == 0 {
                    let ghost marks_b = marks@;
                    let ghost order_b = order@;
                    marks.set(dep, 1);
                    order.push(dep);
                    proof {
                        lemma_count_zero_set_nonzero(marks_b, dep as int, 1);
                        assert forall|x: int| listed(order_b, x) implies listed(order@, x) by {
                            let q = choose|q: int|
                                0 <= q < order_b.len() && (#[trigger] order_b[q]) as int == x;
                            assert(order@[q] as int == x);
                        }
                        assert(self.libraries@[cur as int].deps@.contains(dep));
                        lemma_reaches_step(self.libraries@, None, root, cur, dep);
                        assert(order@[order@.len() - 1] == dep);
                        assert forall|i2: int|
                            0 <= i2 < marks@.len() implies ((#[trigger] marks@[i2]) == 1
                            <==> listed(order@, i2)) by {
                            if i2 == dep as int {
                                assert(order@[order@.len() - 1] as int == i2);
                            } else {
                                if listed(order_b, i2) {
                                    let q = choose|q: int|
                                        0 <= q < order_b.len() && (#[trigger] order_b[q]) as int
                                            == i2;
                                    assert(order@[q] as int == i2);
                                }
                                if listed(order@, i2) {
                                    let q = choose|q: int|
                                        0 <= q < order@.len() && (#[trigger] order@[q]) as int
                                            == i2;
                                    assert(q < order@.len() - 1);
                                    assert(order_b[q] as int == i2);
                                }
                            }
                        }
                        assert forall|k1: int, k2: int|
                            0 <= k1 < k2 < order@.len() implies (#[trigger] order@[k1]) != (
                        #[trigger] order@[k2]) by {
                            if k2 == order@.len() - 1 {
                                assert(marks_b[dep as int] == 0);
                                assert(order@[k1] == order_b[k1]);
                                if order_b[k1] == dep {
                                    assert(listed(order_b, dep as int));
                                }
                            }
                        }
                    }
                } else {
                    proof {
                        assert(marks@[dep as int] == 1);
                    }
                }
                j = j + 1;
            }
            head = head + 1;
        }
        proof {
            assert(deps_closed(self.libraries@, None, order@));
            assert forall|i2: usize|
                (i2 as int) < self.libraries@.len() && reaches(
                    self.libraries@,
                    None,
                    root,
                    i2,
                ) implies listed(order@, i2 as int) by {
                let p = choose|p: Seq<usize>|
                    is_walk(self.libraries@, None, p) && p[0] == root && p.last() == i2;
                assert(listed(order@, p[0] as int)) by {
                    assert(order@[0] as int == p[0] as int);
                }
                lemma_walk_listed_closed(self.libraries@, None, order@, p, p.len() - 1);
            }
        }
        order
    }
}

} // verus!
