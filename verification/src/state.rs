//! The monitor's global state: the loader context, the root library's
//! name, and the running compartments.

use vstd::prelude::*;

use crate::context::Context;
use crate::library::Library;

verus! {

/// A running compartment as the monitor sees it.
#[derive(Clone, Copy, PartialEq, Eq, Structural)]
pub struct Comp {
    /// The compartment's security-context id.
    pub sctx_id: u128,
    /// The compartment's id in the loader context.
    pub compartment_id: usize,
}

impl Comp {
    /// Describe a running compartment.
    pub fn new(sctx_id: u128, compartment_id: usize) -> (r: Comp)
        ensures
            r.sctx_id == sctx_id,
            r.compartment_id == compartment_id,
    {
        Comp { sctx_id, compartment_id }
    }
}

/// Whether `comps` holds an entry under this security-context id.
pub open spec fn comp_registered(comps: Seq<Comp>, sctx_id: u128) -> bool {
    exists|k: int| 0 <= k < comps.len() && (#[trigger] comps[k]).sctx_id == sctx_id
}

/// Unique security-context ids.
pub open spec fn comps_unique(comps: Seq<Comp>) -> bool {
    forall|k1: int, k2: int|
        0 <= k1 < k2 < comps.len() ==> (#[trigger] comps[k1]).sctx_id != (
        #[trigger] comps[k2]).sctx_id
}

/// The entry registered under this security-context id, if any.
pub open spec fn comp_elem(comps: Seq<Comp>, sctx_id: u128) -> Option<Comp> {
    if comp_registered(comps, sctx_id) {
        Some(
            comps[choose|k: int|
                0 <= k < comps.len() && (#[trigger] comps[k]).sctx_id == sctx_id],
        )
    } else {
        None
    }
}

/// In a unique-id registry, any index holding an id holds its entry.
proof fn lemma_comp_at(comps: Seq<Comp>, k: int)
    requires
        comps_unique(comps),
        0 <= k < comps.len(),
    ensures
        comp_elem(comps, comps[k].sctx_id) == Some(comps[k]),
{
    assert(comp_registered(comps, comps[k].sctx_id));
    let kk = choose|kk: int|
        0 <= kk < comps.len() && (#[trigger] comps[kk]).sctx_id == comps[k].sctx_id;
    if kk < k {
        assert(comps[kk].sctx_id != comps[k].sctx_id);
    } else if k < kk {
        assert(comps[k].sctx_id != comps[kk].sctx_id);
    }
}

/// The monitor's state: one owned registry threaded explicitly through
/// the API, guarded by one exclusive lock where it is shared.
pub struct MonitorState {
    /// The loader context.
    pub dynlink: Context,
    /// The name of the monitor's own root library.
    pub root: String,
    /// The running compartments, keyed by security-context id.
    pub comps: Vec<Comp>,
}

impl MonitorState {
    /// Wrap an initial loader context and root-library name.
    pub fn new(dynlink: Context, root: String) -> (r: MonitorState)
        ensures
            r.dynlink == dynlink,
            r.root@ == root@,
            r.comps@.len() == 0,
    {
        MonitorState { dynlink, root, comps: Vec::new() }
    }

    /// The `n`-th library of the monitor's own dependency closure, in
    /// breadth-first discovery order from its root library.
    ///
    /// Nothing is returned when no compartment is named "monitor", when
    /// that compartment holds no library of the root's name, or when `n`
    /// runs past the closure.  Index zero is the root library itself.
    pub fn get_nth_library(&self, n: usize) -> (r: Option<&Library>)
        requires
            self.dynlink.wf(),
        ensures
            r matches Some(lib) ==> exists|i: int|
                0 <= i < self.dynlink.libraries@.len() && *lib == self.dynlink.libraries@[i],
            (forall|c: int|
                0 <= c < self.dynlink.compartments@.len()
                    ==> (#[trigger] self.dynlink.compartments@[c]).name@ != "monitor"@) ==> r
                is None,
            forall|c: int|
                0 <= c < self.dynlink.compartments@.len()
                    && (#[trigger] self.dynlink.compartments@[c]).name@ == "monitor"@
                    && self.dynlink.comp_has_name(c, self.root@) && n == 0 ==> (r matches Some(lib)
                    && lib.name@ == self.root@ && lib.comp == c),
    {
        let comp_id = match self.dynlink.lookup_compartment("monitor") {
            Some(c) => c,
            None => {
                return None;
            },
        };
        let root_id = match self.dynlink.lookup_library(comp_id, self.root.as_str()) {
            Some(l) => l,
            None => {
                proof {
                    assert forall|c: int|
                        0 <= c < self.dynlink.compartments@.len()
                            && (#[trigger] self.dynlink.compartments@[c]).name@ == "monitor"@
                            && self.dynlink.comp_has_name(c, self.root@) implies false by {
                        if c != comp_id as int {
                            assert(self.dynlink.compartments@[c].name@
                                != self.dynlink.compartments@[comp_id as int].name@);
                        }
                    }
                }
                return None;
            },
        };
        let order = self.dynlink.bfs_order(root_id);
        if n < order.len() {
            let id = order[n];
            let r = self.dynlink.get_library(id);
            proof {
                assert((id as int) < self.dynlink.libraries@.len());
                if n == 0 {
                    assert(order@[0] == root_id);
                }
                assert forall|c: int|
                    0 <= c < self.dynlink.compartments@.len()
                        && (#[trigger] self.dynlink.compartments@[c]).name@ == "monitor"@
                        && self.dynlink.comp_has_name(c, self.root@) && n == 0 implies (
                self.dynlink.libraries@[id as int].name@ == self.root@
                    && self.dynlink.libraries@[id as int].comp == c) by {
                    if c != comp_id as int {
                        assert(self.dynlink.compartments@[c].name@
                            != self.dynlink.compartments@[comp_id as int].name@);
                    }
                }
            }
            r
        } else {
            proof {
                assert forall|c: int|
                    0 <= c < self.dynlink.compartments@.len()
                        && (#[trigger] self.dynlink.compartments@[c]).name@ == "monitor"@
                        && self.dynlink.comp_has_name(c, self.root@) && n == 0 implies false by {
                    assert(order@.len() >= 1);
                }
            }
            None
        }
    }

    /// Register a running compartment under its security-context id,
    /// replacing any entry already registered under that id.
    ///
    /// The compartment's TLS template is built in the caller's
    /// environment before the compartment is handed here.
    pub fn add_comp(&mut self, comp: Comp)
        requires
            comps_unique(old(self).comps@),
        ensures
            comps_unique(final(self).comps@),
            final(self).dynlink == old(self).dynlink,
            final(self).root@ == old(self).root@,
            comp_elem(final(self).comps@, comp.sctx_id) == Some(comp),
            forall|s: u128|
                s != comp.sctx_id ==> comp_elem(final(self).comps@, s) == comp_elem(
                    old(self).comps@,
                    s,
                ),
    {
        let ghost c0 = self.comps@;
        let n = self.comps.len();
        let mut k: usize = 0;
        while k < n
            invariant
                k <= n,
                n == self.comps@.len(),
                self.comps@ == c0,
                c0 == old(self).comps@,
                self.dynlink == old(self).dynlink,
                self.root@ == old(self).root@,
                comps_unique(c0),
                forall|i: int| 0 <= i < k ==> (#[trigger] c0[i]).sctx_id != comp.sctx_id,
            decreases n - k,
        {
            if self.comps[k].sctx_id == comp.sctx_id {
                self.comps.set(k, comp);
                proof {
                    assert(self.comps@[k as int] == comp);
                    assert forall|k1: int, k2: int|
                        0 <= k1 < k2 < self.comps@.len() implies (
                    #[trigger] self.comps@[k1]).sctx_id != (#[trigger] self.comps@[k2]).sctx_id by {
                        assert(c0[k1].sctx_id != c0[k2].sctx_id);
                    }
                    lemma_comp_at(self.comps@, k as int);
                    assert forall|s: u128|
                        s != comp.sctx_id implies comp_elem(self.comps@, s) == comp_elem(
                        c0,
                        s,
                    ) by {
                        if comp_registered(c0, s) {
                            let j = choose|j: int|
                                0 <= j < c0.len() && (#[trigger] c0[j]).sctx_id == s;
                            assert(j != k);
                            assert(self.comps@[j] == c0[j]);
                            lemma_comp_at(c0, j);
                            lemma_comp_at(self.comps@, j);
                        } else {
                            if comp_registered(self.comps@, s) {
                                let j = choose|j: int|
                                    0 <= j < self.comps@.len() && (
                                    #[trigger] self.comps@[j]).sctx_id == s;
                                assert(c0[j].sctx_id == s);
                            }
                        }
                    }
                }
                return ;
            }
            k = k + 1;
        }
        self.comps.push(comp);
        proof {
            assert(self.comps@[self.comps@.len() - 1] == comp);
            assert forall|k1: int, k2: int|
                0 <= k1 < k2 < self.comps@.len() implies (#[trigger] self.comps@[k1]).sctx_id != (
            #[trigger] self.comps@[k2]).sctx_id by {
                if k2 == self.comps@.len() - 1 {
                    assert(self.comps@[k1] == c0[k1]);
                    assert(c0[k1].sctx_id != comp.sctx_id);
                }
            }
            lemma_comp_at(self.comps@, self.comps@.len() - 1);
            assert forall|s: u128|
                s != comp.sctx_id implies comp_elem(self.comps@, s) == comp_elem(c0, s) by {
                if comp_registered(c0, s) {
                    let j = choose|j: int| 0 <= j < c0.len() && (#[trigger] c0[j]).sctx_id == s;
                    assert(self.comps@[j] == c0[j]);
                    lemma_comp_at(c0, j);
                    lemma_comp_at(self.comps@, j);
                } else {
                    if comp_registered(self.comps@, s) {
                        let j = choose|j: int|
                            0 <= j < self.comps@.len() && (#[trigger] self.comps@[j]).sctx_id == s;
                        assert(j < self.comps@.len() - 1);
                        assert(c0[j].sctx_id == s);
                    }
                }
            }
        }
    }
}

} // verus!
