//! The e-graph core: a union-find over class ids, a hashcons of canonical
//! e-nodes, per-class analysis data, and congruence closure via `rebuild`.
use vstd::prelude::*;

use crate::model::{EggError, Mdl, TensorData};
use crate::model;

verus! {

/// Well-formed union-find table: every parent pointer goes downwards, so
/// following it terminates.
pub open spec fn uf_wf(uf: Seq<usize>) -> bool {
    forall|i: int| 0 <= i < uf.len() ==> #[trigger] uf[i] <= i
}

/// The representative of class `i`: follow parent pointers to a fixed point.
pub open spec fn root_of(uf: Seq<usize>, i: int) -> int
    decreases i,
        when 0 <= i < uf.len() && uf_wf(uf)
{
    if 0 <= i < uf.len() && uf_wf(uf) {
        if uf[i] == i {
            i
        } else {
            root_of(uf, uf[i] as int)
        }
    } else {
        i
    }
}

/// A class id that is its own representative.
pub open spec fn is_root(uf: Seq<usize>, i: int) -> bool {
    0 <= i < uf.len() && uf[i] == i
}

pub proof fn lemma_root_of_root(uf: Seq<usize>, i: int)
    requires
        uf_wf(uf),
        0 <= i < uf.len(),
    ensures
        is_root(uf, root_of(uf, i)),
        root_of(uf, root_of(uf, i)) == root_of(uf, i),
        0 <= root_of(uf, i) <= i,
    decreases i,
{
    if uf[i] == i {
    } else {
        lemma_root_of_root(uf, uf[i] as int);
    }
}

/// Linking root `b` under root `a` redirects exactly the classes whose
/// representative was `b`.
pub proof fn lemma_root_after_link(uf: Seq<usize>, a: int, b: int, k: int)
    requires
        uf_wf(uf),
        is_root(uf, a),
        is_root(uf, b),
        a < b,
        0 <= k < uf.len(),
    ensures
        uf_wf(uf.update(b, a as usize)),
        root_of(uf.update(b, a as usize), k) == if root_of(uf, k) == b {
            a
        } else {
            root_of(uf, k)
        },
    decreases k,
{
    let uf2 = uf.update(b, a as usize);
    assert(uf_wf(uf2));
    lemma_root_of_root(uf, k);
    if k == b {
        assert(uf2[k] == a as usize);
        assert(uf2[a] == a as usize);
        assert(root_of(uf2, a) == a);
        assert(root_of(uf2, k) == a);
        assert(root_of(uf, k) == b);
    } else if uf[k] == k {
        assert(uf2[k] == k as usize);
        assert(root_of(uf2, k) == k);
        assert(root_of(uf, k) == k);
    } else {
        lemma_root_after_link(uf, a, b, uf[k] as int);
        assert(uf2[k] == uf[k]);
        assert(root_of(uf2, k) == root_of(uf2, uf[k] as int));
        assert(root_of(uf, k) == root_of(uf, uf[k] as int));
    }
}

/// Replacing a parent pointer by the representative it leads to does not
/// change any representative.
pub proof fn lemma_root_after_compress(uf: Seq<usize>, j: int, k: int)
    requires
        uf_wf(uf),
        0 <= j < uf.len(),
        0 <= k < uf.len(),
    ensures
        uf_wf(uf.update(j, root_of(uf, j) as usize)),
        root_of(uf.update(j, root_of(uf, j) as usize), k) == root_of(uf, k),
    decreases k,
{
    let r = root_of(uf, j);
    lemma_root_of_root(uf, j);
    let uf2 = uf.update(j, r as usize);
    assert(uf_wf(uf2));
    if k == j {
        if uf[k] == k {
            assert(r == k);
            assert(uf2[k] == k as usize);
            assert(root_of(uf2, k) == k);
        } else {
            assert(r < j) by {
                lemma_root_of_root(uf, uf[j] as int);
            }
            assert(uf2[j] == r as usize);
            assert(uf2[r] == uf[r]);
            assert(uf[r] == r as usize);
            assert(root_of(uf2, r) == r);
            assert(root_of(uf2, j) == root_of(uf2, r));
        }
    } else if uf[k] == k {
        assert(uf2[k] == k as usize);
        assert(root_of(uf2, k) == k);
    } else {
        lemma_root_after_compress(uf, j, uf[k] as int);
        assert(uf2[k] == uf[k]);
        assert(root_of(uf2, k) == root_of(uf2, uf[k] as int));
        assert(root_of(uf, k) == root_of(uf, uf[k] as int));
    }
}

/// A fresh singleton class does not disturb older representatives.
pub proof fn lemma_root_after_push(uf: Seq<usize>, k: int)
    requires
        uf_wf(uf),
        0 <= k < uf.len(),
    ensures
        uf_wf(uf.push(uf.len() as usize)),
        root_of(uf.push(uf.len() as usize), k) == root_of(uf, k),
    decreases k,
{
    if uf[k] == k {
    } else {
        lemma_root_after_push(uf, uf[k] as int);
    }
}

/// Number of representatives among the first `n` classes.
pub open spec fn num_roots_upto(uf: Seq<usize>, n: int) -> int
    decreases n,
{
    if n <= 0 {
        0
    } else {
        num_roots_upto(uf, n - 1) + if uf[n - 1] == n - 1 {
            1int
        } else {
            0int
        }
    }
}

pub proof fn lemma_num_roots_after_link(uf: Seq<usize>, a: int, b: int, n: int)
    requires
        uf_wf(uf),
        is_root(uf, a),
        is_root(uf, b),
        a < b,
        b < n <= uf.len(),
    ensures
        num_roots_upto(uf.update(b, a as usize), n) == num_roots_upto(uf, n) - 1,
    decreases n,
{
    let uf2 = uf.update(b, a as usize);
    if n - 1 == b {
        assert(num_roots_upto(uf2, n - 1) == num_roots_upto(uf, n - 1)) by {
            lemma_num_roots_same_prefix(uf, uf2, n - 1);
        }
    } else {
        lemma_num_roots_after_link(uf, a, b, n - 1);
    }
}

pub proof fn lemma_num_roots_same_prefix(uf1: Seq<usize>, uf2: Seq<usize>, n: int)
    requires
        forall|i: int| 0 <= i < n ==> uf1[i] == uf2[i],
    ensures
        num_roots_upto(uf1, n) == num_roots_upto(uf2, n),
    decreases n,
{
    if n > 0 {
        lemma_num_roots_same_prefix(uf1, uf2, n - 1);
    }
}


/// All children of `n` name classes below `bound`.
pub open spec fn node_in_range(n: Mdl, bound: int) -> bool {
    forall|j: int| 0 <= j < n.children@.len() ==> #[trigger] n.children@[j] < bound
}

/// All children of `n` are representatives.
pub open spec fn node_canonical(uf: Seq<usize>, n: Mdl) -> bool {
    forall|j: int|
        0 <= j < n.children@.len() ==> is_root(uf, #[trigger] n.children@[j] as int)
}

/// Two nodes denote the same canonical e-node under the current union-find.
pub open spec fn congruent(uf: Seq<usize>, a: Mdl, b: Mdl) -> bool {
    a.op == b.op && a.literal == b.literal && a.children@.len() == b.children@.len()
        && forall|j: int|
        0 <= j < a.children@.len() ==> root_of(uf, #[trigger] a.children@[j] as int) == root_of(
            uf,
            b.children@[j] as int,
        )
}

/// An e-graph: equivalence classes of e-nodes, their analysis data, and the
/// symbol table for `Var` names.
pub struct EGraph {
    /// Union-find table over class ids.
    pub uf: Vec<usize>,
    /// Analysis value per class id; authoritative at representatives.
    pub analysis: Vec<TensorData>,
    /// The stored e-nodes (the hashcons contents).
    pub nodes: Vec<Mdl>,
    /// Owning class id of each stored node.
    pub owner: Vec<usize>,
    /// Per-node flag: excluded from extraction.
    pub node_blacklist: Vec<bool>,
    /// Names of `Var` nodes, indexed by their `literal` payload.
    pub symbols: Vec<String>,
}

impl EGraph {
    /// Basic well-formedness: indices in range, parallel vectors aligned.
    pub open spec fn wf(self) -> bool {
        &&& uf_wf(self.uf@)
        &&& self.analysis@.len() == self.uf@.len()
        &&& self.owner@.len() == self.nodes@.len()
        &&& self.node_blacklist@.len() == self.nodes@.len()
        &&& forall|k: int|
            0 <= k < self.owner@.len() ==> #[trigger] self.owner@[k] < self.uf@.len()
        &&& forall|k: int|
            0 <= k < self.nodes@.len() ==> node_in_range(#[trigger] self.nodes@[k], self.uf@.len() as int)
    }

    /// Full invariant between operations: all stored nodes canonical, their
    /// owners representatives, and no two stored nodes congruent.
    pub open spec fn clean(self) -> bool {
        &&& self.wf()
        &&& forall|k: int|
            0 <= k < self.nodes@.len() ==> node_canonical(self.uf@, #[trigger] self.nodes@[k])
        &&& forall|k: int|
            0 <= k < self.owner@.len() ==> is_root(self.uf@, #[trigger] self.owner@[k] as int)
        &&& forall|k1: int, k2: int|
            0 <= k1 < k2 < self.nodes@.len() ==> !(#[trigger] self.nodes@[k1]).is_same(
                #[trigger] self.nodes@[k2],
            )
    }

    pub open spec fn n_classes(self) -> int {
        self.uf@.len() as int
    }

    pub fn new() -> (r: EGraph)
        ensures
            r.clean(),
            r.n_classes() == 0,
            r.nodes@.len() == 0,
    {
        EGraph {
            uf: Vec::new(),
            analysis: Vec::new(),
            nodes: Vec::new(),
            owner: Vec::new(),
            node_blacklist: Vec::new(),
            symbols: Vec::new(),
        }
    }

    /// The representative of class `id`. Idempotent: applying `find` to its
    /// own result returns the same class.
    pub fn find(&self, id: usize) -> (r: usize)
        requires
            self.wf(),
            id < self.n_classes(),
        ensures
            r == root_of(self.uf@, id as int),
            is_root(self.uf@, r as int),
            r <= id,
    {
        proof {
            lemma_root_of_root(self.uf@, id as int);
        }
        let mut cur: usize = id;
        while self.uf[cur] != cur
            invariant
                self.wf(),
                cur < self.n_classes(),
                root_of(self.uf@, cur as int) == root_of(self.uf@, id as int),
            decreases cur,
        {
            cur = self.uf[cur];
        }
        cur
    }

    /// The analysis value of the class containing `id`.
    pub fn class_data(&self, id: usize) -> (r: TensorData)
        requires
            self.wf(),
            id < self.n_classes(),
        ensures
            r == self.analysis@[root_of(self.uf@, id as int)],
    {
        proof {
            lemma_root_of_root(self.uf@, id as int);
        }
        let root = self.find(id);
        self.analysis[root]
    }

    /// Merges the classes of `a` and `b`.
    ///
    /// Returns the surviving representative and whether anything changed.
    /// Fails with `AnalysisConflict` exactly when the two classes carry
    /// disagreeing analyses. On success the analyses agreed, so the shape
    /// assigned to the merged class is the shape both classes already had:
    /// a successful merge never changes any class's observable type.
    pub fn union(&mut self, a: usize, b: usize) -> (r: Result<(usize, bool), EggError>)
        requires
            old(self).wf(),
            a < old(self).n_classes(),
            b < old(self).n_classes(),
        ensures
            final(self).wf(),
            final(self).n_classes() == old(self).n_classes(),
            final(self).nodes@ == old(self).nodes@,
            final(self).owner@ == old(self).owner@,
            final(self).node_blacklist@ == old(self).node_blacklist@,
            final(self).analysis@ == old(self).analysis@,
            final(self).symbols@ == old(self).symbols@,
            r is Err <==> root_of(old(self).uf@, a as int) != root_of(old(self).uf@, b as int)
                && !old(self).analysis@[root_of(old(self).uf@, a as int)].agrees_with(
                old(self).analysis@[root_of(old(self).uf@, b as int)],
            ),
            r is Err ==> r->Err_0 == EggError::AnalysisConflict && final(self).uf@ == old(self).uf@,
            r matches Ok((root, changed)) ==> {
                &&& changed <==> root_of(old(self).uf@, a as int) != root_of(old(self).uf@, b as int)
                &&& !changed ==> final(self).uf@ == old(self).uf@ && root == root_of(
                    old(self).uf@,
                    a as int,
                )
                &&& root == root_of(final(self).uf@, a as int)
                &&& root == root_of(final(self).uf@, b as int)
                &&& forall|k: int|
                    0 <= k < old(self).n_classes() ==> root_of(final(self).uf@, k) == if root_of(
                        old(self).uf@,
                        k,
                    ) == max_root_spec(old(self).uf@, a as int, b as int) {
                        min_root_spec(old(self).uf@, a as int, b as int)
                    } else {
                        root_of(old(self).uf@, k)
                    }
                &&& changed ==> num_roots_upto(final(self).uf@, final(self).n_classes())
                    == num_roots_upto(old(self).uf@, old(self).n_classes()) - 1
                &&& !changed ==> num_roots_upto(final(self).uf@, final(self).n_classes())
                    == num_roots_upto(old(self).uf@, old(self).n_classes())
                // rewrite soundness: no class's observable type changes
                &&& forall|k: int|
                    0 <= k < old(self).n_classes() ==> (#[trigger] final(self).analysis@[root_of(
                        final(self).uf@,
                        k,
                    )]).agrees_with(old(self).analysis@[root_of(old(self).uf@, k)])
            },
    {
        let ra = self.find(a);
        let rb = self.find(b);
        if ra == rb {
            return Ok((ra, false));
        }
        if !model::tensor_data_eq(&self.analysis[ra], &self.analysis[rb]) {
            return Err(EggError::AnalysisConflict);
        }
        let lo: usize = if ra < rb { ra } else { rb };
        let hi: usize = if ra < rb { rb } else { ra };
        proof {
            assert forall|k: int| 0 <= k < self.uf@.len() implies root_of(
                self.uf@.update(hi as int, lo),
                k,
            ) == if root_of(self.uf@, k) == hi as int {
                lo as int
            } else {
                root_of(self.uf@, k)
            } by {
                lemma_root_after_link(self.uf@, lo as int, hi as int, k);
            }
            lemma_root_after_link(self.uf@, lo as int, hi as int, a as int);
            lemma_num_roots_after_link(self.uf@, lo as int, hi as int, self.uf@.len() as int);
        }
        self.uf[hi] = lo;
        Ok((lo, true))
    }
}

impl EGraph {
    /// A copy of `n` whose children are replaced by their representatives.
    pub fn canonicalize_node(&self, n: &Mdl) -> (r: Mdl)
        requires
            self.wf(),
            node_in_range(*n, self.n_classes()),
        ensures
            r.op == n.op,
            r.literal == n.literal,
            r.children@.len() == n.children@.len(),
            forall|j: int|
                0 <= j < n.children@.len() ==> #[trigger] r.children@[j] as int == root_of(
                    self.uf@,
                    n.children@[j] as int,
                ),
            node_canonical(self.uf@, r),
            node_in_range(r, self.n_classes()),
            congruent(self.uf@, r, *n),
    {
        let mut children: Vec<usize> = Vec::new();
        let mut j: usize = 0;
        while j < n.children.len()
            invariant
                self.wf(),
                node_in_range(*n, self.n_classes()),
                j <= n.children@.len(),
                children@.len() == j,
                forall|i: int|
                    0 <= i < j ==> #[trigger] children@[i] as int == root_of(
                        self.uf@,
                        n.children@[i] as int,
                    ),
            decreases n.children@.len() - j,
        {
            let c = self.find(n.children[j]);
            children.push(c);
            j += 1;
        }
        proof {
            assert forall|i: int| 0 <= i < children@.len() implies is_root(
                self.uf@,
                #[trigger] children@[i] as int,
            ) by {
                lemma_root_of_root(self.uf@, n.children@[i] as int);
            }
            assert forall|i: int| 0 <= i < children@.len() implies root_of(
                self.uf@,
                #[trigger] children@[i] as int,
            ) == root_of(self.uf@, n.children@[i] as int) by {
                lemma_root_of_root(self.uf@, n.children@[i] as int);
            }
        }
        Mdl { op: n.op, literal: n.literal, children }
    }

    /// Whether `a` and `b` denote the same canonical e-node right now.
    pub fn congruent_nodes(&self, a: &Mdl, b: &Mdl) -> (r: bool)
        requires
            self.wf(),
            node_in_range(*a, self.n_classes()),
            node_in_range(*b, self.n_classes()),
        ensures
            r <==> congruent(self.uf@, *a, *b),
    {
        if a.op != b.op || a.literal != b.literal || a.children.len() != b.children.len() {
            return false;
        }
        let mut j: usize = 0;
        while j < a.children.len()
            invariant
                self.wf(),
                node_in_range(*a, self.n_classes()),
                node_in_range(*b, self.n_classes()),
                j <= a.children@.len(),
                a.children@.len() == b.children@.len(),
                forall|i: int|
                    0 <= i < j ==> root_of(self.uf@, #[trigger] a.children@[i] as int) == root_of(
                        self.uf@,
                        b.children@[i] as int,
                    ),
            decreases a.children@.len() - j,
        {
            if self.find(a.children[j]) != self.find(b.children[j]) {
                return false;
            }
            j += 1;
        }
        true
    }

    /// The index of a stored node congruent to `n`, if one exists.
    pub fn lookup(&self, n: &Mdl) -> (r: Option<usize>)
        requires
            self.wf(),
            node_in_range(*n, self.n_classes()),
        ensures
            match r {
                Some(k) => k < self.nodes@.len() && congruent(self.uf@, self.nodes@[k as int], *n),
                None => forall|k: int|
                    0 <= k < self.nodes@.len() ==> !congruent(self.uf@, #[trigger] self.nodes@[k], *n),
            },
    {
        let mut k: usize = 0;
        while k < self.nodes.len()
            invariant
                self.wf(),
                node_in_range(*n, self.n_classes()),
                k <= self.nodes@.len(),
                forall|i: int|
                    0 <= i < k ==> !congruent(self.uf@, #[trigger] self.nodes@[i], *n),
            decreases self.nodes@.len() - k,
        {
            if self.congruent_nodes(&self.nodes[k], n) {
                return Some(k);
            }
            k += 1;
        }
        None
    }

    /// Inserts an e-node, hashconsed: a node congruent to one already stored
    /// yields that node's class, otherwise a fresh class is created carrying
    /// `data` as its analysis.
    pub fn add_with_data(&mut self, n: Mdl, data: TensorData) -> (r: usize)
        requires
            old(self).wf(),
            node_in_range(n, old(self).n_classes()),
        ensures
            final(self).wf(),
            old(self).clean() ==> final(self).clean(),
            r < final(self).n_classes(),
            is_root(final(self).uf@, r as int),
            old(self).n_classes() <= final(self).n_classes() <= old(self).n_classes() + 1,
            forall|k: int|
                0 <= k < old(self).n_classes() ==> root_of(final(self).uf@, k) == root_of(
                    old(self).uf@,
                    k,
                ),
            forall|k: int|
                0 <= k < old(self).n_classes() ==> final(self).uf@[k] == old(self).uf@[k],
            forall|k: int|
                0 <= k < old(self).n_classes() ==> final(self).analysis@[k] == old(self).analysis@[k],
            final(self).symbols@ == old(self).symbols@,
            final(self).nodes@.len() >= old(self).nodes@.len(),
            forall|k: int|
                0 <= k < old(self).nodes@.len() ==> final(self).nodes@[k] == old(self).nodes@[k]
                    && final(self).owner@[k] == old(self).owner@[k] && final(self).node_blacklist@[k]
                    == old(self).node_blacklist@[k],
            // hashcons: hit an existing congruent node, or created one new class
            (exists|k: int|
                0 <= k < old(self).nodes@.len() && congruent(
                    old(self).uf@,
                    #[trigger] old(self).nodes@[k],
                    n,
                )) ==> *final(self) == *old(self) && exists|k: int|
                0 <= k < old(self).nodes@.len() && congruent(old(self).uf@, #[trigger] old(self).nodes@[k], n)
                    && r as int == root_of(old(self).uf@, old(self).owner@[k] as int),
            (forall|k: int|
                0 <= k < old(self).nodes@.len() ==> !congruent(
                    old(self).uf@,
                    #[trigger] old(self).nodes@[k],
                    n,
                )) ==> {
                &&& final(self).n_classes() == old(self).n_classes() + 1
                &&& r as int == old(self).n_classes()
                &&& final(self).nodes@.len() == old(self).nodes@.len() + 1
                &&& congruent(final(self).uf@, final(self).nodes@[old(self).nodes@.len() as int], n)
                &&& final(self).owner@[old(self).nodes@.len() as int] == r
                &&& final(self).analysis@[r as int] == data
                &&& final(self).node_blacklist@[old(self).nodes@.len() as int] == false
            },
    {
        let canon = self.canonicalize_node(&n);
        match self.lookup(&canon) {
            Some(k) => {
                proof {
                    let m = self.nodes@[k as int];
                    assert(congruent(self.uf@, m, n)) by {
                        assert forall|j: int| 0 <= j < m.children@.len() implies root_of(
                            self.uf@,
                            #[trigger] m.children@[j] as int,
                        ) == root_of(self.uf@, n.children@[j] as int) by {
                            lemma_root_of_root(self.uf@, n.children@[j] as int);
                        }
                    }
                }
                let owner = self.owner[k];
                let r = self.find(owner);
                r
            },
            None => {
                proof {
                    assert forall|k: int| 0 <= k < self.nodes@.len() implies !congruent(
                        self.uf@,
                        #[trigger] self.nodes@[k],
                        n,
                    ) by {
                        let m = self.nodes@[k];
                        if congruent(self.uf@, m, n) {
                            assert(congruent(self.uf@, m, canon)) by {
                                assert forall|j: int| 0 <= j < m.children@.len() implies root_of(
                                    self.uf@,
                                    #[trigger] m.children@[j] as int,
                                ) == root_of(self.uf@, canon.children@[j] as int) by {
                                    lemma_root_of_root(self.uf@, n.children@[j] as int);
                                }
                            }
                        }
                    }
                }
                let new_id: usize = self.uf.len();
                proof {
                    assert forall|k: int| 0 <= k < self.uf@.len() implies root_of(
                        self.uf@.push(new_id),
                        k,
                    ) == root_of(self.uf@, k) by {
                        lemma_root_after_push(self.uf@, k);
                    }
                }
                let ghost old_self = *self;
                self.uf.push(new_id);
                self.analysis.push(data);
                self.nodes.push(canon);
                self.owner.push(new_id);
                self.node_blacklist.push(false);
                proof {
                    assert(self.uf@[new_id as int] == new_id);
                    assert(root_of(self.uf@, new_id as int) == new_id);
                    assert forall|k: int| 0 <= k < self.nodes@.len() implies node_in_range(
                        #[trigger] self.nodes@[k],
                        self.uf@.len() as int,
                    ) by {
                        if k < old_self.nodes@.len() {
                            assert(self.nodes@[k] == old_self.nodes@[k]);
                            assert(node_in_range(old_self.nodes@[k], old_self.uf@.len() as int));
                        } else {
                            assert(self.nodes@[k] == canon);
                        }
                    }
                    if old_self.clean() {
                        assert forall|k: int| 0 <= k < self.nodes@.len() implies node_canonical(
                            self.uf@,
                            #[trigger] self.nodes@[k],
                        ) by {
                            if k < old_self.nodes@.len() {
                                assert(self.nodes@[k] == old_self.nodes@[k]);
                                assert(node_canonical(old_self.uf@, old_self.nodes@[k]));
                                assert forall|j: int|
                                    0 <= j < self.nodes@[k].children@.len() implies is_root(
                                    self.uf@,
                                    #[trigger] self.nodes@[k].children@[j] as int,
                                ) by {
                                    assert(is_root(old_self.uf@, self.nodes@[k].children@[j] as int));
                                }
                            } else {
                                assert(self.nodes@[k] == canon);
                                assert forall|j: int|
                                    0 <= j < canon.children@.len() implies is_root(
                                    self.uf@,
                                    #[trigger] canon.children@[j] as int,
                                ) by {
                                    assert(is_root(old_self.uf@, canon.children@[j] as int));
                                }
                            }
                        }
                        assert forall|k1: int, k2: int|
                            0 <= k1 < k2 < self.nodes@.len() implies !(#[trigger] self.nodes@[k1]).is_same(
                            #[trigger] self.nodes@[k2],
                        ) by {
                            if k2 == old_self.nodes@.len() {
                                let m = self.nodes@[k1];
                                if m.is_same(canon) {
                                    assert(congruent(old_self.uf@, m, canon));
                                    assert(congruent(old_self.uf@, m, n)) by {
                                        assert forall|j: int|
                                            0 <= j < m.children@.len() implies root_of(
                                            old_self.uf@,
                                            #[trigger] m.children@[j] as int,
                                        ) == root_of(old_self.uf@, n.children@[j] as int) by {
                                            lemma_root_of_root(old_self.uf@, n.children@[j] as int);
                                        }
                                    }
                                }
                            }
                        }
                    }
                }
                new_id
            },
        }
    }
}

pub proof fn lemma_num_roots_nonneg(uf: Seq<usize>, n: int)
    ensures
        num_roots_upto(uf, n) >= 0,
    decreases n,
{
    if n > 0 {
        lemma_num_roots_nonneg(uf, n - 1);
    }
}

pub proof fn lemma_num_roots_le_len(uf: Seq<usize>, n: int)
    ensures
        num_roots_upto(uf, n) <= if n <= 0 {
            0int
        } else {
            n
        },
    decreases n,
{
    if n > 0 {
        lemma_num_roots_le_len(uf, n - 1);
    }
}

pub proof fn lemma_num_roots_pointwise(uf1: Seq<usize>, uf2: Seq<usize>, n: int)
    requires
        forall|i: int| 0 <= i < n ==> ((uf1[i] == i) <==> (uf2[i] == i)),
    ensures
        num_roots_upto(uf1, n) == num_roots_upto(uf2, n),
    decreases n,
{
    if n > 0 {
        lemma_num_roots_pointwise(uf1, uf2, n - 1);
    }
}

impl EGraph {
    /// Points every class directly at its representative.
    fn compress_all(&mut self)
        requires
            old(self).wf(),
        ensures
            final(self).wf(),
            final(self).n_classes() == old(self).n_classes(),
            final(self).nodes@ == old(self).nodes@,
            final(self).owner@ == old(self).owner@,
            final(self).node_blacklist@ == old(self).node_blacklist@,
            final(self).analysis@ == old(self).analysis@,
            final(self).symbols@ == old(self).symbols@,
            forall|k: int|
                0 <= k < old(self).n_classes() ==> root_of(final(self).uf@, k) == root_of(
                    old(self).uf@,
                    k,
                ),
            forall|k: int|
                0 <= k < old(self).n_classes() ==> final(self).uf@[k] as int == root_of(
                    old(self).uf@,
                    k,
                ),
            num_roots_upto(final(self).uf@, final(self).n_classes()) == num_roots_upto(
                old(self).uf@,
                old(self).n_classes(),
            ),
    {
        let ghost uf0 = self.uf@;
        let n = self.uf.len();
        let mut i: usize = 0;
        while i < n
            invariant
                self.wf(),
                n == self.uf@.len(),
                self.nodes@ == old(self).nodes@,
                self.owner@ == old(self).owner@,
                self.node_blacklist@ == old(self).node_blacklist@,
                self.analysis@ == old(self).analysis@,
                self.symbols@ == old(self).symbols@,
                uf0 == old(self).uf@,
                uf0.len() == n,
                i <= n,
                forall|k: int| 0 <= k < n ==> root_of(self.uf@, k) == root_of(uf0, k),
                forall|k: int| 0 <= k < i ==> self.uf@[k] as int == root_of(uf0, k),
            decreases n - i,
        {
            let r = self.find(i);
            proof {
                assert forall|k: int| 0 <= k < n implies root_of(
                    self.uf@.update(i as int, r),
                    k,
                ) == root_of(self.uf@, k) by {
                    lemma_root_after_compress(self.uf@, i as int, k);
                }
                lemma_root_after_compress(self.uf@, i as int, i as int);
            }
            self.uf[i] = r;
            i += 1;
        }
        proof {
            assert forall|k: int| 0 <= k < n implies ((self.uf@[k] == k) <==> (uf0[k] == k)) by {
                lemma_root_of_root(uf0, k);
                if uf0[k] == k {
                    assert(root_of(uf0, k) == k);
                }
            }
            lemma_num_roots_pointwise(self.uf@, uf0, n as int);
        }
    }

    /// Rewrites every stored node to its canonical form and every owner to
    /// its representative.
    fn canonicalize_all(&mut self)
        requires
            old(self).wf(),
        ensures
            final(self).wf(),
            final(self).uf@ == old(self).uf@,
            final(self).analysis@ == old(self).analysis@,
            final(self).symbols@ == old(self).symbols@,
            final(self).node_blacklist@ == old(self).node_blacklist@,
            final(self).nodes@.len() == old(self).nodes@.len(),
            final(self).owner@.len() == old(self).owner@.len(),
            forall|k: int|
                0 <= k < old(self).nodes@.len() ==> congruent(
                    old(self).uf@,
                    #[trigger] final(self).nodes@[k],
                    old(self).nodes@[k],
                ) && node_canonical(old(self).uf@, final(self).nodes@[k]),
            forall|k: int|
                0 <= k < old(self).owner@.len() ==> final(self).owner@[k] as int == root_of(
                    old(self).uf@,
                    #[trigger] old(self).owner@[k] as int,
                ),
            forall|k: int|
                0 <= k < old(self).owner@.len() ==> is_root(
                    final(self).uf@,
                    #[trigger] final(self).owner@[k] as int,
                ),
    {
        let n = self.nodes.len();
        let mut k: usize = 0;
        while k < n
            invariant
                self.wf(),
                n == self.nodes@.len(),
                self.uf@ == old(self).uf@,
                self.analysis@ == old(self).analysis@,
                self.symbols@ == old(self).symbols@,
                self.node_blacklist@ == old(self).node_blacklist@,
                self.nodes@.len() == old(self).nodes@.len(),
                self.owner@.len() == old(self).owner@.len(),
                k <= n,
                forall|j: int| k <= j < n ==> self.nodes@[j] == old(self).nodes@[j],
                forall|j: int| k <= j < n ==> self.owner@[j] == old(self).owner@[j],
                forall|j: int|
                    0 <= j < k ==> congruent(
                        old(self).uf@,
                        #[trigger] self.nodes@[j],
                        old(self).nodes@[j],
                    ) && node_canonical(old(self).uf@, self.nodes@[j]),
                forall|j: int|
                    0 <= j < k ==> self.owner@[j] as int == root_of(
                        old(self).uf@,
                        #[trigger] old(self).owner@[j] as int,
                    ),
                forall|j: int|
                    0 <= j < k ==> is_root(self.uf@, #[trigger] self.owner@[j] as int),
            decreases n - k,
        {
            let canon = self.canonicalize_node(&self.nodes[k]);
            proof {
                assert forall|j: int|
                    0 <= j < canon.children@.len() implies root_of(
                    self.uf@,
                    #[trigger] canon.children@[j] as int,
                ) == root_of(self.uf@, self.nodes@[k as int].children@[j] as int) by {
                    lemma_root_of_root(self.uf@, self.nodes@[k as int].children@[j] as int);
                }
            }
            self.nodes[k] = canon;
            let o = self.find(self.owner[k]);
            self.owner[k] = o;
            k += 1;
        }
    }

    /// One full congruence sweep: unions the owners of every pair of stored
    /// nodes that have become congruent. Returns how many merges it made;
    /// zero means the graph was already congruence-closed.
    fn congruence_pass(&mut self) -> (r: Result<usize, EggError>)
        requires
            old(self).wf(),
        ensures
            final(self).wf(),
            final(self).n_classes() == old(self).n_classes(),
            final(self).nodes@ == old(self).nodes@,
            final(self).owner@ == old(self).owner@,
            final(self).node_blacklist@ == old(self).node_blacklist@,
            final(self).analysis@ == old(self).analysis@,
            final(self).symbols@ == old(self).symbols@,
            r is Err ==> r->Err_0 == EggError::AnalysisConflict,
            forall|i: int, j: int|
                0 <= i < old(self).n_classes() && 0 <= j < old(self).n_classes() && root_of(
                    old(self).uf@,
                    i,
                ) == root_of(old(self).uf@, j) ==> root_of(final(self).uf@, i) == root_of(
                    final(self).uf@,
                    j,
                ),
            r is Ok ==> forall|k: int|
                0 <= k < old(self).n_classes() ==> (#[trigger] final(self).analysis@[root_of(
                    final(self).uf@,
                    k,
                )]).agrees_with(old(self).analysis@[root_of(old(self).uf@, k)]),
            r matches Ok(u) ==> num_roots_upto(final(self).uf@, final(self).n_classes())
                == num_roots_upto(old(self).uf@, old(self).n_classes()) - u,
            r matches Ok(u) && u == 0 ==> final(self).uf@ == old(self).uf@ && forall|k1: int, k2: int|
                0 <= k1 < k2 < final(self).nodes@.len() && congruent(
                    final(self).uf@,
                    #[trigger] final(self).nodes@[k1],
                    #[trigger] final(self).nodes@[k2],
                ) ==> root_of(final(self).uf@, final(self).owner@[k1] as int) == root_of(
                    final(self).uf@,
                    final(self).owner@[k2] as int,
                ),
    {
        let n = self.nodes.len();
        let ncls = self.uf.len();
        proof {
            lemma_num_roots_nonneg(self.uf@, self.n_classes());
            lemma_num_roots_le_len(self.uf@, self.n_classes());
        }
        let mut unions: usize = 0;
        let mut k1: usize = 0;
        while k1 < n
            invariant
                self.wf(),
                n == self.nodes@.len(),
                self.n_classes() == old(self).n_classes(),
                self.nodes@ == old(self).nodes@,
                self.owner@ == old(self).owner@,
                self.node_blacklist@ == old(self).node_blacklist@,
                self.analysis@ == old(self).analysis@,
                self.symbols@ == old(self).symbols@,
                k1 <= n,
                unions <= num_roots_upto(old(self).uf@, old(self).n_classes()),
                ncls as int == old(self).n_classes(),
                num_roots_upto(old(self).uf@, old(self).n_classes()) <= ncls as int,
                forall|i: int, j: int|
                    0 <= i < old(self).n_classes() && 0 <= j < old(self).n_classes() && root_of(
                        old(self).uf@,
                        i,
                    ) == root_of(old(self).uf@, j) ==> root_of(self.uf@, i) == root_of(self.uf@, j),
                forall|k: int|
                    0 <= k < old(self).n_classes() ==> (#[trigger] self.analysis@[root_of(
                        self.uf@,
                        k,
                    )]).agrees_with(old(self).analysis@[root_of(old(self).uf@, k)]),
                num_roots_upto(self.uf@, self.n_classes()) == num_roots_upto(
                    old(self).uf@,
                    old(self).n_classes(),
                ) - unions,
                unions == 0 ==> self.uf@ == old(self).uf@,
                unions == 0 ==> forall|i: int, j: int|
                    0 <= i < j < n && i < k1 && congruent(
                        self.uf@,
                        #[trigger] self.nodes@[i],
                        #[trigger] self.nodes@[j],
                    ) ==> root_of(self.uf@, self.owner@[i] as int) == root_of(
                        self.uf@,
                        self.owner@[j] as int,
                    ),
            decreases n - k1,
        {
            let mut k2: usize = k1 + 1;
            while k2 < n
                invariant
                    self.wf(),
                    n == self.nodes@.len(),
                    self.n_classes() == old(self).n_classes(),
                    self.nodes@ == old(self).nodes@,
                    self.owner@ == old(self).owner@,
                    self.node_blacklist@ == old(self).node_blacklist@,
                    self.analysis@ == old(self).analysis@,
                    self.symbols@ == old(self).symbols@,
                    k1 < n,
                    k1 < k2 <= n,
                    unions <= num_roots_upto(old(self).uf@, old(self).n_classes()),
                    ncls as int == old(self).n_classes(),
                    num_roots_upto(old(self).uf@, old(self).n_classes()) <= ncls as int,
                ncls as int == old(self).n_classes(),
                num_roots_upto(old(self).uf@, old(self).n_classes()) <= ncls as int,
                    forall|i: int, j: int|
                        0 <= i < old(self).n_classes() && 0 <= j < old(self).n_classes() && root_of(
                            old(self).uf@,
                            i,
                        ) == root_of(old(self).uf@, j) ==> root_of(self.uf@, i) == root_of(
                            self.uf@,
                            j,
                        ),
                    forall|k: int|
                        0 <= k < old(self).n_classes() ==> (#[trigger] self.analysis@[root_of(
                            self.uf@,
                            k,
                        )]).agrees_with(old(self).analysis@[root_of(old(self).uf@, k)]),
                    num_roots_upto(self.uf@, self.n_classes()) == num_roots_upto(
                        old(self).uf@,
                        old(self).n_classes(),
                    ) - unions,
                    unions == 0 ==> self.uf@ == old(self).uf@,
                    unions == 0 ==> forall|i: int, j: int|
                        0 <= i < j < n && i < k1 && congruent(
                            self.uf@,
                            #[trigger] self.nodes@[i],
                            #[trigger] self.nodes@[j],
                        ) ==> root_of(self.uf@, self.owner@[i] as int) == root_of(
                            self.uf@,
                            self.owner@[j] as int,
                        ),
                    unions == 0 ==> forall|j: int|
                        (k1 as int) < j < k2 && congruent(
                            self.uf@,
                            self.nodes@[k1 as int],
                            #[trigger] self.nodes@[j],
                        ) ==> root_of(self.uf@, self.owner@[k1 as int] as int) == root_of(
                            self.uf@,
                            self.owner@[j] as int,
                        ),
                decreases n - k2,
            {
                let congr = {
                    let na = &self.nodes[k1];
                    let nb = &self.nodes[k2];
                    self.congruent_nodes(na, nb)
                };
                if congr {
                    let oa = self.owner[k1];
                    let ob = self.owner[k2];
                    if self.find(oa) != self.find(ob) {
                        let ghost pre = *self;
                        match self.union(oa, ob) {
                            Ok(_) => {
                                proof {
                                    lemma_num_roots_nonneg(self.uf@, self.n_classes());
                                    assert(unions + 1 <= num_roots_upto(
                                        old(self).uf@,
                                        old(self).n_classes(),
                                    ));
                                    assert forall|k: int|
                                        0 <= k < old(self).n_classes() implies (
                                    #[trigger] self.analysis@[root_of(self.uf@, k)]).agrees_with(
                                        old(self).analysis@[root_of(old(self).uf@, k)],
                                    ) by {
                                        model::lemma_agrees_transitive(
                                            self.analysis@[root_of(self.uf@, k)],
                                            pre.analysis@[root_of(pre.uf@, k)],
                                            old(self).analysis@[root_of(old(self).uf@, k)],
                                        );
                                    }
                                }
                                unions += 1;
                            },
                            Err(e) => {
                                return Err(e);
                            },
                        }
                    }
                }
                k2 += 1;
            }
            k1 += 1;
        }
        Ok(unions)
    }
}

/// Node `k` of the source store has a structurally equal copy in the
/// destination store, in the same class, with a blacklist flag at least as
/// strong.
pub open spec fn node_survives(
    src: Seq<Mdl>,
    src_owner: Seq<usize>,
    src_bl: Seq<bool>,
    k: int,
    dst: Seq<Mdl>,
    dst_owner: Seq<usize>,
    dst_bl: Seq<bool>,
) -> bool {
    exists|j: int|
        0 <= j < dst.len() && src[k].is_same(#[trigger] dst[j]) && dst_owner[j] == src_owner[k]
            && (src_bl[k] ==> dst_bl[j])
}

/// Node `j` of the destination store is a copy of some source node, in the
/// same class.
pub open spec fn node_derived(
    dst: Seq<Mdl>,
    dst_owner: Seq<usize>,
    j: int,
    src: Seq<Mdl>,
    src_owner: Seq<usize>,
) -> bool {
    exists|k: int|
        0 <= k < src.len() && dst[j].is_same(#[trigger] src[k]) && dst_owner[j] == src_owner[k]
}

/// Survival is kept when the destination store grows at the end and its
/// blacklist flags only turn on.
pub proof fn lemma_survives_extend(
    src: Seq<Mdl>,
    src_owner: Seq<usize>,
    src_bl: Seq<bool>,
    k: int,
    dst1: Seq<Mdl>,
    dst_owner1: Seq<usize>,
    dst_bl1: Seq<bool>,
    dst2: Seq<Mdl>,
    dst_owner2: Seq<usize>,
    dst_bl2: Seq<bool>,
)
    requires
        node_survives(src, src_owner, src_bl, k, dst1, dst_owner1, dst_bl1),
        dst1.len() <= dst2.len(),
        dst_owner1.len() == dst1.len(),
        dst_bl1.len() == dst1.len(),
        dst_owner2.len() == dst2.len(),
        dst_bl2.len() == dst2.len(),
        forall|j: int| 0 <= j < dst1.len() ==> #[trigger] dst2[j] == dst1[j],
        forall|j: int| 0 <= j < dst1.len() ==> #[trigger] dst_owner2[j] == dst_owner1[j],
        forall|j: int| 0 <= j < dst1.len() ==> (#[trigger] dst_bl1[j] ==> dst_bl2[j]),
    ensures
        node_survives(src, src_owner, src_bl, k, dst2, dst_owner2, dst_bl2),
{
    let j = choose|j: int|
        0 <= j < dst1.len() && src[k].is_same(#[trigger] dst1[j]) && dst_owner1[j] == src_owner[k]
            && (src_bl[k] ==> dst_bl1[j]);
    assert(0 <= j < dst2.len() && src[k].is_same(dst2[j]) && dst_owner2[j] == src_owner[k] && (
    src_bl[k] ==> dst_bl2[j]));
}

impl EGraph {
    /// Removes structurally duplicate stored nodes, keeping the first copy
    /// and joining the blacklist flags of the copies it absorbs.
    #[verifier::rlimit(100)]
    #[verifier::loop_isolation(false)]
    fn dedup_nodes(&mut self)
        requires
            old(self).wf(),
            forall|k: int|
                0 <= k < old(self).nodes@.len() ==> node_canonical(
                    old(self).uf@,
                    #[trigger] old(self).nodes@[k],
                ),
            forall|k: int|
                0 <= k < old(self).owner@.len() ==> is_root(
                    old(self).uf@,
                    #[trigger] old(self).owner@[k] as int,
                ),
            forall|k1: int, k2: int|
                0 <= k1 < k2 < old(self).nodes@.len() && (#[trigger] old(self).nodes@[k1]).is_same(
                    #[trigger] old(self).nodes@[k2],
                ) ==> old(self).owner@[k1] == old(self).owner@[k2],
        ensures
            final(self).clean(),
            final(self).uf@ == old(self).uf@,
            final(self).analysis@ == old(self).analysis@,
            final(self).symbols@ == old(self).symbols@,
            // every stored node survives, with its class and its blacklist flag
            forall|k: int|
                0 <= k < old(self).nodes@.len() ==> #[trigger] node_survives(
                    old(self).nodes@,
                    old(self).owner@,
                    old(self).node_blacklist@,
                    k,
                    final(self).nodes@,
                    final(self).owner@,
                    final(self).node_blacklist@,
                ),
            // and nothing new appears
            forall|j: int|
                0 <= j < final(self).nodes@.len() ==> #[trigger] node_derived(
                    final(self).nodes@,
                    final(self).owner@,
                    j,
                    old(self).nodes@,
                    old(self).owner@,
                ),
    {
        let n = self.nodes.len();
        let mut new_nodes: Vec<Mdl> = Vec::new();
        let mut new_owner: Vec<usize> = Vec::new();
        let mut new_bl: Vec<bool> = Vec::new();
        let mut k: usize = 0;
        while k < n
            invariant
                *self == *old(self),
                n == self.nodes@.len(),
                k <= n,
                new_owner@.len() == new_nodes@.len(),
                new_bl@.len() == new_nodes@.len(),
                forall|j: int|
                    0 <= j < new_nodes@.len() ==> node_canonical(
                        self.uf@,
                        #[trigger] new_nodes@[j],
                    ) && node_in_range(new_nodes@[j], self.n_classes()),
                forall|j: int|
                    0 <= j < new_owner@.len() ==> is_root(self.uf@, #[trigger] new_owner@[j] as int),
                forall|j1: int, j2: int|
                    0 <= j1 < j2 < new_nodes@.len() ==> !(#[trigger] new_nodes@[j1]).is_same(
                        #[trigger] new_nodes@[j2],
                    ),
                forall|j: int|
                    0 <= j < new_nodes@.len() ==> #[trigger] node_derived(
                        new_nodes@,
                        new_owner@,
                        j,
                        self.nodes@,
                        self.owner@,
                    ),
                forall|k2: int|
                    0 <= k2 < k ==> #[trigger] node_survives(
                        self.nodes@,
                        self.owner@,
                        self.node_blacklist@,
                        k2,
                        new_nodes@,
                        new_owner@,
                        new_bl@,
                    ),
            decreases n - k,
        {
            let ghost nn0 = new_nodes@;
            let ghost no0 = new_owner@;
            let ghost nb0 = new_bl@;
            let mut found: Option<usize> = None;
            let mut j: usize = 0;
            while j < new_nodes.len()
                invariant
                    j <= new_nodes@.len(),
                    found is None ==> forall|i: int|
                        0 <= i < j ==> !(#[trigger] new_nodes@[i]).is_same(self.nodes@[k as int]),
                    found matches Some(f) ==> f < new_nodes@.len() && new_nodes@[
                        f as int
                    ].is_same(self.nodes@[k as int]),
                decreases new_nodes@.len() - j,
            {
                if model::mdl_eq(&new_nodes[j], &self.nodes[k]) {
                    found = Some(j);
                    break ;
                }
                j += 1;
            }
            match found {
                Some(f) => {
                    proof {
                        // the surviving copy owns the same class as this duplicate
                        assert(node_derived(nn0, no0, f as int, self.nodes@, self.owner@));
                        let k2 = choose|k2: int|
                            0 <= k2 < self.nodes@.len() && nn0[f as int].is_same(
                                #[trigger] self.nodes@[k2],
                            ) && no0[f as int] == self.owner@[k2];
                        assert(new_nodes@[f as int].children@ =~= self.nodes@[k2].children@);
                        assert(new_nodes@[f as int].children@ =~= self.nodes@[k as int].children@);
                        assert(self.nodes@[k2].children@ =~= self.nodes@[k as int].children@);
                        assert(old(self).nodes@[k2].is_same(old(self).nodes@[k as int]));
                        assert(old(self).nodes@[k as int].is_same(old(self).nodes@[k2]));
                        if k2 < k as int {
                            assert(old(self).owner@[k2] == old(self).owner@[k as int]);
                        } else if k2 > k as int {
                            assert(old(self).owner@[k as int] == old(self).owner@[k2]);
                        }
                        assert(new_owner@[f as int] == self.owner@[k as int]);
                    }
                    if self.node_blacklist[k] {
                        new_bl[f] = true;
                    }
                },
                None => {
                    new_nodes.push(self.nodes[k].clone_node());
                    new_owner.push(self.owner[k]);
                    new_bl.push(self.node_blacklist[k]);
                },
            }
            proof {
                let witj: int = match found {
                    Some(f) => f as int,
                    None => nn0.len() as int,
                };
                if found is None {
                    assert(new_nodes@[witj].children@ =~= self.nodes@[k as int].children@);
                }
                assert(self.nodes@[k as int].is_same(new_nodes@[witj]));
                assert(new_owner@[witj] == self.owner@[k as int]);
                assert(self.node_blacklist@[k as int] ==> new_bl@[witj]);
                assert(node_survives(
                    self.nodes@,
                    self.owner@,
                    self.node_blacklist@,
                    k as int,
                    new_nodes@,
                    new_owner@,
                    new_bl@,
                ));
                assert forall|k2: int| 0 <= k2 < k as int implies #[trigger] node_survives(
                    self.nodes@,
                    self.owner@,
                    self.node_blacklist@,
                    k2,
                    new_nodes@,
                    new_owner@,
                    new_bl@,
                ) by {
                    assert(node_survives(
                        self.nodes@,
                        self.owner@,
                        self.node_blacklist@,
                        k2,
                        nn0,
                        no0,
                        nb0,
                    ));
                    lemma_survives_extend(
                        self.nodes@,
                        self.owner@,
                        self.node_blacklist@,
                        k2,
                        nn0,
                        no0,
                        nb0,
                        new_nodes@,
                        new_owner@,
                        new_bl@,
                    );
                }
                assert forall|j2: int| 0 <= j2 < new_nodes@.len() implies #[trigger] node_derived(
                    new_nodes@,
                    new_owner@,
                    j2,
                    self.nodes@,
                    self.owner@,
                ) by {
                    if j2 < nn0.len() {
                        assert(node_derived(nn0, no0, j2, self.nodes@, self.owner@));
                        let k2 = choose|k2: int|
                            0 <= k2 < self.nodes@.len() && nn0[j2].is_same(
                                #[trigger] self.nodes@[k2],
                            ) && no0[j2] == self.owner@[k2];
                        assert(new_nodes@[j2] == nn0[j2]);
                        assert(new_nodes@[j2].is_same(self.nodes@[k2]));
                    } else {
                        assert(new_nodes@[j2].is_same(self.nodes@[k as int]));
                    }
                }
            }
            k += 1;
        }
        let ghost nn = new_nodes@;
        let ghost no = new_owner@;
        let ghost nb = new_bl@;
        self.nodes = new_nodes;
        self.owner = new_owner;
        self.node_blacklist = new_bl;
        proof {
            assert forall|k2: int| 0 <= k2 < old(self).nodes@.len() implies #[trigger] node_survives(
                old(self).nodes@,
                old(self).owner@,
                old(self).node_blacklist@,
                k2,
                self.nodes@,
                self.owner@,
                self.node_blacklist@,
            ) by {
                assert(node_survives(
                    old(self).nodes@,
                    old(self).owner@,
                    old(self).node_blacklist@,
                    k2,
                    nn,
                    no,
                    nb,
                ));
            }
            assert forall|j2: int| 0 <= j2 < self.nodes@.len() implies #[trigger] node_derived(
                self.nodes@,
                self.owner@,
                j2,
                old(self).nodes@,
                old(self).owner@,
            ) by {
                assert(node_derived(nn, no, j2, old(self).nodes@, old(self).owner@));
            }
        }
    }

    /// Restores the e-graph invariants after deferred merges: compresses the
    /// union-find, re-canonicalizes every stored node, closes the graph under
    /// congruence, and removes duplicate nodes. Afterwards the graph is
    /// `clean`: children of stored nodes are representatives, and no two
    /// distinct stored nodes are structurally equal.
    pub fn rebuild(&mut self) -> (r: Result<(), EggError>)
        requires
            old(self).wf(),
        ensures
            final(self).wf(),
            final(self).n_classes() == old(self).n_classes(),
            final(self).analysis@ == old(self).analysis@,
            final(self).symbols@ == old(self).symbols@,
            r is Err ==> r->Err_0 == EggError::AnalysisConflict,
            r is Ok ==> final(self).clean(),
            // rewrite soundness: no class's observable type changes
            r is Ok ==> forall|k: int|
                0 <= k < old(self).n_classes() ==> (#[trigger] final(self).analysis@[root_of(
                    final(self).uf@,
                    k,
                )]).agrees_with(old(self).analysis@[root_of(old(self).uf@, k)]),
            // merges only coarsen the equivalence: classes equal before stay equal
            forall|i: int, j: int|
                0 <= i < old(self).n_classes() && 0 <= j < old(self).n_classes() && root_of(
                    old(self).uf@,
                    i,
                ) == root_of(old(self).uf@, j) ==> root_of(final(self).uf@, i) == root_of(
                    final(self).uf@,
                    j,
                ),
    {
        loop
            invariant
                self.wf(),
                self.n_classes() == old(self).n_classes(),
                self.analysis@ == old(self).analysis@,
                self.symbols@ == old(self).symbols@,
                forall|i: int, j: int|
                    0 <= i < old(self).n_classes() && 0 <= j < old(self).n_classes() && root_of(
                        old(self).uf@,
                        i,
                    ) == root_of(old(self).uf@, j) ==> root_of(self.uf@, i) == root_of(
                        self.uf@,
                        j,
                    ),
                forall|k: int|
                    0 <= k < old(self).n_classes() ==> (#[trigger] self.analysis@[root_of(
                        self.uf@,
                        k,
                    )]).agrees_with(old(self).analysis@[root_of(old(self).uf@, k)]),
            decreases num_roots_upto(self.uf@, self.n_classes()) + 1,
        {
            let ghost roots0 = num_roots_upto(self.uf@, self.n_classes());
            let ghost at_top = *self;
            proof {
                lemma_num_roots_nonneg(self.uf@, self.n_classes());
            }
            self.compress_all();
            self.canonicalize_all();
            let ghost at_pass = *self;
            match self.congruence_pass() {
                Err(e) => {
                    return Err(e);
                },
                Ok(u) => {
                    proof {
                        assert forall|k: int| 0 <= k < old(self).n_classes() implies (
                        #[trigger] self.analysis@[root_of(self.uf@, k)]).agrees_with(
                            old(self).analysis@[root_of(old(self).uf@, k)],
                        ) by {
                            assert(root_of(at_pass.uf@, k) == root_of(at_top.uf@, k));
                            model::lemma_agrees_transitive(
                                self.analysis@[root_of(self.uf@, k)],
                                at_pass.analysis@[root_of(at_pass.uf@, k)],
                                old(self).analysis@[root_of(old(self).uf@, k)],
                            );
                        }
                    }
                    if u == 0 {
                        proof {
                            assert forall|k1: int, k2: int|
                                0 <= k1 < k2 < self.nodes@.len() && (#[trigger] self.nodes@[k1]).is_same(
                                    #[trigger] self.nodes@[k2],
                                ) implies self.owner@[k1] == self.owner@[k2] by {
                                assert(congruent(self.uf@, self.nodes@[k1], self.nodes@[k2]));
                                assert(is_root(self.uf@, self.owner@[k1] as int));
                                assert(is_root(self.uf@, self.owner@[k2] as int));
                                assert(root_of(self.uf@, self.owner@[k1] as int)
                                    == self.owner@[k1] as int);
                                assert(root_of(self.uf@, self.owner@[k2] as int)
                                    == self.owner@[k2] as int);
                            }
                        }
                        self.dedup_nodes();
                        return Ok(());
                    }
                    proof {
                        lemma_num_roots_nonneg(self.uf@, self.n_classes());
                        assert(num_roots_upto(self.uf@, self.n_classes()) < roots0);
                    }
                },
            }
        }
    }
}

/// The smaller of the two representatives involved in a merge.
pub open spec fn min_root_spec(uf: Seq<usize>, a: int, b: int) -> int {
    let ra = root_of(uf, a);
    let rb = root_of(uf, b);
    if ra < rb {
        ra
    } else {
        rb
    }
}

/// The larger of the two representatives involved in a merge.
pub open spec fn max_root_spec(uf: Seq<usize>, a: int, b: int) -> int {
    let ra = root_of(uf, a);
    let rb = root_of(uf, b);
    if ra < rb {
        rb
    } else {
        ra
    }
}

/// Union commutativity of effect: merging the same pair in either order
/// yields the same union-find state, so `union(a, b)` and `union(b, a)`
/// induce the same equivalence relation.
pub proof fn lemma_union_commutes(uf: Seq<usize>, a: int, b: int)
    requires
        uf_wf(uf),
        0 <= a < uf.len(),
        0 <= b < uf.len(),
    ensures
        min_root_spec(uf, a, b) == min_root_spec(uf, b, a),
        max_root_spec(uf, a, b) == max_root_spec(uf, b, a),
        uf.update(max_root_spec(uf, a, b), min_root_spec(uf, a, b) as usize) == uf.update(
            max_root_spec(uf, b, a),
            min_root_spec(uf, b, a) as usize,
        ),
{
}

/// Hashcons uniqueness: in a graph whose invariants hold, as they do after
/// `add` and after every `rebuild`, two stored e-nodes that are congruent
/// under the current union-find belong to the same class.
pub proof fn lemma_hashcons_unique(g: EGraph, k1: int, k2: int)
    requires
        g.clean(),
        0 <= k1 < g.nodes@.len(),
        0 <= k2 < g.nodes@.len(),
        congruent(g.uf@, g.nodes@[k1], g.nodes@[k2]),
    ensures
        root_of(g.uf@, g.owner@[k1] as int) == root_of(g.uf@, g.owner@[k2] as int),
{
    if k1 != k2 {
        assert(g.nodes@[k1].is_same(g.nodes@[k2])) by {
            assert forall|j: int|
                0 <= j < g.nodes@[k1].children@.len() implies g.nodes@[k1].children@[j]
                == g.nodes@[k2].children@[j] by {
                let c1 = g.nodes@[k1].children@[j] as int;
                let c2 = g.nodes@[k2].children@[j] as int;
                assert(is_root(g.uf@, c1));
                assert(is_root(g.uf@, c2));
                assert(root_of(g.uf@, c1) == c1);
                assert(root_of(g.uf@, c2) == c2);
            }
            assert(g.nodes@[k1].children@ =~= g.nodes@[k2].children@);
        }
        if k1 < k2 {
            assert(false);
        } else {
            assert(g.nodes@[k2].is_same(g.nodes@[k1])) by {
                assert(g.nodes@[k2].children@ =~= g.nodes@[k1].children@);
            }
            assert(false);
        }
    }
}

/// Canonicality after rebuild: in a graph whose invariants hold, every
/// stored e-node's children are representatives.
pub proof fn lemma_children_are_roots(g: EGraph, k: int, j: int)
    requires
        g.clean(),
        0 <= k < g.nodes@.len(),
        0 <= j < g.nodes@[k].children@.len(),
    ensures
        is_root(g.uf@, g.nodes@[k].children@[j] as int),
        root_of(g.uf@, g.nodes@[k].children@[j] as int) == g.nodes@[k].children@[j] as int,
{
    assert(node_canonical(g.uf@, g.nodes@[k]));
}

/// Applying `find` twice is the same as applying it once.
pub proof fn lemma_find_idempotent(uf: Seq<usize>, i: int)
    requires
        uf_wf(uf),
        0 <= i < uf.len(),
    ensures
        root_of(uf, root_of(uf, i)) == root_of(uf, i),
{
    lemma_root_of_root(uf, i);
}

} // verus!
