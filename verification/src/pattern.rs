//! The pattern language and matcher: rule sides are trees of operator
//! variants over pattern variables, stored flat so that every child index is
//! smaller than its parent's.
use vstd::prelude::*;

use crate::egraph::{is_root, root_of, EGraph};
use crate::model::{EggError, Mdl, OpKind};

verus! {

/// One node of a pattern: a variable leaf, or an operator whose children are
/// indices of earlier pattern nodes.
pub enum PatNode {
    Var(usize),
    Op(OpKind, i32, Vec<usize>),
}

/// A rule side: pattern nodes in bottom-up order; the last node is the root.
pub struct Pattern {
    pub nodes: Vec<PatNode>,
    pub n_vars: usize,
}

impl Pattern {
    /// Children point strictly backwards and variables are in range, so a
    /// walk from any node terminates.
    pub open spec fn wf(self) -> bool {
        &&& self.nodes@.len() > 0
        &&& forall|t: int|
            0 <= t < self.nodes@.len() ==> match #[trigger] self.nodes@[t] {
                PatNode::Var(v) => v < self.n_vars,
                PatNode::Op(_, _, ch) => forall|j: int|
                    0 <= j < ch@.len() ==> #[trigger] ch@[j] < t,
            }
    }

    pub open spec fn root(self) -> int {
        self.nodes@.len() - 1
    }
}

/// A substitution: the class id bound to each pattern variable, if bound.
/// All bound classes are representatives.
pub open spec fn subst_wf(s: Seq<Option<usize>>, g: EGraph) -> bool {
    forall|v: int|
        0 <= v < s.len() ==> match #[trigger] s[v] {
            Some(c) => is_root(g.uf@, c as int),
            None => true,
        }
}

/// `s2` binds everything `s1` binds, to the same classes.
pub open spec fn subst_extends(s2: Seq<Option<usize>>, s1: Seq<Option<usize>>) -> bool {
    s2.len() == s1.len() && forall|v: int|
        0 <= v < s1.len() && s1[v] is Some ==> #[trigger] s2[v] == s1[v]
}

/// The substitution matches pattern node `t` against the class of `id`: a
/// variable is bound to the class's representative, and an operator pattern
/// is witnessed by a stored e-node of that class with the right tag and
/// payload whose children match the pattern's children.
pub open spec fn pat_matches(
    g: EGraph,
    pat: Pattern,
    t: int,
    id: int,
    s: Seq<Option<usize>>,
) -> bool
    decreases t,
        when pat.wf() && 0 <= t < pat.nodes@.len()
{
    match pat.nodes@[t] {
        PatNode::Var(v) => 0 <= v < s.len() && (s[v as int] matches Some(c) && c as int == root_of(
            g.uf@,
            id,
        )),
        PatNode::Op(op, literal, ch) => exists|k: int|
            #![trigger g.nodes@[k]]
            0 <= k < g.nodes@.len() && root_of(g.uf@, g.owner@[k] as int) == root_of(g.uf@, id)
                && g.nodes@[k].op == op && g.nodes@[k].literal == literal
                && g.nodes@[k].children@.len() == ch@.len() && forall|j: int|
                0 <= j < ch@.len() ==> pat_matches(
                    g,
                    pat,
                    #[trigger] ch@[j] as int,
                    g.nodes@[k].children@[j] as int,
                    s,
                ),
    }
}

/// A match under a substitution still holds under any extension of it.
pub proof fn lemma_pat_matches_extend(
    g: EGraph,
    pat: Pattern,
    t: int,
    id: int,
    s1: Seq<Option<usize>>,
    s2: Seq<Option<usize>>,
)
    requires
        pat.wf(),
        0 <= t < pat.nodes@.len(),
        pat_matches(g, pat, t, id, s1),
        subst_extends(s2, s1),
    ensures
        pat_matches(g, pat, t, id, s2),
    decreases t,
{
    match pat.nodes@[t] {
        PatNode::Var(v) => {
            assert(s1[v as int] is Some);
            assert(s2[v as int] == s1[v as int]);
        },
        PatNode::Op(op, literal, ch) => {
            let k = choose|k: int|
                #![trigger g.nodes@[k]]
                0 <= k < g.nodes@.len() && root_of(g.uf@, g.owner@[k] as int) == root_of(g.uf@, id)
                    && g.nodes@[k].op == op && g.nodes@[k].literal == literal
                    && g.nodes@[k].children@.len() == ch@.len() && forall|j: int|
                    0 <= j < ch@.len() ==> pat_matches(
                        g,
                        pat,
                        #[trigger] ch@[j] as int,
                        g.nodes@[k].children@[j] as int,
                        s1,
                    );
            assert forall|j: int| 0 <= j < ch@.len() implies pat_matches(
                g,
                pat,
                #[trigger] ch@[j] as int,
                g.nodes@[k].children@[j] as int,
                s2,
            ) by {
                assert(ch@[j] < t);
                lemma_pat_matches_extend(
                    g,
                    pat,
                    ch@[j] as int,
                    g.nodes@[k].children@[j] as int,
                    s1,
                    s2,
                );
            }
            assert(0 <= k < g.nodes@.len() && root_of(g.uf@, g.owner@[k] as int) == root_of(
                g.uf@,
                id,
            ) && g.nodes@[k].op == op && g.nodes@[k].literal == literal
                && g.nodes@[k].children@.len() == ch@.len() && forall|j: int|
                0 <= j < ch@.len() ==> pat_matches(
                    g,
                    pat,
                    #[trigger] ch@[j] as int,
                    g.nodes@[k].children@[j] as int,
                    s2,
                ));
        },
    }
}

pub fn clone_subst(s: &Vec<Option<usize>>) -> (r: Vec<Option<usize>>)
    ensures
        r@ == s@,
{
    let mut r: Vec<Option<usize>> = Vec::new();
    let mut i: usize = 0;
    while i < s.len()
        invariant
            i <= s@.len(),
            r@ =~= s@.take(i as int),
        decreases s@.len() - i,
    {
        r.push(s[i]);
        i += 1;
    }
    proof {
        assert(r@ =~= s@);
    }
    r
}

/// Matching only looks at the class's representative: classes with equal
/// representatives match the same patterns.
pub proof fn lemma_pat_matches_same_root(
    g: EGraph,
    pat: Pattern,
    t: int,
    id1: int,
    id2: int,
    s: Seq<Option<usize>>,
)
    requires
        pat.wf(),
        0 <= t < pat.nodes@.len(),
        pat_matches(g, pat, t, id1, s),
        root_of(g.uf@, id2) == root_of(g.uf@, id1),
    ensures
        pat_matches(g, pat, t, id2, s),
{
}

/// A match is stable when the graph grows: new classes and nodes do not
/// disturb it as long as the old nodes and representatives stay.
pub proof fn lemma_pat_matches_stable(
    g1: EGraph,
    g2: EGraph,
    pat: Pattern,
    t: int,
    id: int,
    s: Seq<Option<usize>>,
)
    requires
        pat.wf(),
        0 <= t < pat.nodes@.len(),
        g1.wf(),
        pat_matches(g1, pat, t, id, s),
        0 <= id < g1.n_classes(),
        g1.n_classes() <= g2.n_classes(),
        g2.nodes@.len() >= g1.nodes@.len(),
        forall|k: int|
            0 <= k < g1.nodes@.len() ==> g2.nodes@[k] == g1.nodes@[k] && g2.owner@[k]
                == g1.owner@[k],
        forall|k: int|
            0 <= k < g1.n_classes() ==> root_of(g2.uf@, k) == root_of(g1.uf@, k),
    ensures
        pat_matches(g2, pat, t, id, s),
    decreases t,
{
    match pat.nodes@[t] {
        PatNode::Var(v) => {
        },
        PatNode::Op(op, literal, ch) => {
            let k = choose|k: int|
                #![trigger g1.nodes@[k]]
                0 <= k < g1.nodes@.len() && root_of(g1.uf@, g1.owner@[k] as int) == root_of(
                    g1.uf@,
                    id,
                ) && g1.nodes@[k].op == op && g1.nodes@[k].literal == literal
                    && g1.nodes@[k].children@.len() == ch@.len() && forall|j: int|
                    0 <= j < ch@.len() ==> pat_matches(
                        g1,
                        pat,
                        #[trigger] ch@[j] as int,
                        g1.nodes@[k].children@[j] as int,
                        s,
                    );
            assert(g1.owner@[k] < g1.n_classes());
            assert forall|j: int| 0 <= j < ch@.len() implies pat_matches(
                g2,
                pat,
                #[trigger] ch@[j] as int,
                g2.nodes@[k].children@[j] as int,
                s,
            ) by {
                assert(crate::egraph::node_in_range(g1.nodes@[k], g1.n_classes()));
                assert(g1.nodes@[k].children@[j] < g1.n_classes());
                lemma_pat_matches_stable(
                    g1,
                    g2,
                    pat,
                    ch@[j] as int,
                    g1.nodes@[k].children@[j] as int,
                    s,
                );
            }
            assert(0 <= k < g2.nodes@.len() && root_of(g2.uf@, g2.owner@[k] as int) == root_of(
                g2.uf@,
                id,
            ) && g2.nodes@[k].op == op && g2.nodes@[k].literal == literal
                && g2.nodes@[k].children@.len() == ch@.len() && forall|j: int|
                0 <= j < ch@.len() ==> pat_matches(
                    g2,
                    pat,
                    #[trigger] ch@[j] as int,
                    g2.nodes@[k].children@[j] as int,
                    s,
                ));
        },
    }
}

impl EGraph {
    /// All ways to match pattern node `t` against the class of `id`,
    /// extending `subst`. Every result is a well-formed extension of the
    /// given substitution with the pattern's variables bound to
    /// representatives.
    pub fn match_pat(
        &self,
        pat: &Pattern,
        t: usize,
        id: usize,
        subst: &Vec<Option<usize>>,
    ) -> (r: Vec<Vec<Option<usize>>>)
        requires
            self.wf(),
            pat.wf(),
            t < pat.nodes@.len(),
            id < self.n_classes(),
            subst@.len() == pat.n_vars,
            subst_wf(subst@, *self),
        ensures
            forall|i: int|
                0 <= i < r@.len() ==> (#[trigger] r@[i])@.len() == pat.n_vars && subst_wf(
                    r@[i]@,
                    *self,
                ) && subst_extends(r@[i]@, subst@),
            // soundness: every returned substitution really matches
            forall|i: int|
                0 <= i < r@.len() ==> pat_matches(*self, *pat, t as int, id as int, (#[trigger] r@[i])@),
        decreases t,
    {
        let root = self.find(id);
        match &pat.nodes[t] {
            PatNode::Var(v) => {
                let mut out: Vec<Vec<Option<usize>>> = Vec::new();
                match subst[*v] {
                    Some(c) => {
                        if self.find(c) == root {
                            proof {
                                assert(is_root(self.uf@, c as int));
                                assert(root_of(self.uf@, c as int) == c as int);
                                assert(pat_matches(*self, *pat, t as int, id as int, subst@));
                            }
                            out.push(clone_subst(subst));
                        }
                    },
                    None => {
                        let mut s2 = clone_subst(subst);
                        s2[*v] = Some(root);
                        proof {
                            crate::egraph::lemma_root_of_root(self.uf@, id as int);
                            assert(pat_matches(*self, *pat, t as int, id as int, s2@));
                        }
                        out.push(s2);
                    },
                }
                out
            },
            PatNode::Op(op, literal, pchildren) => {
                let mut out: Vec<Vec<Option<usize>>> = Vec::new();
                let mut k: usize = 0;
                while k < self.nodes.len()
                    invariant
                        self.wf(),
                        pat.wf(),
                        t < pat.nodes@.len(),
                        pat.nodes@[t as int] matches PatNode::Op(o2, l2, c2) && o2 == *op && l2
                            == *literal && c2@ == pchildren@,
                        forall|j: int| 0 <= j < pchildren@.len() ==> #[trigger] pchildren@[j] < t,
                        id < self.n_classes(),
                        root as int == root_of(self.uf@, id as int),
                        subst@.len() == pat.n_vars,
                        subst_wf(subst@, *self),
                        k <= self.nodes@.len(),
                        forall|i: int|
                            0 <= i < out@.len() ==> (#[trigger] out@[i])@.len() == pat.n_vars
                                && subst_wf(out@[i]@, *self) && subst_extends(out@[i]@, subst@)
                                && pat_matches(*self, *pat, t as int, id as int, out@[i]@),
                    decreases self.nodes@.len() - k,
                {
                    let node_matches = {
                        let node = &self.nodes[k];
                        node.op == *op && node.literal == *literal && node.children.len()
                            == pchildren.len()
                    };
                    if node_matches && self.find(self.owner[k]) == root {
                        let mut partial: Vec<Vec<Option<usize>>> = Vec::new();
                        partial.push(clone_subst(subst));
                        let mut j: usize = 0;
                        while j < pchildren.len()
                            invariant
                                self.wf(),
                                pat.wf(),
                                t < pat.nodes@.len(),
                                k < self.nodes@.len(),
                                self.nodes@[k as int].children@.len() == pchildren@.len(),
                                forall|j2: int|
                                    0 <= j2 < pchildren@.len() ==> #[trigger] pchildren@[j2] < t,
                                subst@.len() == pat.n_vars,
                                subst_wf(subst@, *self),
                                j <= pchildren@.len(),
                                forall|i: int|
                                    0 <= i < partial@.len() ==> (#[trigger] partial@[i])@.len()
                                        == pat.n_vars && subst_wf(partial@[i]@, *self)
                                        && subst_extends(partial@[i]@, subst@),
                                forall|i: int, j2: int|
                                    0 <= i < partial@.len() && 0 <= j2 < j ==> pat_matches(
                                        *self,
                                        *pat,
                                        #[trigger] pchildren@[j2] as int,
                                        self.nodes@[k as int].children@[j2] as int,
                                        (#[trigger] partial@[i])@,
                                    ),
                            decreases pchildren@.len() - j,
                        {
                            let mut next: Vec<Vec<Option<usize>>> = Vec::new();
                            let mut i: usize = 0;
                            while i < partial.len()
                                invariant
                                    self.wf(),
                                    pat.wf(),
                                    t < pat.nodes@.len(),
                                    k < self.nodes@.len(),
                                    self.nodes@[k as int].children@.len() == pchildren@.len(),
                                    j < pchildren@.len(),
                                    forall|j2: int|
                                        0 <= j2 < pchildren@.len() ==> #[trigger] pchildren@[j2]
                                            < t,
                                    subst@.len() == pat.n_vars,
                                    subst_wf(subst@, *self),
                                    i <= partial@.len(),
                                    forall|i2: int|
                                        0 <= i2 < partial@.len() ==> (#[trigger] partial@[i2])@.len()
                                            == pat.n_vars && subst_wf(partial@[i2]@, *self)
                                            && subst_extends(partial@[i2]@, subst@),
                                    forall|i2: int, j2: int|
                                        0 <= i2 < partial@.len() && 0 <= j2 < j ==> pat_matches(
                                            *self,
                                            *pat,
                                            #[trigger] pchildren@[j2] as int,
                                            self.nodes@[k as int].children@[j2] as int,
                                            (#[trigger] partial@[i2])@,
                                        ),
                                    forall|i2: int|
                                        0 <= i2 < next@.len() ==> (#[trigger] next@[i2])@.len()
                                            == pat.n_vars && subst_wf(next@[i2]@, *self)
                                            && subst_extends(next@[i2]@, subst@),
                                    forall|i2: int, j2: int|
                                        0 <= i2 < next@.len() && 0 <= j2 < j + 1 ==> pat_matches(
                                            *self,
                                            *pat,
                                            #[trigger] pchildren@[j2] as int,
                                            self.nodes@[k as int].children@[j2] as int,
                                            (#[trigger] next@[i2])@,
                                        ),
                                decreases partial@.len() - i,
                            {
                                let child_id = self.nodes[k].children[j];
                                let exts = self.match_pat(pat, pchildren[j], child_id, &partial[i]);
                                let mut e: usize = 0;
                                while e < exts.len()
                                    invariant
                                        pat.wf(),
                                        t < pat.nodes@.len(),
                                        k < self.nodes@.len(),
                                        self.nodes@[k as int].children@.len() == pchildren@.len(),
                                        j < pchildren@.len(),
                                        forall|j2: int|
                                            0 <= j2 < pchildren@.len() ==> #[trigger] pchildren@[j2]
                                                < t,
                                        child_id == self.nodes@[k as int].children@[j as int],
                                        i < partial@.len(),
                                        subst@.len() == pat.n_vars,
                                        e <= exts@.len(),
                                        subst_extends(partial@[i as int]@, subst@),
                                        partial@[i as int]@.len() == pat.n_vars,
                                        forall|j2: int|
                                            0 <= j2 < j ==> pat_matches(
                                                *self,
                                                *pat,
                                                #[trigger] pchildren@[j2] as int,
                                                self.nodes@[k as int].children@[j2] as int,
                                                partial@[i as int]@,
                                            ),
                                        forall|i2: int|
                                            0 <= i2 < exts@.len() ==> (#[trigger] exts@[i2])@.len()
                                                == pat.n_vars && subst_wf(exts@[i2]@, *self)
                                                && subst_extends(exts@[i2]@, partial@[i as int]@)
                                                && pat_matches(
                                                *self,
                                                *pat,
                                                pchildren@[j as int] as int,
                                                child_id as int,
                                                exts@[i2]@,
                                            ),
                                        forall|i2: int|
                                            0 <= i2 < next@.len() ==> (#[trigger] next@[i2])@.len()
                                                == pat.n_vars && subst_wf(next@[i2]@, *self)
                                                && subst_extends(next@[i2]@, subst@),
                                        forall|i2: int, j2: int|
                                            0 <= i2 < next@.len() && 0 <= j2 < j + 1
                                                ==> pat_matches(
                                                *self,
                                                *pat,
                                                #[trigger] pchildren@[j2] as int,
                                                self.nodes@[k as int].children@[j2] as int,
                                                (#[trigger] next@[i2])@,
                                            ),
                                    decreases exts@.len() - e,
                                {
                                    proof {
                                        assert forall|j2: int| 0 <= j2 < j + 1 implies pat_matches(
                                            *self,
                                            *pat,
                                            #[trigger] pchildren@[j2] as int,
                                            self.nodes@[k as int].children@[j2] as int,
                                            exts@[e as int]@,
                                        ) by {
                                            if j2 < j {
                                                lemma_pat_matches_extend(
                                                    *self,
                                                    *pat,
                                                    pchildren@[j2] as int,
                                                    self.nodes@[k as int].children@[j2] as int,
                                                    partial@[i as int]@,
                                                    exts@[e as int]@,
                                                );
                                            }
                                        }
                                    }
                                    next.push(clone_subst(&exts[e]));
                                    e += 1;
                                }
                                i += 1;
                            }
                            partial = next;
                            j += 1;
                        }
                        proof {
                            crate::egraph::lemma_root_of_root(self.uf@, id as int);
                        }
                        let mut i: usize = 0;
                        while i < partial.len()
                            invariant
                                self.wf(),
                                pat.wf(),
                                t < pat.nodes@.len(),
                                id < self.n_classes(),
                                k < self.nodes@.len(),
                                pat.nodes@[t as int] matches PatNode::Op(o2, l2, c2) && o2
                                    == self.nodes@[k as int].op && l2
                                    == self.nodes@[k as int].literal && c2@ == pchildren@,
                                self.nodes@[k as int].children@.len() == pchildren@.len(),
                                root_of(self.uf@, self.owner@[k as int] as int) == root_of(
                                    self.uf@,
                                    id as int,
                                ),
                                subst@.len() == pat.n_vars,
                                i <= partial@.len(),
                                forall|i2: int|
                                    0 <= i2 < partial@.len() ==> (#[trigger] partial@[i2])@.len()
                                        == pat.n_vars && subst_wf(partial@[i2]@, *self)
                                        && subst_extends(partial@[i2]@, subst@),
                                forall|i2: int, j2: int|
                                    0 <= i2 < partial@.len() && 0 <= j2 < pchildren@.len()
                                        ==> pat_matches(
                                        *self,
                                        *pat,
                                        #[trigger] pchildren@[j2] as int,
                                        self.nodes@[k as int].children@[j2] as int,
                                        (#[trigger] partial@[i2])@,
                                    ),
                                forall|i2: int|
                                    0 <= i2 < out@.len() ==> (#[trigger] out@[i2])@.len()
                                        == pat.n_vars && subst_wf(out@[i2]@, *self)
                                        && subst_extends(out@[i2]@, subst@) && pat_matches(
                                        *self,
                                        *pat,
                                        t as int,
                                        id as int,
                                        out@[i2]@,
                                    ),
                            decreases partial@.len() - i,
                        {
                            proof {
                                let ghost sp = partial@[i as int]@;
                                assert(forall|j2: int|
                                    0 <= j2 < pchildren@.len() ==> pat_matches(
                                        *self,
                                        *pat,
                                        #[trigger] pchildren@[j2] as int,
                                        self.nodes@[k as int].children@[j2] as int,
                                        sp,
                                    ));
                                assert(pat_matches(*self, *pat, t as int, id as int, sp)) by {
                                    let kk = k as int;
                                    assert(0 <= kk < self.nodes@.len() && root_of(
                                        self.uf@,
                                        self.owner@[kk] as int,
                                    ) == root_of(self.uf@, id as int) && self.nodes@[kk].op
                                        == self.nodes@[k as int].op && self.nodes@[kk].literal
                                        == self.nodes@[k as int].literal
                                        && self.nodes@[kk].children@.len() == pchildren@.len()
                                        && forall|j2: int|
                                        0 <= j2 < pchildren@.len() ==> pat_matches(
                                            *self,
                                            *pat,
                                            #[trigger] pchildren@[j2] as int,
                                            self.nodes@[kk].children@[j2] as int,
                                            sp,
                                        ));
                                }
                            }
                            out.push(clone_subst(&partial[i]));
                            i += 1;
                        }
                    }
                    k += 1;
                }
                out
            },
        }
    }

    /// All matches of a pattern anywhere in the graph: pairs of a matched
    /// class (a representative) and a substitution that really matches the
    /// pattern's root against it.
    pub fn search_pat(&self, pat: &Pattern) -> (r: Vec<(usize, Vec<Option<usize>>)>)
        requires
            self.wf(),
            pat.wf(),
        ensures
            forall|i: int|
                0 <= i < r@.len() ==> is_root(self.uf@, (#[trigger] r@[i]).0 as int) && r@[i].1@.len()
                    == pat.n_vars && subst_wf(r@[i].1@, *self) && pat_matches(
                    *self,
                    *pat,
                    pat.root(),
                    r@[i].0 as int,
                    r@[i].1@,
                ),
    {
        let mut out: Vec<(usize, Vec<Option<usize>>)> = Vec::new();
        let mut c: usize = 0;
        while c < self.uf.len()
            invariant
                self.wf(),
                pat.wf(),
                c <= self.n_classes(),
                forall|i: int|
                    0 <= i < out@.len() ==> is_root(self.uf@, (#[trigger] out@[i]).0 as int)
                        && out@[i].1@.len() == pat.n_vars && subst_wf(out@[i].1@, *self)
                        && pat_matches(*self, *pat, pat.root(), out@[i].0 as int, out@[i].1@),
            decreases self.n_classes() - c,
        {
            if self.uf[c] == c {
                let empty = empty_subst(pat.n_vars);
                let matches = self.match_pat(pat, pat.nodes.len() - 1, c, &empty);
                let mut i: usize = 0;
                while i < matches.len()
                    invariant
                        self.wf(),
                        pat.wf(),
                        c < self.n_classes(),
                        is_root(self.uf@, c as int),
                        i <= matches@.len(),
                        forall|i2: int|
                            0 <= i2 < matches@.len() ==> (#[trigger] matches@[i2])@.len()
                                == pat.n_vars && subst_wf(matches@[i2]@, *self) && pat_matches(
                                *self,
                                *pat,
                                pat.root(),
                                c as int,
                                matches@[i2]@,
                            ),
                        forall|i2: int|
                            0 <= i2 < out@.len() ==> is_root(self.uf@, (#[trigger] out@[i2]).0 as int)
                                && out@[i2].1@.len() == pat.n_vars && subst_wf(out@[i2].1@, *self)
                                && pat_matches(*self, *pat, pat.root(), out@[i2].0 as int, out@[i2].1@),
                    decreases matches@.len() - i,
                {
                    out.push((c, clone_subst(&matches[i])));
                    i += 1;
                }
            }
            c += 1;
        }
        out
    }

    /// Builds the instance of a pattern under a substitution, adding any
    /// missing e-nodes, and returns the class of the pattern's root.
    ///
    /// Fails with `MalformedRule` when the pattern uses a variable the
    /// substitution leaves unbound, and propagates shape errors from node
    /// insertion. On success the classes that existed before keep their
    /// representatives: instantiation only grows the graph.
    pub fn instantiate(&mut self, pat: &Pattern, subst: &Vec<Option<usize>>) -> (r: Result<
        usize,
        EggError,
    >)
        requires
            old(self).clean(),
            pat.wf(),
            subst@.len() == pat.n_vars,
            subst_wf(subst@, *old(self)),
        ensures
            final(self).wf(),
            final(self).clean(),
            old(self).n_classes() <= final(self).n_classes(),
            forall|k: int|
                0 <= k < old(self).n_classes() ==> root_of(final(self).uf@, k) == root_of(
                    old(self).uf@,
                    k,
                ),
            forall|k: int|
                0 <= k < old(self).n_classes() ==> final(self).uf@[k] == old(self).uf@[k],
            forall|k: int|
                0 <= k < old(self).n_classes() ==> final(self).analysis@[k] == old(self).analysis@[k],
            final(self).symbols@ == old(self).symbols@,
            r matches Ok(c) ==> c < final(self).n_classes(),
            // the applier is faithful: the returned class matches the pattern
            r matches Ok(c) ==> pat_matches(*final(self), *pat, pat.root(), c as int, subst@),
            r is Err ==> r->Err_0 == EggError::MalformedRule || r->Err_0
                == EggError::ShapeOverflow,
    {
        let mut built: Vec<usize> = Vec::new();
        let mut t: usize = 0;
        while t < pat.nodes.len()
            invariant
                self.wf(),
                self.clean(),
                pat.wf(),
                subst@.len() == pat.n_vars,
                subst_wf(subst@, *old(self)),
                subst_wf(subst@, *self),
                t <= pat.nodes@.len(),
                built@.len() == t,
                old(self).n_classes() <= self.n_classes(),
                forall|k: int|
                    0 <= k < old(self).n_classes() ==> root_of(self.uf@, k) == root_of(
                        old(self).uf@,
                        k,
                    ),
                forall|k: int|
                    0 <= k < old(self).n_classes() ==> self.uf@[k] == old(self).uf@[k],
                forall|k: int|
                    0 <= k < old(self).n_classes() ==> self.analysis@[k] == old(self).analysis@[k],
                self.symbols@ == old(self).symbols@,
                forall|i: int| 0 <= i < t ==> #[trigger] built@[i] < self.n_classes(),
                forall|i: int|
                    0 <= i < t ==> pat_matches(*self, *pat, i, #[trigger] built@[i] as int, subst@),
            decreases pat.nodes@.len() - t,
        {
            let cls: usize = match &pat.nodes[t] {
                PatNode::Var(v) => {
                    match subst[*v] {
                        Some(c) => {
                            if c >= self.uf.len() {
                                return Err(EggError::MalformedRule);
                            }
                            proof {
                                assert(is_root(self.uf@, c as int));
                                assert(root_of(self.uf@, c as int) == c as int);
                                assert(pat_matches(*self, *pat, t as int, c as int, subst@));
                            }
                            c
                        },
                        None => {
                            return Err(EggError::MalformedRule);
                        },
                    }
                },
                PatNode::Op(op, literal, pchildren) => {
                    let mut children: Vec<usize> = Vec::new();
                    let mut j: usize = 0;
                    while j < pchildren.len()
                        invariant
                            pat.wf(),
                            t < pat.nodes@.len(),
                            pat.nodes@[t as int] matches PatNode::Op(o2, l2, c2) && c2@
                                == pchildren@,
                            built@.len() == t,
                            forall|i: int| 0 <= i < t ==> #[trigger] built@[i] < self.n_classes(),
                            forall|j2: int|
                                0 <= j2 < pchildren@.len() ==> #[trigger] pchildren@[j2] < t,
                            j <= pchildren@.len(),
                            children@.len() == j,
                            forall|j2: int|
                                0 <= j2 < j ==> #[trigger] children@[j2] == built@[pchildren@[j2]
                                    as int],
                            forall|j2: int|
                                0 <= j2 < j ==> #[trigger] children@[j2] < self.n_classes(),
                        decreases pchildren@.len() - j,
                    {
                        children.push(built[pchildren[j]]);
                        j += 1;
                    }
                    let node = Mdl { op: *op, literal: *literal, children };
                    let ghost pre = *self;
                    let c = match self.add(node) {
                        Ok(c) => c,
                        Err(e) => {
                            return Err(e);
                        },
                    };
                    proof {
                        // earlier pattern nodes still match in the grown graph
                        assert forall|i: int| 0 <= i < t as int implies pat_matches(
                            *self,
                            *pat,
                            i,
                            #[trigger] built@[i] as int,
                            subst@,
                        ) by {
                            lemma_pat_matches_stable(pre, *self, *pat, i, built@[i] as int, subst@);
                        }
                        // and the new class holds a node witnessing this one
                        if exists|k: int|
                            0 <= k < pre.nodes@.len() && crate::egraph::congruent(
                                pre.uf@,
                                #[trigger] pre.nodes@[k],
                                node,
                            ) {
                            let kk = choose|kk: int|
                                0 <= kk < pre.nodes@.len() && crate::egraph::congruent(
                                    pre.uf@,
                                    #[trigger] pre.nodes@[kk],
                                    node,
                                ) && c as int == root_of(pre.uf@, pre.owner@[kk] as int);
                            assert(pre.wf());
                            assert(pre.owner@.len() == pre.nodes@.len());
                            assert(pre.owner@[kk] < pre.uf@.len());
                            crate::egraph::lemma_root_of_root(pre.uf@, pre.owner@[kk] as int);
                            assert(root_of(self.uf@, self.owner@[kk] as int) == root_of(
                                self.uf@,
                                c as int,
                            ));
                            assert forall|j2: int| 0 <= j2 < pchildren@.len() implies pat_matches(
                                *self,
                                *pat,
                                #[trigger] pchildren@[j2] as int,
                                self.nodes@[kk].children@[j2] as int,
                                subst@,
                            ) by {
                                assert(root_of(self.uf@, self.nodes@[kk].children@[j2] as int)
                                    == root_of(self.uf@, node.children@[j2] as int));
                                assert(pat_matches(
                                    *self,
                                    *pat,
                                    pchildren@[j2] as int,
                                    node.children@[j2] as int,
                                    subst@,
                                ));
                                lemma_pat_matches_same_root(
                                    *self,
                                    *pat,
                                    pchildren@[j2] as int,
                                    node.children@[j2] as int,
                                    self.nodes@[kk].children@[j2] as int,
                                    subst@,
                                );
                            }
                            assert(pat_matches(*self, *pat, t as int, c as int, subst@)) by {
                                assert(0 <= kk < self.nodes@.len() && root_of(
                                    self.uf@,
                                    self.owner@[kk] as int,
                                ) == root_of(self.uf@, c as int) && self.nodes@[kk].op == node.op
                                    && self.nodes@[kk].literal == node.literal
                                    && self.nodes@[kk].children@.len() == pchildren@.len()
                                    && forall|j2: int|
                                    0 <= j2 < pchildren@.len() ==> pat_matches(
                                        *self,
                                        *pat,
                                        #[trigger] pchildren@[j2] as int,
                                        self.nodes@[kk].children@[j2] as int,
                                        subst@,
                                    ));
                            }
                        } else {
                            let kk = pre.nodes@.len() as int;
                            assert(crate::egraph::congruent(self.uf@, self.nodes@[kk], node));
                            assert(self.owner@[kk] == c);
                            assert(root_of(self.uf@, c as int) == c as int);
                            assert forall|j2: int| 0 <= j2 < pchildren@.len() implies pat_matches(
                                *self,
                                *pat,
                                #[trigger] pchildren@[j2] as int,
                                self.nodes@[kk].children@[j2] as int,
                                subst@,
                            ) by {
                                assert(root_of(self.uf@, self.nodes@[kk].children@[j2] as int)
                                    == root_of(self.uf@, node.children@[j2] as int));
                                assert(pat_matches(
                                    *self,
                                    *pat,
                                    pchildren@[j2] as int,
                                    node.children@[j2] as int,
                                    subst@,
                                ));
                                lemma_pat_matches_same_root(
                                    *self,
                                    *pat,
                                    pchildren@[j2] as int,
                                    node.children@[j2] as int,
                                    self.nodes@[kk].children@[j2] as int,
                                    subst@,
                                );
                            }
                            assert(pat_matches(*self, *pat, t as int, c as int, subst@)) by {
                                assert(0 <= kk < self.nodes@.len() && root_of(
                                    self.uf@,
                                    self.owner@[kk] as int,
                                ) == root_of(self.uf@, c as int) && self.nodes@[kk].op == node.op
                                    && self.nodes@[kk].literal == node.literal
                                    && self.nodes@[kk].children@.len() == pchildren@.len()
                                    && forall|j2: int|
                                    0 <= j2 < pchildren@.len() ==> pat_matches(
                                        *self,
                                        *pat,
                                        #[trigger] pchildren@[j2] as int,
                                        self.nodes@[kk].children@[j2] as int,
                                        subst@,
                                    ));
                            }
                        }
                    }
                    c
                },
            };
            built.push(cls);
            t += 1;
        }
        Ok(built[pat.nodes.len() - 1])
    }
}

/// A substitution with every variable unbound.
pub fn empty_subst(n_vars: usize) -> (r: Vec<Option<usize>>)
    ensures
        r@.len() == n_vars,
        forall|v: int| 0 <= v < n_vars ==> r@[v] is None,
{
    let mut r: Vec<Option<usize>> = Vec::new();
    let mut i: usize = 0;
    while i < n_vars
        invariant
            i <= n_vars,
            r@.len() == i,
            forall|v: int| 0 <= v < i ==> r@[v] is None,
        decreases n_vars - i,
    {
        r.push(None);
        i += 1;
    }
    r
}

} // verus!
