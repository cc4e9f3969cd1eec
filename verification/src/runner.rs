//! The saturation driver: interleaves search, apply and rebuild until a
//! resource limit fires or no rule produces a new merge; and the
//! multi-pattern scheduler with its own budgets.
use vstd::prelude::*;

use crate::egraph::{is_root, root_of, EGraph};
use crate::model::EggError;
use crate::pattern::subst_wf;
use crate::rewrites::{cond_holds, parse_multi_rule, MultiRule, Rewrite};

verus! {

/// Resource limits for a saturation run.
pub struct RunnerConfig {
    /// Cap on saturation iterations.
    pub iter_limit: usize,
    /// Hard cap on the number of stored e-nodes.
    pub node_limit: usize,
    /// Wall-clock cap in milliseconds.
    pub time_limit_ms: u64,
    /// Online cycle filter: reject merges that would close a cycle.
    pub no_cycle: bool,
    /// Offline cycle filter after the final iteration instead.
    pub filter_after: bool,
    /// Run the multi-pattern scheduler.
    pub use_multi_patterns: bool,
}

impl RunnerConfig {
    /// The default limits of the driver.
    pub fn new() -> (r: RunnerConfig)
        ensures
            r.iter_limit == 10000,
            r.node_limit == 5000000,
            r.time_limit_ms == 60000,
            !r.no_cycle,
            !r.filter_after,
            !r.use_multi_patterns,
    {
        RunnerConfig {
            iter_limit: 10000,
            node_limit: 5000000,
            time_limit_ms: 60000,
            no_cycle: false,
            filter_after: false,
            use_multi_patterns: false,
        }
    }
}

/// Why a saturation run stopped.
#[derive(Clone, Copy, PartialEq, Eq, Structural, Debug)]
pub enum StopReason {
    /// A full iteration produced no new merges.
    Saturated,
    IterLimit,
    NodeLimit,
    TimeLimit,
}

#[verifier::external_type_specification]
#[verifier::external_body]
pub struct ExInstant(std::time::Instant);

/// Relies on std::time::Instant::now: an opaque reading of the monotonic
/// clock. The value depends on the time of the call, so nothing is promised
/// of it.
#[verifier::external_body]
fn clock_now() -> std::time::Instant {
    std::time::Instant::now()
}

/// Relies on std::time::Instant::elapsed: the milliseconds since the reading
/// was taken, saturated into `u64`. Time-dependent, so nothing is promised
/// of the value; the driver is verified for every reading.
#[verifier::external_body]
fn elapsed_ms(start: &std::time::Instant) -> u64 {
    let ms = start.elapsed().as_millis();
    if ms > (u64::MAX as u128) {
        u64::MAX
    } else {
        ms as u64
    }
}

/// One collected match: the rule that fired, the matched class, and the
/// substitution.
struct PendingMatch {
    rule_idx: usize,
    class: usize,
    subst: Vec<Option<usize>>,
}

/// Runs the rules to saturation or until a limit fires.
///
/// Per iteration: search every rule over the current graph, instantiate the
/// right sides of the surviving matches, perform all merges, rebuild. The
/// graph's invariants hold again on every successful return, classes are
/// never lost, and the iteration count never passes the configured cap;
/// `IterLimit` is reported exactly when the cap fired.
pub fn run_rules(egraph: &mut EGraph, rules: &Vec<Rewrite>, config: &RunnerConfig) -> (r: Result<
    (StopReason, usize),
    EggError,
>)
    requires
        old(egraph).clean(),
        forall|i: int| 0 <= i < rules@.len() ==> (#[trigger] rules@[i]).wf(),
    ensures
        final(egraph).wf(),
        final(egraph).n_classes() >= old(egraph).n_classes(),
        r is Ok ==> final(egraph).clean(),
        // rewrite soundness: a run never changes the observable type of any
        // class that existed before it, the root class included
        r is Ok ==> forall|k: int|
            0 <= k < old(egraph).n_classes() ==> (#[trigger] final(egraph).analysis@[root_of(
                final(egraph).uf@,
                k,
            )]).agrees_with(old(egraph).analysis@[root_of(old(egraph).uf@, k)]),
        r matches Ok((reason, iters)) ==> iters <= config.iter_limit && (reason
            == StopReason::IterLimit ==> iters == config.iter_limit) && (reason
            == StopReason::NodeLimit ==> final(egraph).nodes@.len() >= config.node_limit),
        // failures: a disagreeing merge, a shape rule that overflowed, or a
        // right side using an unbound variable
        r is Err ==> r->Err_0 == EggError::AnalysisConflict || r->Err_0 == EggError::ShapeOverflow
            || r->Err_0 == EggError::MalformedRule,
{
    let start = clock_now();
    let mut iter: usize = 0;
    loop
        invariant
            egraph.clean(),
            egraph.n_classes() >= old(egraph).n_classes(),
            iter <= config.iter_limit,
            forall|i: int| 0 <= i < rules@.len() ==> (#[trigger] rules@[i]).wf(),
            forall|k: int|
                0 <= k < old(egraph).n_classes() ==> (#[trigger] egraph.analysis@[root_of(
                    egraph.uf@,
                    k,
                )]).agrees_with(old(egraph).analysis@[root_of(old(egraph).uf@, k)]),
        decreases config.iter_limit - iter,
    {
        if iter >= config.iter_limit {
            return Ok((StopReason::IterLimit, iter));
        }
        if egraph.nodes.len() >= config.node_limit {
            return Ok((StopReason::NodeLimit, iter));
        }
        if elapsed_ms(&start) >= config.time_limit_ms {
            return Ok((StopReason::TimeLimit, iter));
        }
        let ghost pre = *egraph;
        let changed = match run_one_iteration(egraph, rules, config.no_cycle) {
            Ok(c) => c,
            Err(e) => {
                return Err(e);
            },
        };
        proof {
            assert forall|k: int| 0 <= k < old(egraph).n_classes() implies (
            #[trigger] egraph.analysis@[root_of(egraph.uf@, k)]).agrees_with(
                old(egraph).analysis@[root_of(old(egraph).uf@, k)],
            ) by {
                crate::model::lemma_agrees_transitive(
                    egraph.analysis@[root_of(egraph.uf@, k)],
                    pre.analysis@[root_of(pre.uf@, k)],
                    old(egraph).analysis@[root_of(old(egraph).uf@, k)],
                );
            }
        }
        if changed == 0 {
            return Ok((StopReason::Saturated, iter));
        }
        iter += 1;
    }
}

/// One search / apply / rebuild round. Returns the number of merges that
/// changed the graph.
fn run_one_iteration(egraph: &mut EGraph, rules: &Vec<Rewrite>, no_cycle: bool) -> (r: Result<
    usize,
    EggError,
>)
    requires
        old(egraph).clean(),
        forall|i: int| 0 <= i < rules@.len() ==> (#[trigger] rules@[i]).wf(),
    ensures
        final(egraph).wf(),
        final(egraph).n_classes() >= old(egraph).n_classes(),
        r is Ok ==> final(egraph).clean(),
        r is Ok ==> forall|k: int|
            0 <= k < old(egraph).n_classes() ==> (#[trigger] final(egraph).analysis@[root_of(
                final(egraph).uf@,
                k,
            )]).agrees_with(old(egraph).analysis@[root_of(old(egraph).uf@, k)]),
        r is Err ==> r->Err_0 == EggError::AnalysisConflict || r->Err_0 == EggError::ShapeOverflow
            || r->Err_0 == EggError::MalformedRule,
{
    // search: collect every match of every rule against the current graph
    let mut pending: Vec<PendingMatch> = Vec::new();
    let mut ri: usize = 0;
    while ri < rules.len()
        invariant
            egraph.clean(),
            *egraph == *old(egraph),
            forall|i: int| 0 <= i < rules@.len() ==> (#[trigger] rules@[i]).wf(),
            ri <= rules@.len(),
            forall|i: int|
                0 <= i < pending@.len() ==> {
                    let p = #[trigger] pending@[i];
                    &&& p.rule_idx < rules@.len()
                    &&& p.class < egraph.n_classes()
                    &&& p.subst@.len() == rules@[p.rule_idx as int].lhs.n_vars
                    &&& subst_wf(p.subst@, *egraph)
                },
        decreases rules@.len() - ri,
    {
        let matches = egraph.search_pat(&rules[ri].lhs);
        let mut mi: usize = 0;
        while mi < matches.len()
            invariant
                egraph.clean(),
                *egraph == *old(egraph),
                forall|i: int| 0 <= i < rules@.len() ==> (#[trigger] rules@[i]).wf(),
                ri < rules@.len(),
                mi <= matches@.len(),
                forall|i: int|
                    0 <= i < matches@.len() ==> is_root(
                        egraph.uf@,
                        (#[trigger] matches@[i]).0 as int,
                    ) && matches@[i].1@.len() == rules@[ri as int].lhs.n_vars && subst_wf(
                        matches@[i].1@,
                        *egraph,
                    ),
                forall|i: int|
                    0 <= i < pending@.len() ==> {
                        let p = #[trigger] pending@[i];
                        &&& p.rule_idx < rules@.len()
                        &&& p.class < egraph.n_classes()
                        &&& p.subst@.len() == rules@[p.rule_idx as int].lhs.n_vars
                        &&& subst_wf(p.subst@, *egraph)
                    },
            decreases matches@.len() - mi,
        {
            let class = matches[mi].0;
            let subst = crate::pattern::clone_subst(&matches[mi].1);
            pending.push(PendingMatch { rule_idx: ri, class, subst });
            mi += 1;
        }
        ri += 1;
    }
    // apply: instantiate the right sides while the graph is still clean
    let mut deferred: Vec<(usize, usize)> = Vec::new();
    let mut pi: usize = 0;
    while pi < pending.len()
        invariant
            old(egraph).clean(),
            egraph.clean(),
            egraph.n_classes() >= old(egraph).n_classes(),
            forall|k: int|
                0 <= k < old(egraph).n_classes() ==> (#[trigger] egraph.analysis@[root_of(
                    egraph.uf@,
                    k,
                )]).agrees_with(old(egraph).analysis@[root_of(old(egraph).uf@, k)]),
            forall|i: int| 0 <= i < rules@.len() ==> (#[trigger] rules@[i]).wf(),
            pi <= pending@.len(),
            forall|i: int|
                0 <= i < pending@.len() ==> {
                    let p = #[trigger] pending@[i];
                    &&& p.rule_idx < rules@.len()
                    &&& p.class < egraph.n_classes()
                    &&& p.subst@.len() == rules@[p.rule_idx as int].lhs.n_vars
                    &&& subst_wf(p.subst@, *egraph)
                },
            forall|i: int|
                0 <= i < deferred@.len() ==> (#[trigger] deferred@[i]).0 < egraph.n_classes()
                    && deferred@[i].1 < egraph.n_classes(),
        decreases pending@.len() - pi,
    {
        let p = &pending[pi];
        let rule = &rules[p.rule_idx];
        if cond_holds(egraph, &rule.cond, &p.subst) {
            let ghost pre = *egraph;
            let rhs_class = match egraph.instantiate(&rule.rhs, &p.subst) {
                Ok(c) => c,
                Err(e) => {
                    return Err(e);
                },
            };
            proof {
                assert forall|i: int| 0 <= i < pending@.len() implies subst_wf(
                    (#[trigger] pending@[i]).subst@,
                    *egraph,
                ) by {
                    assert(subst_wf(pending@[i].subst@, pre));
                }
                assert forall|k: int| 0 <= k < old(egraph).n_classes() implies (
                #[trigger] egraph.analysis@[root_of(egraph.uf@, k)]).agrees_with(
                    old(egraph).analysis@[root_of(old(egraph).uf@, k)],
                ) by {
                    crate::egraph::lemma_root_of_root(pre.uf@, k);
                    assert(root_of(egraph.uf@, k) == root_of(pre.uf@, k));
                    assert(egraph.analysis@[root_of(pre.uf@, k)] == pre.analysis@[root_of(
                        pre.uf@,
                        k,
                    )]);
                    crate::model::lemma_agrees_transitive(
                        egraph.analysis@[root_of(egraph.uf@, k)],
                        pre.analysis@[root_of(pre.uf@, k)],
                        old(egraph).analysis@[root_of(old(egraph).uf@, k)],
                    );
                }
            }
            deferred.push((p.class, rhs_class));
        }
        pi += 1;
    }
    // merge: perform the collected unions, filtering online when asked to
    let mut changed: usize = 0;
    let mut ti: usize = 0;
    while ti < deferred.len()
        invariant
            egraph.wf(),
            egraph.n_classes() >= old(egraph).n_classes(),
            ti <= deferred@.len(),
            changed <= ti,
            forall|k: int|
                0 <= k < old(egraph).n_classes() ==> (#[trigger] egraph.analysis@[root_of(
                    egraph.uf@,
                    k,
                )]).agrees_with(old(egraph).analysis@[root_of(old(egraph).uf@, k)]),
            forall|i: int|
                0 <= i < deferred@.len() ==> (#[trigger] deferred@[i]).0 < egraph.n_classes()
                    && deferred@[i].1 < egraph.n_classes(),
        decreases deferred@.len() - ti,
    {
        let (a, b) = deferred[ti];
        let skip = no_cycle && egraph.would_create_cycle(a, b);
        if !skip {
            let ghost pre = *egraph;
            match egraph.union(a, b) {
                Ok((_, ch)) => {
                    proof {
                        assert forall|k: int| 0 <= k < old(egraph).n_classes() implies (
                        #[trigger] egraph.analysis@[root_of(egraph.uf@, k)]).agrees_with(
                            old(egraph).analysis@[root_of(old(egraph).uf@, k)],
                        ) by {
                            crate::model::lemma_agrees_transitive(
                                egraph.analysis@[root_of(egraph.uf@, k)],
                                pre.analysis@[root_of(pre.uf@, k)],
                                old(egraph).analysis@[root_of(old(egraph).uf@, k)],
                            );
                        }
                    }
                    if ch {
                        changed += 1;
                    }
                },
                Err(e) => {
                    return Err(e);
                },
            }
        }
        ti += 1;
    }
    // rebuild: restore the invariants after the deferred merges
    let ghost pre_rebuild = *egraph;
    match egraph.rebuild() {
        Ok(()) => {
            proof {
                assert forall|k: int| 0 <= k < old(egraph).n_classes() implies (
                #[trigger] egraph.analysis@[root_of(egraph.uf@, k)]).agrees_with(
                    old(egraph).analysis@[root_of(old(egraph).uf@, k)],
                ) by {
                    crate::model::lemma_agrees_transitive(
                        egraph.analysis@[root_of(egraph.uf@, k)],
                        pre_rebuild.analysis@[root_of(pre_rebuild.uf@, k)],
                        old(egraph).analysis@[root_of(old(egraph).uf@, k)],
                    );
                }
            }
            Ok(changed)
        },
        Err(e) => Err(e),
    }
}

/// The multi-pattern scheduler: composite rewrites with their own iteration
/// and node budgets, run periodically beside the main rules.
pub struct MultiPatterns {
    pub rules: Vec<MultiRule>,
    pub no_cycle: bool,
    pub iter_limit: usize,
    pub filter_after: bool,
    pub node_limit: usize,
    pub n_sec: u64,
    pub iter_count: usize,
}

impl MultiPatterns {
    pub open spec fn wf(self) -> bool {
        forall|i: int| 0 <= i < self.rules@.len() ==> (#[trigger] self.rules@[i]).wf()
    }

    /// Parses the multi-pattern table. Each entry is a
    /// `name ; LHS1 , LHS2 => RHS1 , RHS2` line with a symmetry flag.
    pub fn with_rules(
        rules: Vec<(String, bool)>,
        no_cycle: bool,
        iter_limit: usize,
        filter_after: bool,
        node_limit: usize,
        n_sec: u64,
    ) -> (r: Result<MultiPatterns, EggError>)
        ensures
            r matches Ok(mp) ==> mp.wf() && mp.iter_count == 0,
            r is Err ==> r->Err_0 == EggError::MalformedRule,
    {
        let mut parsed: Vec<MultiRule> = Vec::new();
        let mut i: usize = 0;
        while i < rules.len()
            invariant
                i <= rules@.len(),
                forall|j: int| 0 <= j < parsed@.len() ==> (#[trigger] parsed@[j]).wf(),
            decreases rules@.len() - i,
        {
            match parse_multi_rule(rules[i].0.as_str(), rules[i].1) {
                Ok(rule) => {
                    parsed.push(rule);
                },
                Err(e) => {
                    return Err(e);
                },
            }
            i += 1;
        }
        Ok(
            MultiPatterns {
                rules: parsed,
                no_cycle,
                iter_limit,
                filter_after,
                node_limit,
                n_sec,
                iter_count: 0,
            },
        )
    }

    /// One scheduler round: searches both premises of every composite rule,
    /// keeps the match pairs whose shared variables agree, and applies each
    /// output against its premise's class in one batch. A no-op once the
    /// scheduler's own iteration or node budget is spent.
    pub fn run_one(&mut self, egraph: &mut EGraph) -> (r: Result<usize, EggError>)
        requires
            old(egraph).clean(),
            old(self).wf(),
        ensures
            final(self).wf(),
            final(egraph).wf(),
            final(egraph).n_classes() >= old(egraph).n_classes(),
            r is Ok ==> final(egraph).clean(),
            // a scheduler round, too, never changes any class's observable type
            r is Ok ==> forall|k: int|
                0 <= k < old(egraph).n_classes() ==> (#[trigger] final(egraph).analysis@[root_of(
                    final(egraph).uf@,
                    k,
                )]).agrees_with(old(egraph).analysis@[root_of(old(egraph).uf@, k)]),
            r is Err ==> r->Err_0 == EggError::AnalysisConflict || r->Err_0
                == EggError::ShapeOverflow || r->Err_0 == EggError::MalformedRule,
    {
        if self.iter_count >= self.iter_limit || egraph.nodes.len() >= self.node_limit {
            return Ok(0);
        }
        self.iter_count += 1;
        let mut deferred: Vec<(usize, usize)> = Vec::new();
        let mut ri: usize = 0;
        while ri < self.rules.len()
            invariant
                egraph.clean(),
                egraph.n_classes() >= old(egraph).n_classes(),
            forall|k: int|
                0 <= k < old(egraph).n_classes() ==> (#[trigger] egraph.analysis@[root_of(
                    egraph.uf@,
                    k,
                )]).agrees_with(old(egraph).analysis@[root_of(old(egraph).uf@, k)]),
                self.wf(),
                ri <= self.rules@.len(),
                forall|i: int|
                    0 <= i < deferred@.len() ==> (#[trigger] deferred@[i]).0 < egraph.n_classes()
                        && deferred@[i].1 < egraph.n_classes(),
            decreases self.rules@.len() - ri,
        {
            let rule = &self.rules[ri];
            let matches1 = egraph.search_pat(&rule.lhs1);
            let mut m1: usize = 0;
            while m1 < matches1.len()
                invariant
                    egraph.clean(),
                    egraph.n_classes() >= old(egraph).n_classes(),
                    forall|k: int|
                        0 <= k < old(egraph).n_classes() ==> (#[trigger] egraph.analysis@[root_of(
                            egraph.uf@,
                            k,
                        )]).agrees_with(old(egraph).analysis@[root_of(old(egraph).uf@, k)]),
                    self.wf(),
                    ri < self.rules@.len(),
                    m1 <= matches1@.len(),
                    rule == self.rules@[ri as int],
                    forall|i: int|
                        0 <= i < matches1@.len() ==> (#[trigger] matches1@[i]).0
                            < egraph.n_classes() && matches1@[i].1@.len()
                            == self.rules@[ri as int].lhs1.n_vars && subst_wf(
                            matches1@[i].1@,
                            *egraph,
                        ),
                    forall|i: int|
                        0 <= i < deferred@.len() ==> (#[trigger] deferred@[i]).0 < egraph.n_classes()
                            && deferred@[i].1 < egraph.n_classes(),
                decreases matches1@.len() - m1,
            {
                let c1 = matches1[m1].0;
                // match the second premise under the first premise's bindings:
                // shared variables must agree
                let mut c2s: Vec<(usize, Vec<Option<usize>>)> = Vec::new();
                let mut c: usize = 0;
                while c < egraph.uf.len()
                    invariant
                        egraph.clean(),
                        egraph.n_classes() >= old(egraph).n_classes(),
                    forall|k: int|
                        0 <= k < old(egraph).n_classes() ==> (#[trigger] egraph.analysis@[root_of(
                            egraph.uf@,
                            k,
                        )]).agrees_with(old(egraph).analysis@[root_of(old(egraph).uf@, k)]),
                        self.wf(),
                        rule == self.rules@[ri as int],
                        ri < self.rules@.len(),
                        m1 < matches1@.len(),
                        matches1@[m1 as int].1@.len() == self.rules@[ri as int].lhs1.n_vars,
                        subst_wf(matches1@[m1 as int].1@, *egraph),
                        c <= egraph.n_classes(),
                        forall|i: int|
                            0 <= i < c2s@.len() ==> (#[trigger] c2s@[i]).0 < egraph.n_classes()
                                && c2s@[i].1@.len() == self.rules@[ri as int].lhs1.n_vars
                                && subst_wf(c2s@[i].1@, *egraph),
                    decreases egraph.n_classes() - c,
                {
                    if egraph.uf[c] == c {
                        let exts = egraph.match_pat(
                            &rule.lhs2,
                            rule.lhs2.nodes.len() - 1,
                            c,
                            &matches1[m1].1,
                        );
                        let mut e: usize = 0;
                        while e < exts.len()
                            invariant
                                egraph.clean(),
                                self.wf(),
                                ri < self.rules@.len(),
                                c < egraph.n_classes(),
                                e <= exts@.len(),
                                forall|i: int|
                                    0 <= i < exts@.len() ==> (#[trigger] exts@[i])@.len()
                                        == self.rules@[ri as int].lhs2.n_vars && subst_wf(
                                        exts@[i]@,
                                        *egraph,
                                    ),
                                forall|i: int|
                                    0 <= i < c2s@.len() ==> (#[trigger] c2s@[i]).0
                                        < egraph.n_classes() && c2s@[i].1@.len()
                                        == self.rules@[ri as int].lhs1.n_vars && subst_wf(
                                        c2s@[i].1@,
                                        *egraph,
                                    ),
                            decreases exts@.len() - e,
                        {
                            c2s.push((c, crate::pattern::clone_subst(&exts[e])));
                            e += 1;
                        }
                    }
                    c += 1;
                }
                // instantiate both outputs for every agreeing pair
                let mut pi: usize = 0;
                while pi < c2s.len()
                    invariant
                        egraph.clean(),
                        egraph.n_classes() >= old(egraph).n_classes(),
                    forall|k: int|
                        0 <= k < old(egraph).n_classes() ==> (#[trigger] egraph.analysis@[root_of(
                            egraph.uf@,
                            k,
                        )]).agrees_with(old(egraph).analysis@[root_of(old(egraph).uf@, k)]),
                        self.wf(),
                        ri < self.rules@.len(),
                        m1 < matches1@.len(),
                        c1 == matches1@[m1 as int].0,
                        c1 < egraph.n_classes(),
                        forall|i: int|
                            0 <= i < matches1@.len() ==> (#[trigger] matches1@[i]).0
                                < egraph.n_classes() && matches1@[i].1@.len()
                                == self.rules@[ri as int].lhs1.n_vars && subst_wf(
                                matches1@[i].1@,
                                *egraph,
                            ),
                        pi <= c2s@.len(),
                        forall|i: int|
                            0 <= i < c2s@.len() ==> (#[trigger] c2s@[i]).0 < egraph.n_classes()
                                && c2s@[i].1@.len() == self.rules@[ri as int].lhs1.n_vars
                                && subst_wf(c2s@[i].1@, *egraph),
                        forall|i: int|
                            0 <= i < deferred@.len() ==> (#[trigger] deferred@[i]).0 < egraph.n_classes()
                                && deferred@[i].1 < egraph.n_classes(),
                    decreases c2s@.len() - pi,
                {
                    let c2 = c2s[pi].0;
                    let skip_sym = self.rules[ri].symmetric && c2 < c1;
                    if !skip_sym {
                        let ghost pre = *egraph;
                        let r1 = match egraph.instantiate(&self.rules[ri].rhs1, &c2s[pi].1) {
                            Ok(c) => c,
                            Err(e) => {
                                return Err(e);
                            },
                        };
                        let ghost pre2 = *egraph;
                        let r2 = match egraph.instantiate(&self.rules[ri].rhs2, &c2s[pi].1) {
                            Ok(c) => c,
                            Err(e) => {
                                return Err(e);
                            },
                        };
                        proof {
                            assert forall|i: int| 0 <= i < c2s@.len() implies subst_wf(
                                (#[trigger] c2s@[i]).1@,
                                *egraph,
                            ) by {
                                assert(subst_wf(c2s@[i].1@, pre));
                                assert(subst_wf(c2s@[i].1@, pre2));
                            }
                            assert forall|i: int| 0 <= i < matches1@.len() implies subst_wf(
                                (#[trigger] matches1@[i]).1@,
                                *egraph,
                            ) by {
                                assert(subst_wf(matches1@[i].1@, pre));
                                assert(subst_wf(matches1@[i].1@, pre2));
                            }
                            assert forall|k: int| 0 <= k < old(egraph).n_classes() implies (
                            #[trigger] egraph.analysis@[root_of(egraph.uf@, k)]).agrees_with(
                                old(egraph).analysis@[root_of(old(egraph).uf@, k)],
                            ) by {
                                crate::egraph::lemma_root_of_root(pre.uf@, k);
                                crate::egraph::lemma_root_of_root(pre2.uf@, k);
                                assert(root_of(pre2.uf@, k) == root_of(pre.uf@, k));
                                assert(pre2.analysis@[root_of(pre.uf@, k)] == pre.analysis@[
                                    root_of(pre.uf@, k)]);
                                assert(root_of(egraph.uf@, k) == root_of(pre2.uf@, k));
                                assert(egraph.analysis@[root_of(pre2.uf@, k)] == pre2.analysis@[
                                    root_of(pre2.uf@, k)]);
                                crate::model::lemma_agrees_transitive(
                                    egraph.analysis@[root_of(egraph.uf@, k)],
                                    pre.analysis@[root_of(pre.uf@, k)],
                                    old(egraph).analysis@[root_of(old(egraph).uf@, k)],
                                );
                            }
                        }
                        deferred.push((c1, r1));
                        deferred.push((c2, r2));
                    }
                    pi += 1;
                }
                m1 += 1;
            }
            ri += 1;
        }
        // transactional union batch, then rebuild
        let mut changed: usize = 0;
        let mut ti: usize = 0;
        while ti < deferred.len()
            invariant
                self.wf(),
                egraph.wf(),
                egraph.n_classes() >= old(egraph).n_classes(),
            forall|k: int|
                0 <= k < old(egraph).n_classes() ==> (#[trigger] egraph.analysis@[root_of(
                    egraph.uf@,
                    k,
                )]).agrees_with(old(egraph).analysis@[root_of(old(egraph).uf@, k)]),
                ti <= deferred@.len(),
                changed <= ti,
                forall|i: int|
                    0 <= i < deferred@.len() ==> (#[trigger] deferred@[i]).0 < egraph.n_classes()
                        && deferred@[i].1 < egraph.n_classes(),
            decreases deferred@.len() - ti,
        {
            let (a, b) = deferred[ti];
            let skip = self.no_cycle && egraph.would_create_cycle(a, b);
            if !skip {
                let ghost pre = *egraph;
                match egraph.union(a, b) {
                    Ok((_, ch)) => {
                        proof {
                            assert forall|k: int| 0 <= k < old(egraph).n_classes() implies (
                            #[trigger] egraph.analysis@[root_of(egraph.uf@, k)]).agrees_with(
                                old(egraph).analysis@[root_of(old(egraph).uf@, k)],
                            ) by {
                                crate::model::lemma_agrees_transitive(
                                    egraph.analysis@[root_of(egraph.uf@, k)],
                                    pre.analysis@[root_of(pre.uf@, k)],
                                    old(egraph).analysis@[root_of(old(egraph).uf@, k)],
                                );
                            }
                        }
                        if ch {
                            changed += 1;
                        }
                    },
                    Err(e) => {
                        return Err(e);
                    },
                }
            }
            ti += 1;
        }
        let ghost pre_rebuild = *egraph;
        match egraph.rebuild() {
            Ok(()) => {
                proof {
                    assert forall|k: int| 0 <= k < old(egraph).n_classes() implies (
                    #[trigger] egraph.analysis@[root_of(egraph.uf@, k)]).agrees_with(
                        old(egraph).analysis@[root_of(old(egraph).uf@, k)],
                    ) by {
                        crate::model::lemma_agrees_transitive(
                            egraph.analysis@[root_of(egraph.uf@, k)],
                            pre_rebuild.analysis@[root_of(pre_rebuild.uf@, k)],
                            old(egraph).analysis@[root_of(old(egraph).uf@, k)],
                        );
                    }
                }
                Ok(changed)
            },
            Err(e) => Err(e),
        }
    }
}

} // verus!
