//! Rewrite rules: the `name ; LHS => RHS` surface syntax, the built-in rule
//! table, conditional rewrites, and the cycle filters that keep extraction
//! acyclic.
use vstd::prelude::*;

use crate::egraph::{is_root, root_of, EGraph};
use crate::model::{EggError, OpKind};
use crate::analysis::{class_has_num, class_has_vec, get_vec_of_nums};
use crate::pattern::{PatNode, Pattern};

verus! {

/// A condition gating a rewrite's application.
pub enum RuleCond {
    Always,
    /// The class bound to this pattern variable must hold a strictly
    /// decreasing permutation list.
    DecreasingPerm(usize),
}

/// A rewrite rule: matching the left side induces a union with the
/// instantiated right side, when the condition holds.
pub struct Rewrite {
    pub name: String,
    pub lhs: Pattern,
    pub rhs: Pattern,
    pub cond: RuleCond,
}

impl Rewrite {
    pub open spec fn wf(self) -> bool {
        &&& self.lhs.wf()
        &&& self.rhs.wf()
        &&& self.lhs.n_vars == self.rhs.n_vars
        &&& match self.cond {
            RuleCond::Always => true,
            RuleCond::DecreasingPerm(v) => v < self.lhs.n_vars,
        }
    }
}

/// A composite rewrite that fires only when both premises match with shared
/// variable bindings; each output is unioned with its premise's match.
pub struct MultiRule {
    pub name: String,
    pub lhs1: Pattern,
    pub lhs2: Pattern,
    pub rhs1: Pattern,
    pub rhs2: Pattern,
    pub symmetric: bool,
}

impl MultiRule {
    pub open spec fn wf(self) -> bool {
        &&& self.lhs1.wf()
        &&& self.lhs2.wf()
        &&& self.rhs1.wf()
        &&& self.rhs2.wf()
        &&& self.lhs1.n_vars == self.lhs2.n_vars
        &&& self.lhs1.n_vars == self.rhs1.n_vars
        &&& self.lhs1.n_vars == self.rhs2.n_vars
    }
}

/// Exact character-wise equality of two strings.
pub fn str_eq(a: &str, b: &str) -> (r: bool)
    ensures
        r <==> a@ =~= b@,
{
    let na = a.unicode_len();
    let nb = b.unicode_len();
    if na != nb {
        return false;
    }
    let mut i: usize = 0;
    while i < na
        invariant
            na == a@.len(),
            na == b@.len(),
            i <= na,
            forall|j: int| 0 <= j < i ==> a@[j] == b@[j],
        decreases na - i,
    {
        if a.get_char(i) != b.get_char(i) {
            return false;
        }
        i += 1;
    }
    true
}

/// The operator named by a surface-syntax symbol.
pub fn op_from_name(s: &str) -> (r: Option<OpKind>)
{
    if str_eq(s, "Input") {
        Some(OpKind::Input)
    } else if str_eq(s, "Vec") {
        Some(OpKind::VecOp)
    } else if str_eq(s, "ConstantOp") {
        Some(OpKind::ConstantOp)
    } else if str_eq(s, "ReshapeOp") {
        Some(OpKind::ReshapeOp)
    } else if str_eq(s, "ConcatenateOp") {
        Some(OpKind::ConcatenateOp)
    } else if str_eq(s, "DotGeneralOp") {
        Some(OpKind::DotGeneralOp)
    } else if str_eq(s, "TransposeOp") {
        Some(OpKind::TransposeOp)
    } else if str_eq(s, "MulOp") {
        Some(OpKind::MulOp)
    } else if str_eq(s, "AddOp") {
        Some(OpKind::AddOp)
    } else if str_eq(s, "DivOp") {
        Some(OpKind::DivOp)
    } else if str_eq(s, "SubtractOp") {
        Some(OpKind::SubtractOp)
    } else if str_eq(s, "MinOp") {
        Some(OpKind::MinOp)
    } else if str_eq(s, "MaxOp") {
        Some(OpKind::MaxOp)
    } else if str_eq(s, "NegOp") {
        Some(OpKind::NegOp)
    } else if str_eq(s, "TanhOp") {
        Some(OpKind::TanhOp)
    } else if str_eq(s, "ExpOp") {
        Some(OpKind::ExpOp)
    } else if str_eq(s, "IotaOp") {
        Some(OpKind::IotaOp)
    } else if str_eq(s, "CompareOp") {
        Some(OpKind::CompareOp)
    } else if str_eq(s, "BroadcastInDimOp") {
        Some(OpKind::BroadcastInDimOp)
    } else if str_eq(s, "ConvertOp") {
        Some(OpKind::ConvertOp)
    } else if str_eq(s, "ReduceOp") {
        Some(OpKind::ReduceOp)
    } else if str_eq(s, "GatherOp") {
        Some(OpKind::GatherOp)
    } else if str_eq(s, "SelectOp") {
        Some(OpKind::SelectOp)
    } else if str_eq(s, "PadOp") {
        Some(OpKind::PadOp)
    } else if str_eq(s, "SliceOp") {
        Some(OpKind::SliceOp)
    } else if str_eq(s, "DynamicUpdateSliceOp") {
        Some(OpKind::DynamicUpdateSliceOp)
    } else if str_eq(s, "DynamicSliceOp") {
        Some(OpKind::DynamicSliceOp)
    } else if str_eq(s, "ScatterOp") {
        Some(OpKind::ScatterOp)
    } else if str_eq(s, "blackbox") {
        Some(OpKind::BlackBox)
    } else {
        None
    }
}

pub open spec fn is_space(c: char) -> bool {
    c == ' ' || c == '\t' || c == '\r'
}

fn skip_spaces(s: &str, pos: usize) -> (r: usize)
    requires
        pos <= s@.len(),
    ensures
        pos <= r <= s@.len(),
        r < s@.len() ==> !is_space(s@[r as int]),
        forall|j: int| pos <= j < r ==> is_space(#[trigger] s@[j]),
{
    let n = s.unicode_len();
    let mut p = pos;
    while p < n
        invariant
            n == s@.len(),
            pos <= p <= n,
            forall|j: int| pos <= j < p ==> is_space(#[trigger] s@[j]),
        decreases n - p,
    {
        let c = s.get_char(p);
        if c == ' ' || c == '\t' || c == '\r' {
            p += 1;
        } else {
            return p;
        }
    }
    p
}

/// Reads one symbol token (a maximal run of non-delimiter characters).
fn read_symbol(s: &str, pos: usize) -> (r: (String, usize))
    requires
        pos <= s@.len(),
    ensures
        pos <= r.1 <= s@.len(),
        r.0@.len() == r.1 - pos,
{
    let n = s.unicode_len();
    let mut p = pos;
    while p < n
        invariant
            n == s@.len(),
            pos <= p <= n,
        decreases n - p,
    {
        let c = s.get_char(p);
        if c == ' ' || c == '\t' || c == '\r' || c == '(' || c == ')' || c == ';' {
            let tok = String::from_str(s.substring_char(pos, p));
            return (tok, p);
        }
        p += 1;
    }
    let tok = String::from_str(s.substring_char(pos, p));
    (tok, p)
}

/// Parses a symbol as a decimal integer literal, if it is one.
fn parse_int_symbol(tok: &str) -> (r: Option<i32>)
{
    let n = tok.unicode_len();
    if n == 0 {
        return None;
    }
    let neg = tok.get_char(0) == '-';
    let start: usize = if neg {
        1
    } else {
        0
    };
    if start >= n {
        return None;
    }
    let mut val: i64 = 0;
    let mut i = start;
    while i < n
        invariant
            n == tok@.len(),
            start <= i <= n,
            0 <= val <= i32::MAX as i64 + 1,
        decreases n - i,
    {
        let c = tok.get_char(i);
        if c < '0' || c > '9' {
            return None;
        }
        let d = (c as u32) - ('0' as u32);
        if val > 214748364i64 {
            return None;
        }
        val = val * 10 + (d as i64);
        if val > i32::MAX as i64 + 1 {
            return None;
        }
        i += 1;
    }
    if neg {
        if val > i32::MAX as i64 + 1 {
            return None;
        }
        let v: i64 = -val;
        if v < i32::MIN as i64 {
            return None;
        }
        Some(v as i32)
    } else {
        if val > i32::MAX as i64 {
            return None;
        }
        Some(val as i32)
    }
}

/// Finds or introduces a pattern variable named `name`.
fn var_index(vars: &mut Vec<String>, name: &str) -> (r: usize)
    ensures
        final(vars)@.len() >= old(vars)@.len(),
        r < final(vars)@.len(),
{
    let mut i: usize = 0;
    while i < vars.len()
        invariant
            i <= vars@.len(),
            *vars == *old(vars),
        decreases vars@.len() - i,
    {
        if str_eq(vars[i].as_str(), name) {
            return i;
        }
        i += 1;
    }
    vars.push(String::from_str(name));
    vars.len() - 1
}

/// Parses one term of the surface syntax `(Op child1 ... childN)`, `?var`,
/// or an integer literal, appending its nodes to `nodes` bottom-up.
///
/// Returns the index of the term's node and the next read position. The
/// appended nodes keep the pattern well-formed: children point backwards and
/// variables stay within the table.
fn parse_term(s: &str, pos: usize, nodes: &mut Vec<PatNode>, vars: &mut Vec<String>) -> (r: Result<
    (usize, usize),
    EggError,
>)
    requires
        pos <= s@.len(),
        pat_nodes_wf(old(nodes)@, old(vars)@.len() as int),
    ensures
        final(vars)@.len() >= old(vars)@.len(),
        final(nodes)@.len() >= old(nodes)@.len(),
        pat_nodes_wf(final(nodes)@, final(vars)@.len() as int),
        r matches Ok((idx, p2)) ==> idx < final(nodes)@.len() && pos < p2 <= s@.len(),
        r is Err ==> r->Err_0 == EggError::MalformedRule,
    decreases s@.len() - pos,
{
    let n = s.unicode_len();
    let p = skip_spaces(s, pos);
    if p >= n {
        return Err(EggError::MalformedRule);
    }
    let c = s.get_char(p);
    if c == '(' {
        let (opname, p2) = read_symbol(s, p + 1);
        if p2 == p + 1 {
            return Err(EggError::MalformedRule);
        }
        let op = match op_from_name(opname.as_str()) {
            Some(op) => op,
            None => {
                return Err(EggError::MalformedRule);
            },
        };
        let mut children: Vec<usize> = Vec::new();
        let mut cur = p2;
        loop
            invariant
                n == s@.len(),
                pos < cur <= n,
                pat_nodes_wf(nodes@, vars@.len() as int),
                vars@.len() >= old(vars)@.len(),
                nodes@.len() >= old(nodes)@.len(),
                forall|j: int| 0 <= j < children@.len() ==> #[trigger] children@[j] < nodes@.len(),
            decreases n - cur,
        {
            let q = skip_spaces(s, cur);
            if q >= n {
                return Err(EggError::MalformedRule);
            }
            if s.get_char(q) == ')' {
                let idx = nodes.len();
                nodes.push(PatNode::Op(op, 0, children));
                return Ok((idx, q + 1));
            }
            if q == cur && cur != p2 {
                // no progress without a separator: malformed
                return Err(EggError::MalformedRule);
            }
            let (cidx, cpos) = match parse_term(s, q, nodes, vars) {
                Ok(rr) => rr,
                Err(e) => {
                    return Err(e);
                },
            };
            children.push(cidx);
            cur = cpos;
        }
    } else if c == ')' {
        Err(EggError::MalformedRule)
    } else if c == '?' {
        let (name, p2) = read_symbol(s, p + 1);
        if p2 == p + 1 {
            return Err(EggError::MalformedRule);
        }
        let v = var_index(vars, name.as_str());
        let idx = nodes.len();
        nodes.push(PatNode::Var(v));
        Ok((idx, p2))
    } else {
        let (tok, p2) = read_symbol(s, p);
        if p2 == p {
            return Err(EggError::MalformedRule);
        }
        match parse_int_symbol(tok.as_str()) {
            Some(v) => {
                let idx = nodes.len();
                nodes.push(PatNode::Op(OpKind::Num, v, Vec::new()));
                Ok((idx, p2))
            },
            None => Err(EggError::MalformedRule),
        }
    }
}

/// Pattern nodes over a variable table: children point strictly backwards,
/// variables are in range.
pub open spec fn pat_nodes_wf(nodes: Seq<PatNode>, n_vars: int) -> bool {
    forall|t: int|
        0 <= t < nodes.len() ==> match #[trigger] nodes[t] {
            PatNode::Var(v) => v < n_vars,
            PatNode::Op(_, _, ch) => forall|j: int| 0 <= j < ch@.len() ==> #[trigger] ch@[j] < t,
        }
}

/// Parses one side of a rule into a pattern over a shared variable table.
fn parse_side(s: &str, vars: &mut Vec<String>) -> (r: Result<Vec<PatNode>, EggError>)
    ensures
        final(vars)@.len() >= old(vars)@.len(),
        r matches Ok(nodes) ==> nodes@.len() > 0 && pat_nodes_wf(nodes@, final(vars)@.len() as int),
        r is Err ==> r->Err_0 == EggError::MalformedRule,
{
    let mut nodes: Vec<PatNode> = Vec::new();
    let (root, p) = match parse_term(s, 0, &mut nodes, vars) {
        Ok(rr) => rr,
        Err(e) => {
            return Err(e);
        },
    };
    let q = skip_spaces(s, p);
    if q != s.unicode_len() {
        return Err(EggError::MalformedRule);
    }
    if root != nodes.len() - 1 {
        return Err(EggError::MalformedRule);
    }
    Ok(nodes)
}

/// Splits `line` at the first occurrence of `sep`, which must not recur.
fn split_once_str(line: &str, sep: char) -> (r: Option<(String, String)>)
{
    let n = line.unicode_len();
    let mut at: usize = n;
    let mut i: usize = 0;
    while i < n
        invariant
            n == line@.len(),
            i <= n,
            at == n || at < i,
        decreases n - i,
    {
        if at == n && line.get_char(i) == sep {
            at = i;
        }
        i += 1;
    }
    if at == n {
        return None;
    }
    let left = line.substring_char(0, at);
    let right = line.substring_char(at + 1, n);
    Some((String::from_str(left), String::from_str(right)))
}

/// Splits a rule body at the `=>` arrow.
fn split_arrow(s: &str) -> (r: Option<(String, String)>)
{
    let n = s.unicode_len();
    if n < 2 {
        return None;
    }
    let mut i: usize = 0;
    while i < n - 1
        invariant
            n == s@.len(),
            2 <= n,
            i <= n - 1,
        decreases n - i,
    {
        if s.get_char(i) == '=' && s.get_char(i + 1) == '>' {
            let left = s.substring_char(0, i);
            let right = s.substring_char(i + 2, n);
            return Some((String::from_str(left), String::from_str(right)));
        }
        i += 1;
    }
    None
}

/// Parses one `name ; LHS => RHS` line.
///
/// Fails with `MalformedRule` when the line does not follow the format, an
/// operator name is unknown, or the right side introduces a variable the
/// left side does not bind.
pub fn parse_rule(line: &str) -> (r: Result<Rewrite, EggError>)
    ensures
        r matches Ok(rule) ==> rule.wf(),
        r is Err ==> r->Err_0 == EggError::MalformedRule,
{
    let (name, body) = match split_once_str(line, ';') {
        Some(nb) => nb,
        None => {
            return Err(EggError::MalformedRule);
        },
    };
    let (lhs_text, rhs_text) = match split_arrow(body.as_str()) {
        Some(lr) => lr,
        None => {
            return Err(EggError::MalformedRule);
        },
    };
    let mut vars: Vec<String> = Vec::new();
    let lhs_nodes = match parse_side(lhs_text.as_str(), &mut vars) {
        Ok(nodes) => nodes,
        Err(e) => {
            return Err(e);
        },
    };
    let n_lhs_vars = vars.len();
    let rhs_nodes = match parse_side(rhs_text.as_str(), &mut vars) {
        Ok(nodes) => nodes,
        Err(e) => {
            return Err(e);
        },
    };
    if vars.len() != n_lhs_vars {
        // the right side uses a variable the left side does not bind
        return Err(EggError::MalformedRule);
    }
    let n_vars = vars.len();
    Ok(
        Rewrite {
            name,
            lhs: Pattern { nodes: lhs_nodes, n_vars },
            rhs: Pattern { nodes: rhs_nodes, n_vars },
            cond: RuleCond::Always,
        },
    )
}

/// A rule-file line the parser must accept: neither blank nor a comment.
pub open spec fn is_active_line(line: Seq<char>) -> bool {
    exists|j: int|
        0 <= j < line.len() && !is_space(#[trigger] line[j]) && (forall|j2: int|
            0 <= j2 < j ==> is_space(#[trigger] line[j2])) && line[j] != '#'
}

/// Number of active lines among the first `n`.
pub open spec fn active_line_count(lines: Seq<String>, n: int) -> int
    decreases n,
{
    if n <= 0 {
        0
    } else {
        active_line_count(lines, n - 1) + if is_active_line(lines[n - 1]@) {
            1int
        } else {
            0int
        }
    }
}

/// Builds the rule set from rule-file lines. Blank lines and lines starting
/// with `#` are skipped; each active line must parse, so a malformed
/// non-blank non-comment line is a fatal configuration error and success
/// carries exactly one rule per active line.
pub fn rules_from_str(lines: &Vec<String>, filter_after: bool) -> (r: Result<Vec<Rewrite>, EggError>)
    ensures
        r matches Ok(rules) ==> (forall|i: int|
            0 <= i < rules@.len() ==> (#[trigger] rules@[i]).wf()) && rules@.len()
            == active_line_count(lines@, lines@.len() as int),
        r is Err ==> r->Err_0 == EggError::MalformedRule,
{
    let _ = filter_after;
    let mut rules: Vec<Rewrite> = Vec::new();
    let mut i: usize = 0;
    while i < lines.len()
        invariant
            i <= lines@.len(),
            forall|j: int| 0 <= j < rules@.len() ==> (#[trigger] rules@[j]).wf(),
            rules@.len() == active_line_count(lines@, i as int),
        decreases lines@.len() - i,
    {
        let line = lines[i].as_str();
        let p = skip_spaces(line, 0);
        let n = line.unicode_len();
        let blank = p >= n;
        let comment = if blank {
            false
        } else {
            line.get_char(p) == '#'
        };
        proof {
            let lv = lines@[i as int]@;
            if blank {
                assert(!is_active_line(lv)) by {
                    if is_active_line(lv) {
                        let j = choose|j: int|
                            0 <= j < lv.len() && !is_space(#[trigger] lv[j]) && (forall|j2: int|
                                0 <= j2 < j ==> is_space(#[trigger] lv[j2])) && lv[j] != '#';
                        assert(is_space(lv[j]));
                    }
                }
            } else if comment {
                assert(!is_active_line(lv)) by {
                    if is_active_line(lv) {
                        let j = choose|j: int|
                            0 <= j < lv.len() && !is_space(#[trigger] lv[j]) && (forall|j2: int|
                                0 <= j2 < j ==> is_space(#[trigger] lv[j2])) && lv[j] != '#';
                        if j < p as int {
                            assert(is_space(lv[j]));
                        } else if j > p as int {
                            assert(is_space(lv[p as int]));
                        }
                        assert(j == p as int);
                        assert(lv[j] == '#');
                    }
                }
            } else {
                assert(is_active_line(lv)) by {
                    assert(0 <= (p as int) && (p as int) < lv.len() && !is_space(lv[p as int]) && (
                    forall|j2: int|
                        0 <= j2 < p as int ==> is_space(#[trigger] lv[j2])) && lv[p as int] != '#');
                }
            }
        }
        if !blank && !comment {
            match parse_rule(line) {
                Ok(rule) => {
                    rules.push(rule);
                },
                Err(e) => {
                    return Err(e);
                },
            }
        }
        i += 1;
    }
    Ok(rules)
}

/// A dimension list is strictly decreasing.
pub open spec fn strictly_decreasing(s: Seq<i32>) -> bool {
    forall|i: int| 0 <= i < s.len() - 1 ==> #[trigger] s[i] > s[i + 1]
}

fn is_strictly_decreasing(v: &Vec<i32>) -> (r: bool)
    ensures
        r <==> strictly_decreasing(v@),
{
    let mut i: usize = 0;
    if v.len() <= 1 {
        return true;
    }
    while i < v.len() - 1
        invariant
            v@.len() >= 1,
            i <= v@.len() - 1,
            forall|j: int| 0 <= j < i ==> #[trigger] v@[j] > v@[j + 1],
        decreases v@.len() - i,
    {
        if v[i] <= v[i + 1] {
            return false;
        }
        i += 1;
    }
    true
}

/// The condition of the `transpose-of-transpose` rewrite: the class bound to
/// the permutation variable holds a strictly decreasing list, meaning both
/// transposes cancel.
pub fn decreasing_perm(egraph: &EGraph, id: usize) -> (r: bool)
    requires
        egraph.wf(),
        id < egraph.n_classes(),
    ensures
        // the class holds a list whose decoded values strictly decrease
        r ==> exists|ids: Seq<usize>, vals: Seq<i32>|
            #![auto]
            class_has_vec(*egraph, id as int, ids) && ids.len() == vals.len() && (forall|j: int|
                0 <= j < vals.len() ==> class_has_num(*egraph, ids[j] as int, vals[j]))
                && strictly_decreasing(vals),
{
    match get_vec_of_nums(egraph, id) {
        Some(v) => is_strictly_decreasing(&v),
        None => false,
    }
}

/// Whether the rule's condition holds of this substitution.
pub fn cond_holds(egraph: &EGraph, cond: &RuleCond, subst: &Vec<Option<usize>>) -> (r: bool)
    requires
        egraph.wf(),
    ensures
        matches!(cond, RuleCond::Always) ==> r,
{
    match cond {
        RuleCond::Always => true,
        RuleCond::DecreasingPerm(v) => {
            if *v >= subst.len() {
                return false;
            }
            match subst[*v] {
                Some(c) => {
                    if c < egraph.uf.len() {
                        decreasing_perm(egraph, c)
                    } else {
                        false
                    }
                },
                None => false,
            }
        },
    }
}

/// The built-in rewrite table: commutativity of the elementwise operators.
pub fn pre_defined_rules() -> (r: Vec<String>)
{
    let mut v: Vec<String> = Vec::new();
    v.push(String::from_str("ewadd-comm ; (AddOp ?x ?y) => (AddOp ?y ?x)"));
    v.push(String::from_str("ewmul-comm ; (MulOp ?x ?y) => (MulOp ?y ?x)"));
    v
}

/// The built-in multi-pattern table: fusing two multiplications that share a
/// factor into a multiplication of the shared factor by a sum.
pub fn pre_defined_multi() -> (r: Vec<String>)
{
    let mut v: Vec<String> = Vec::new();
    v.push(
        String::from_str(
            "fuse-mul ; (MulOp ?x ?y) , (MulOp ?x ?z) => (MulOp ?x (AddOp ?y ?z)) , (MulOp ?x (AddOp ?y ?z))",
        ),
    );
    v
}

/// Parses one multi-pattern line: `name ; LHS1 , LHS2 => RHS1 , RHS2`.
pub fn parse_multi_rule(line: &str, symmetric: bool) -> (r: Result<MultiRule, EggError>)
    ensures
        r matches Ok(rule) ==> rule.wf(),
        r is Err ==> r->Err_0 == EggError::MalformedRule,
{
    let (name, body) = match split_once_str(line, ';') {
        Some(nb) => nb,
        None => {
            return Err(EggError::MalformedRule);
        },
    };
    let (lhs_text, rhs_text) = match split_arrow(body.as_str()) {
        Some(lr) => lr,
        None => {
            return Err(EggError::MalformedRule);
        },
    };
    let (l1, l2) = match split_once_str(lhs_text.as_str(), ',') {
        Some(ll) => ll,
        None => {
            return Err(EggError::MalformedRule);
        },
    };
    let (r1, r2) = match split_once_str(rhs_text.as_str(), ',') {
        Some(rr) => rr,
        None => {
            return Err(EggError::MalformedRule);
        },
    };
    let mut vars: Vec<String> = Vec::new();
    let l1n = match parse_side(l1.as_str(), &mut vars) {
        Ok(nodes) => nodes,
        Err(e) => {
            return Err(e);
        },
    };
    let l2n = match parse_side(l2.as_str(), &mut vars) {
        Ok(nodes) => nodes,
        Err(e) => {
            return Err(e);
        },
    };
    let n_lhs_vars = vars.len();
    let r1n = match parse_side(r1.as_str(), &mut vars) {
        Ok(nodes) => nodes,
        Err(e) => {
            return Err(e);
        },
    };
    let r2n = match parse_side(r2.as_str(), &mut vars) {
        Ok(nodes) => nodes,
        Err(e) => {
            return Err(e);
        },
    };
    if vars.len() != n_lhs_vars {
        return Err(EggError::MalformedRule);
    }
    let n_vars = vars.len();
    Ok(
        MultiRule {
            name,
            lhs1: Pattern { nodes: l1n, n_vars },
            lhs2: Pattern { nodes: l2n, n_vars },
            rhs1: Pattern { nodes: r1n, n_vars },
            rhs2: Pattern { nodes: r2n, n_vars },
            symmetric,
        },
    )
}

/// A non-blacklisted node's children all live in classes ordered strictly
/// before its own class: any selection of such nodes is acyclic.
pub open spec fn node_respects_order(g: EGraph, order: Seq<Option<usize>>, k: int) -> bool {
    &&& order[root_of(g.uf@, g.owner@[k] as int)] is Some
    &&& forall|j: int|
        0 <= j < g.nodes@[k].children@.len() ==> {
            let co = order[root_of(g.uf@, #[trigger] g.nodes@[k].children@[j] as int)];
            co is Some && co->0 < order[root_of(g.uf@, g.owner@[k] as int)]->0
        }
}

impl EGraph {
    /// Whether merging the classes of `a` and `b` would let the merged class
    /// reach itself through some node's children. Used as the online cycle
    /// filter; answers `true` conservatively when its work budget runs out.
    pub fn would_create_cycle(&self, a: usize, b: usize) -> (r: bool)
        requires
            self.wf(),
            a < self.n_classes(),
            b < self.n_classes(),
    {
        let ra = self.find(a);
        let rb = self.find(b);
        let n = self.uf.len();
        let mut visited: Vec<bool> = Vec::new();
        let mut i: usize = 0;
        while i < n
            invariant
                i <= n,
                visited@.len() == i,
            decreases n - i,
        {
            visited.push(false);
            i += 1;
        }
        visited[ra] = true;
        visited[rb] = true;
        let mut stack: Vec<usize> = Vec::new();
        stack.push(ra);
        stack.push(rb);
        let mut fuel: usize = n;
        while stack.len() > 0 && fuel > 0
            invariant
                self.wf(),
                visited@.len() == self.n_classes(),
                ra < self.n_classes(),
                rb < self.n_classes(),
                forall|i2: int| 0 <= i2 < stack@.len() ==> #[trigger] stack@[i2] < self.n_classes(),
            decreases fuel,
        {
            fuel -= 1;
            let c = stack[stack.len() - 1];
            stack.pop();
            let mut k: usize = 0;
            while k < self.nodes.len()
                invariant
                    self.wf(),
                    visited@.len() == self.n_classes(),
                    ra < self.n_classes(),
                    rb < self.n_classes(),
                    c < self.n_classes(),
                    k <= self.nodes@.len(),
                    forall|i2: int|
                        0 <= i2 < stack@.len() ==> #[trigger] stack@[i2] < self.n_classes(),
                decreases self.nodes@.len() - k,
            {
                if self.find(self.owner[k]) == c {
                    let node = &self.nodes[k];
                    let mut j: usize = 0;
                    while j < node.children.len()
                        invariant
                            self.wf(),
                            visited@.len() == self.n_classes(),
                            ra < self.n_classes(),
                            rb < self.n_classes(),
                            k < self.nodes@.len(),
                            node == self.nodes@[k as int],
                            j <= node.children@.len(),
                            forall|i2: int|
                                0 <= i2 < stack@.len() ==> #[trigger] stack@[i2]
                                    < self.n_classes(),
                        decreases node.children@.len() - j,
                    {
                        let rc0 = self.find(node.children[j]);
                        let rc = if rc0 == rb {
                            ra
                        } else {
                            rc0
                        };
                        if rc == ra || rc == rb {
                            return true;
                        }
                        if !visited[rc] {
                            visited[rc] = true;
                            stack.push(rc);
                        }
                        j += 1;
                    }
                }
                k += 1;
            }
        }
        if stack.len() > 0 {
            // budget exhausted: refuse the merge conservatively
            return true;
        }
        false
    }

    /// The offline cycle filter: orders the classes topologically as far as
    /// possible and blacklists every node that does not respect the order,
    /// so that the nodes left for extraction form an acyclic subgraph.
    /// Blacklist flags only turn on.
    pub fn remove_cycle_by_order(&mut self) -> (order: Vec<Option<usize>>)
        requires
            old(self).wf(),
        ensures
            final(self).wf(),
            final(self).uf@ == old(self).uf@,
            final(self).nodes@ == old(self).nodes@,
            final(self).owner@ == old(self).owner@,
            final(self).analysis@ == old(self).analysis@,
            final(self).symbols@ == old(self).symbols@,
            old(self).clean() ==> final(self).clean(),
            final(self).node_blacklist@.len() == old(self).node_blacklist@.len(),
            forall|k: int|
                0 <= k < old(self).node_blacklist@.len() && old(self).node_blacklist@[k]
                    ==> final(self).node_blacklist@[k],
            order@.len() == old(self).n_classes(),
            forall|k: int|
                0 <= k < final(self).nodes@.len() && !final(self).node_blacklist@[k]
                    ==> node_respects_order(*final(self), order@, k),
    {
        let n = self.uf.len();
        let mut order: Vec<Option<usize>> = Vec::new();
        let mut i: usize = 0;
        while i < n
            invariant
                i <= n,
                order@.len() == i,
            decreases n - i,
        {
            order.push(None);
            i += 1;
        }
        let mut next: usize = 0;
        let mut pass: usize = 0;
        while pass < n
            invariant
                self.wf(),
                *self == *old(self),
                n == self.n_classes(),
                order@.len() == n,
                next <= n,
            decreases n - pass,
        {
            let mut assigned: bool = false;
            let mut c: usize = 0;
            while c < n
                invariant
                    self.wf(),
                    *self == *old(self),
                    n == self.n_classes(),
                    order@.len() == n,
                    c <= n,
                    next <= n,
                decreases n - c,
            {
                let is_unordered = matches!(order[c], None);
                if self.uf[c] == c && is_unordered {
                    // the class is ordered once some node has all children ordered
                    let mut k: usize = 0;
                    let mut ok: bool = false;
                    while k < self.nodes.len()
                        invariant
                            self.wf(),
                            n == self.n_classes(),
                            order@.len() == n,
                            c < n,
                            k <= self.nodes@.len(),
                        decreases self.nodes@.len() - k,
                    {
                        if !ok && self.find(self.owner[k]) == c {
                            let node = &self.nodes[k];
                            let mut j: usize = 0;
                            let mut all_ordered: bool = true;
                            while j < node.children.len()
                                invariant
                                    self.wf(),
                                    n == self.n_classes(),
                                    order@.len() == n,
                                    k < self.nodes@.len(),
                                    node == self.nodes@[k as int],
                                    j <= node.children@.len(),
                                decreases node.children@.len() - j,
                            {
                                let rc = self.find(node.children[j]);
                                if matches!(order[rc], None) {
                                    all_ordered = false;
                                }
                                j += 1;
                            }
                            if all_ordered {
                                ok = true;
                            }
                        }
                        k += 1;
                    }
                    if ok && next < n {
                        order[c] = Some(next);
                        next += 1;
                        assigned = true;
                    }
                }
                c += 1;
            }
            if !assigned {
                break ;
            }
            pass += 1;
        }
        // blacklist every node that does not respect the order
        let mut k: usize = 0;
        while k < self.nodes.len()
            invariant
                self.wf(),
                n == self.n_classes(),
                order@.len() == n,
                self.uf@ == old(self).uf@,
                self.nodes@ == old(self).nodes@,
                self.owner@ == old(self).owner@,
                self.analysis@ == old(self).analysis@,
                self.symbols@ == old(self).symbols@,
                self.node_blacklist@.len() == old(self).node_blacklist@.len(),
                old(self).clean() ==> self.clean(),
                k <= self.nodes@.len(),
                forall|k2: int|
                    0 <= k2 < self.node_blacklist@.len() && old(self).node_blacklist@[k2]
                        ==> self.node_blacklist@[k2],
                forall|k2: int|
                    0 <= k2 < k && !self.node_blacklist@[k2] ==> node_respects_order(
                        *self,
                        order@,
                        k2,
                    ),
            decreases self.nodes@.len() - k,
        {
            let oc = self.find(self.owner[k]);
            let mut bad: bool = matches!(order[oc], None);
            let own_pos: usize = match order[oc] {
                Some(p) => p,
                None => 0,
            };
            let nchild = self.nodes[k].children.len();
            let mut j: usize = 0;
            while j < nchild
                invariant
                    self.wf(),
                    n == self.n_classes(),
                    order@.len() == n,
                    k < self.nodes@.len(),
                    nchild == self.nodes@[k as int].children@.len(),
                    oc as int == root_of(self.uf@, self.owner@[k as int] as int),
                    oc < n,
                    j <= nchild,
                    order@[oc as int] matches Some(p) ==> p == own_pos,
                    !bad ==> order@[oc as int] is Some,
                    !bad ==> forall|j2: int|
                        0 <= j2 < j ==> {
                            let co = order@[root_of(
                                self.uf@,
                                #[trigger] self.nodes@[k as int].children@[j2] as int,
                            )];
                            co is Some && co->0 < own_pos
                        },
                decreases nchild - j,
            {
                let rc = self.find(self.nodes[k].children[j]);
                match order[rc] {
                    Some(p) => {
                        if p >= own_pos {
                            bad = true;
                        }
                    },
                    None => {
                        bad = true;
                    },
                }
                j += 1;
            }
            if bad {
                self.node_blacklist[k] = true;
            }
            proof {
                if !self.node_blacklist@[k as int] {
                    assert(node_respects_order(*self, order@, k as int));
                }
            }
            k += 1;
        }
        order
    }
}

} // verus!
