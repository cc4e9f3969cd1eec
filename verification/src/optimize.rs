//! Extraction: the cost model, the ILP data preparation, the greedy initial
//! solution, and the reconstruction of the chosen program.
use vstd::prelude::*;

use crate::egraph::{is_root, root_of, EGraph};
use crate::model::{EggError, Mdl, OpKind, RecExpr, TensorData};

verus! {

/// The cost factor a dimension contributes: degenerate dimensions count as
/// one element.
pub open spec fn dim_factor(d: i32) -> int {
    if d <= 0 {
        1
    } else {
        d as int
    }
}

/// The number of elements of a shape's first `n` dimensions.
pub open spec fn size_of_shape(s: Seq<i32>, n: int) -> int
    decreases n,
{
    if n <= 0 {
        1
    } else {
        size_of_shape(s, n - 1) * dim_factor(s[n - 1])
    }
}

/// Saturation into the `u64` range.
pub open spec fn sat64(x: int) -> int {
    if x > u64::MAX {
        u64::MAX as int
    } else {
        x
    }
}

pub proof fn lemma_size_positive(s: Seq<i32>, n: int)
    ensures
        size_of_shape(s, n) >= 1,
    decreases n,
{
    if n > 0 {
        lemma_size_positive(s, n - 1);
        assert(dim_factor(s[n - 1]) >= 1);
        assert(size_of_shape(s, n - 1) * dim_factor(s[n - 1]) >= size_of_shape(s, n - 1) * 1)
            by (nonlinear_arith)
            requires
                size_of_shape(s, n - 1) >= 1,
                dim_factor(s[n - 1]) >= 1,
        ;
    }
}

pub proof fn lemma_size_monotone(s: Seq<i32>, k: int, n: int)
    requires
        0 <= k <= n,
    ensures
        size_of_shape(s, k) <= size_of_shape(s, n),
    decreases n,
{
    if k < n {
        lemma_size_monotone(s, k, n - 1);
        lemma_size_positive(s, n - 1);
        assert(size_of_shape(s, n - 1) * dim_factor(s[n - 1]) >= size_of_shape(s, n - 1) * 1)
            by (nonlinear_arith)
            requires
                size_of_shape(s, n - 1) >= 1,
                dim_factor(s[n - 1]) >= 1,
        ;
    }
}

/// The number of elements of a tensor, saturated into `u64`.
pub fn tensor_size(data: &TensorData) -> (r: u64)
    requires
        data.n_dim <= 8,
    ensures
        r as int == sat64(size_of_shape(data.shape@, data.n_dim as int)),
{
    let mut acc: u64 = 1;
    let mut i: usize = 0;
    while i < data.n_dim
        invariant
            data.n_dim <= 8,
            i <= data.n_dim,
            acc as int == sat64(size_of_shape(data.shape@, i as int)),
        decreases data.n_dim - i,
    {
        let d = data.shape[i];
        let f: u64 = if d <= 0 {
            1
        } else {
            d as u64
        };
        proof {
            assert((acc as u128) * (f as u128) <= 0xffffffffffffffffu128
                * 0xffffffffffffffffu128) by (nonlinear_arith)
                requires
                    acc as u128 <= 0xffffffffffffffffu128,
                    f as u128 <= 0xffffffffffffffffu128,
            ;
        }
        let wide: u128 = (acc as u128) * (f as u128);
        proof {
            lemma_size_positive(data.shape@, i as int);
            assert(size_of_shape(data.shape@, i as int + 1) == size_of_shape(
                data.shape@,
                i as int,
            ) * dim_factor(data.shape@[i as int]));
            if acc as int == size_of_shape(data.shape@, i as int) {
                assert(wide as int == size_of_shape(data.shape@, i as int + 1));
            } else {
                // already saturated: the true product only grows
                assert(size_of_shape(data.shape@, i as int) > u64::MAX as int);
                assert(size_of_shape(data.shape@, i as int) * dim_factor(data.shape@[i as int])
                    >= size_of_shape(data.shape@, i as int) * 1) by (nonlinear_arith)
                    requires
                        size_of_shape(data.shape@, i as int) >= 1,
                        dim_factor(data.shape@[i as int]) >= 1,
                ;
                assert((acc as u128) * (f as u128) >= (acc as u128) * 1) by (nonlinear_arith)
                    requires
                        f as u128 >= 1,
                ;
            }
        }
        if wide > u64::MAX as u128 {
            proof {
                assert(size_of_shape(data.shape@, i as int + 1) > u64::MAX as int);
                lemma_size_monotone(data.shape@, i as int + 1, data.n_dim as int);
            }
            return u64::MAX;
        }
        acc = wide as u64;
        i += 1;
    }
    acc
}

/// Saturating addition of costs.
pub fn sat_add(a: u64, b: u64) -> (r: u64)
    ensures
        r as int == sat64(a + b),
{
    if a > u64::MAX - b {
        u64::MAX
    } else {
        a + b
    }
}

/// Saturating multiplication of costs.
pub fn sat_mul(a: u64, b: u64) -> (r: u64)
    ensures
        r as int == sat64(a as int * b as int),
{
    proof {
        assert((a as u128) * (b as u128) <= 0xffffffffffffffffu128 * 0xffffffffffffffffu128)
            by (nonlinear_arith)
            requires
                a as u128 <= 0xffffffffffffffffu128,
                b as u128 <= 0xffffffffffffffffu128,
        ;
    }
    let wide: u128 = (a as u128) * (b as u128);
    if wide > u64::MAX as u128 {
        u64::MAX
    } else {
        wide as u64
    }
}

/// The nonzero entries among the first `n` dimensions, in order, as `i64`.
pub open spec fn nonzero_dims(s: Seq<i32>, n: int) -> Seq<i64>
    decreases n,
{
    if n <= 0 {
        Seq::empty()
    } else {
        let prefix = nonzero_dims(s, n - 1);
        if s[n - 1] != 0 {
            prefix.push(s[n - 1] as i64)
        } else {
            prefix
        }
    }
}

/// The engine's cost model: a deterministic, shape-aware price per operator.
/// Structural nodes that no rewrite applies to cost nothing.
pub struct CostModel {
}

impl CostModel {
    pub fn new() -> (r: CostModel) {
        CostModel {  }
    }

    /// Exactly the nonzero entries of the stored shape, in order, widened
    /// for a cost query; at most `MAX_DIM` many.
    pub fn tensor_data_to_shape_vec(&self, tensor_data: &TensorData) -> (r: Vec<i64>)
        ensures
            r@ == nonzero_dims(tensor_data.shape@, 8),
            r@.len() <= 8,
    {
        let mut out: Vec<i64> = Vec::new();
        let mut i: usize = 0;
        while i < 8
            invariant
                i <= 8,
                out@ =~= nonzero_dims(tensor_data.shape@, i as int),
                out@.len() <= i,
            decreases 8 - i,
        {
            let d = tensor_data.shape[i];
            if d != 0 {
                out.push(d as i64);
            }
            i += 1;
        }
        proof {
            assert(out@ =~= nonzero_dims(tensor_data.shape@, 8));
        }
        out
    }

    /// The cost of the e-node itself, from the shapes of its children.
    ///
    /// Structural nodes (`Num`, `Var`, `Input`, `Vec`, `blackbox`) and the
    /// operators the engine never rewrites cost zero; elementwise and unary
    /// operators cost the element count of their first operand; `reshape`,
    /// `transpose` and `slice` cost the element count of the operand;
    /// `dot` costs the product of both operands' element counts; the
    /// remaining operators carry fixed prices.
    pub fn get_self_cost(&self, egraph: &EGraph, enode: &Mdl) -> (r: u64)
        requires
            egraph.wf(),
            crate::egraph::node_in_range(*enode, egraph.n_classes()),
        ensures
            r as int == self_cost_spec(*egraph, *enode),
            matches!(
                enode.op,
                OpKind::Num | OpKind::Var | OpKind::Input | OpKind::VecOp | OpKind::BlackBox
                    | OpKind::ConstantOp | OpKind::CompareOp | OpKind::BroadcastInDimOp
                    | OpKind::ConvertOp | OpKind::ReduceOp | OpKind::GatherOp | OpKind::SelectOp,
            ) ==> r == 0,
            enode.op == OpKind::PadOp ==> r == 100,
            enode.op == OpKind::ConcatenateOp ==> r == 10,
            enode.op == OpKind::IotaOp ==> r == 20,
            enode.op == OpKind::DynamicUpdateSliceOp ==> r == 3,
            enode.op == OpKind::DynamicSliceOp ==> r == 4,
            enode.op == OpKind::ScatterOp ==> r == 6,
            matches!(
                enode.op,
                OpKind::MulOp | OpKind::AddOp | OpKind::DivOp | OpKind::SubtractOp | OpKind::MinOp
                    | OpKind::MaxOp | OpKind::NegOp | OpKind::TanhOp | OpKind::ExpOp
                    | OpKind::ReshapeOp | OpKind::TransposeOp | OpKind::SliceOp,
            ) && enode.children@.len() >= 1 && first_data(*egraph, *enode).n_dim <= 8 ==> r as int
                == sat64(
                size_of_shape(
                    first_data(*egraph, *enode).shape@,
                    first_data(*egraph, *enode).n_dim as int,
                ),
            ),
            enode.op == OpKind::DotGeneralOp && enode.children@.len() >= 2 && first_data(
                *egraph,
                *enode,
            ).n_dim <= 8 && second_data(*egraph, *enode).n_dim <= 8 ==> r as int == sat64(
                sat64(
                    size_of_shape(
                        first_data(*egraph, *enode).shape@,
                        first_data(*egraph, *enode).n_dim as int,
                    ),
                ) * sat64(
                    size_of_shape(
                        second_data(*egraph, *enode).shape@,
                        second_data(*egraph, *enode).n_dim as int,
                    ),
                ),
            ),
    {
        match enode.op {
            OpKind::Num | OpKind::Var | OpKind::Input | OpKind::VecOp | OpKind::BlackBox
                | OpKind::ConstantOp | OpKind::CompareOp | OpKind::BroadcastInDimOp
                | OpKind::ConvertOp | OpKind::ReduceOp | OpKind::GatherOp | OpKind::SelectOp => 0,
            OpKind::PadOp => 100,
            OpKind::ConcatenateOp => 10,
            OpKind::IotaOp => 20,
            OpKind::DynamicUpdateSliceOp => 3,
            OpKind::DynamicSliceOp => 4,
            OpKind::ScatterOp => 6,
            OpKind::MulOp | OpKind::AddOp | OpKind::DivOp | OpKind::SubtractOp | OpKind::MinOp
                | OpKind::MaxOp | OpKind::NegOp | OpKind::TanhOp | OpKind::ExpOp
                | OpKind::ReshapeOp | OpKind::TransposeOp | OpKind::SliceOp => {
                if enode.children.len() < 1 {
                    return 0;
                }
                let data = egraph.class_data(enode.children[0]);
                if data.n_dim > 8 {
                    return 0;
                }
                tensor_size(&data)
            },
            OpKind::DotGeneralOp => {
                if enode.children.len() < 2 {
                    return 0;
                }
                let lhs = egraph.class_data(enode.children[0]);
                let rhs = egraph.class_data(enode.children[1]);
                if lhs.n_dim > 8 || rhs.n_dim > 8 {
                    return 0;
                }
                sat_mul(tensor_size(&lhs), tensor_size(&rhs))
            },
        }
    }
}

/// The price of one e-node under the engine's model, as a function of the
/// graph's analysis data.
pub open spec fn self_cost_spec(g: EGraph, n: Mdl) -> int {
    match n.op {
        OpKind::Num | OpKind::Var | OpKind::Input | OpKind::VecOp | OpKind::BlackBox
            | OpKind::ConstantOp | OpKind::CompareOp | OpKind::BroadcastInDimOp | OpKind::ConvertOp
            | OpKind::ReduceOp | OpKind::GatherOp | OpKind::SelectOp => 0,
        OpKind::PadOp => 100,
        OpKind::ConcatenateOp => 10,
        OpKind::IotaOp => 20,
        OpKind::DynamicUpdateSliceOp => 3,
        OpKind::DynamicSliceOp => 4,
        OpKind::ScatterOp => 6,
        OpKind::MulOp | OpKind::AddOp | OpKind::DivOp | OpKind::SubtractOp | OpKind::MinOp
            | OpKind::MaxOp | OpKind::NegOp | OpKind::TanhOp | OpKind::ExpOp | OpKind::ReshapeOp
            | OpKind::TransposeOp | OpKind::SliceOp => if n.children@.len() >= 1 && first_data(
            g,
            n,
        ).n_dim <= 8 {
            sat64(size_of_shape(first_data(g, n).shape@, first_data(g, n).n_dim as int))
        } else {
            0
        },
        OpKind::DotGeneralOp => if n.children@.len() >= 2 && first_data(g, n).n_dim <= 8
            && second_data(g, n).n_dim <= 8 {
            sat64(
                sat64(size_of_shape(first_data(g, n).shape@, first_data(g, n).n_dim as int))
                    * sat64(
                    size_of_shape(second_data(g, n).shape@, second_data(g, n).n_dim as int),
                ),
            )
        } else {
            0
        },
    }
}

/// The analysis value of a node's first child class.
pub open spec fn first_data(g: EGraph, n: Mdl) -> TensorData {
    g.analysis@[root_of(g.uf@, n.children@[0] as int)]
}

/// The analysis value of a node's second child class.
pub open spec fn second_data(g: EGraph, n: Mdl) -> TensorData {
    g.analysis@[root_of(g.uf@, n.children@[1] as int)]
}

/// The node indices among the first `n` whose owning class index is `m`, in
/// ascending order.
pub open spec fn class_members(g_i: Seq<usize>, m: int, n: int) -> Seq<usize>
    decreases n,
{
    if n <= 0 {
        Seq::empty()
    } else {
        let prefix = class_members(g_i, m, n - 1);
        if g_i[n - 1] as int == m {
            prefix.push((n - 1) as usize)
        } else {
            prefix
        }
    }
}

/// The node indices among the first `n` that are flagged, in ascending order.
pub open spec fn flagged_indices(flags: Seq<bool>, n: int) -> Seq<usize>
    decreases n,
{
    if n <= 0 {
        Seq::empty()
    } else {
        let prefix = flagged_indices(flags, n - 1);
        if flags[n - 1] {
            prefix.push((n - 1) as usize)
        } else {
            prefix
        }
    }
}

pub proof fn lemma_members_in_range(g_i: Seq<usize>, m: int, n: int)
    requires
        n <= usize::MAX,
    ensures
        forall|idx: int|
            0 <= idx < class_members(g_i, m, n).len() ==> ((#[trigger] class_members(g_i, m, n)[
            idx]) as int) < n && g_i[class_members(g_i, m, n)[idx] as int] as int == m,
    decreases n,
{
    if n > 0 {
        lemma_members_in_range(g_i, m, n - 1);
        assert forall|idx: int| 0 <= idx < class_members(g_i, m, n).len() implies ((
        #[trigger] class_members(g_i, m, n)[idx]) as int) < n && g_i[class_members(g_i, m, n)[idx]
            as int] as int == m by {
            if g_i[n - 1] as int == m {
                assert(class_members(g_i, m, n) == class_members(g_i, m, n - 1).push(
                    (n - 1) as usize,
                ));
                if idx < class_members(g_i, m, n - 1).len() {
                    assert(class_members(g_i, m, n)[idx] == class_members(g_i, m, n - 1)[idx]);
                } else {
                    assert(class_members(g_i, m, n)[idx] == (n - 1) as usize);
                }
            } else {
                assert(class_members(g_i, m, n) == class_members(g_i, m, n - 1));
                assert(class_members(g_i, m, n)[idx] == class_members(g_i, m, n - 1)[idx]);
            }
        }
    }
}

pub proof fn lemma_flagged_in_range(flags: Seq<bool>, n: int)
    requires
        n <= usize::MAX,
    ensures
        forall|idx: int|
            0 <= idx < flagged_indices(flags, n).len() ==> ((#[trigger] flagged_indices(flags, n)[
            idx]) as int) < n,
    decreases n,
{
    if n > 0 {
        lemma_flagged_in_range(flags, n - 1);
        assert forall|idx: int| 0 <= idx < flagged_indices(flags, n).len() implies ((
        #[trigger] flagged_indices(flags, n)[idx]) as int) < n by {
            if flags[n - 1] {
                assert(flagged_indices(flags, n) == flagged_indices(flags, n - 1).push(
                    (n - 1) as usize,
                ));
                if idx < flagged_indices(flags, n - 1).len() {
                    assert(flagged_indices(flags, n)[idx] == flagged_indices(flags, n - 1)[idx]);
                } else {
                    assert(flagged_indices(flags, n)[idx] == (n - 1) as usize);
                }
            } else {
                assert(flagged_indices(flags, n) == flagged_indices(flags, n - 1));
                assert(flagged_indices(flags, n)[idx] == flagged_indices(flags, n - 1)[idx]);
            }
        }
    }
}

/// The e-graph snapshot handed to the external solver: classes and nodes by
/// dense indices, with costs, membership and the blacklist.
pub struct IlpData {
    /// Engine class id for each class index `m`.
    pub m_id_map: Vec<usize>,
    /// The node indices belonging to each class index.
    pub e_m: Vec<Vec<usize>>,
    /// The class indices of each node's children.
    pub h_i: Vec<Vec<usize>>,
    /// Each node's self cost.
    pub cost_i: Vec<u64>,
    /// The owning class index of each node.
    pub g_i: Vec<usize>,
    /// The class index of the root class.
    pub root_m: usize,
    /// The nodes, ordered by node index.
    pub i_to_nodes: Vec<Mdl>,
    /// The node indices excluded from extraction.
    pub blacklist_i: Vec<usize>,
}

impl IlpData {
    pub open spec fn wf(self) -> bool {
        &&& self.h_i@.len() == self.i_to_nodes@.len()
        &&& self.cost_i@.len() == self.i_to_nodes@.len()
        &&& self.g_i@.len() == self.i_to_nodes@.len()
        &&& self.e_m@.len() == self.m_id_map@.len()
        &&& self.root_m < self.m_id_map@.len()
        &&& forall|i: int|
            0 <= i < self.g_i@.len() ==> #[trigger] self.g_i@[i] < self.m_id_map@.len()
        &&& forall|i: int, j: int|
            0 <= i < self.h_i@.len() && 0 <= j < self.h_i@[i]@.len()
                ==> #[trigger] self.h_i@[i]@[j] < self.m_id_map@.len()
        &&& forall|i: int|
            0 <= i < self.blacklist_i@.len() ==> #[trigger] self.blacklist_i@[i]
                < self.i_to_nodes@.len()
    }
}

/// Prepares the data for the ILP formulation: a dense snapshot of the live
/// classes and nodes, each node's children as class indices, its self cost
/// and its owning class, the root class index, and the blacklisted nodes.
pub fn prep_ilp_data(egraph: &EGraph, root: usize, cost_model: &CostModel) -> (r: IlpData)
    requires
        egraph.clean(),
        root < egraph.n_classes(),
    ensures
        r.wf(),
        r.m_id_map@[r.root_m as int] as int == root_of(egraph.uf@, root as int),
        // the class index map lists the distinct representatives, exhaustively
        forall|m1: int, m2: int|
            0 <= m1 < m2 < r.m_id_map@.len() ==> r.m_id_map@[m1] < r.m_id_map@[m2],
        forall|m: int|
            0 <= m < r.m_id_map@.len() ==> is_root(egraph.uf@, #[trigger] r.m_id_map@[m] as int),
        forall|c: int|
            0 <= c < egraph.n_classes() && is_root(egraph.uf@, c) ==> exists|m: int|
                0 <= m < r.m_id_map@.len() && (#[trigger] r.m_id_map@[m]) as int == c,
        // the nodes mirror the stored nodes, index for index
        r.i_to_nodes@.len() == egraph.nodes@.len(),
        forall|i: int|
            0 <= i < egraph.nodes@.len() ==> (#[trigger] r.i_to_nodes@[i]).op
                == egraph.nodes@[i].op && r.i_to_nodes@[i].literal == egraph.nodes@[i].literal
                && r.i_to_nodes@[i].children@ == egraph.nodes@[i].children@,
        // each node's owning class index and child class indices
        forall|i: int|
            0 <= i < egraph.nodes@.len() ==> #[trigger] r.m_id_map@[r.g_i@[i] as int] as int
                == root_of(egraph.uf@, egraph.owner@[i] as int),
        forall|i: int|
            0 <= i < egraph.nodes@.len() ==> (#[trigger] r.h_i@[i])@.len()
                == egraph.nodes@[i].children@.len() && forall|j: int|
                0 <= j < r.h_i@[i]@.len() ==> r.m_id_map@[#[trigger] r.h_i@[i]@[j] as int] as int
                    == root_of(egraph.uf@, egraph.nodes@[i].children@[j] as int),
        // each node's self cost under the engine's model
        forall|i: int|
            0 <= i < egraph.nodes@.len() ==> (#[trigger] r.cost_i@[i]) as int == self_cost_spec(
                *egraph,
                r.i_to_nodes@[i],
            ),
        // the class membership lists partition the node indices
        forall|m: int|
            0 <= m < r.e_m@.len() ==> (#[trigger] r.e_m@[m])@ == class_members(
                r.g_i@,
                m,
                egraph.nodes@.len() as int,
            ),
        // the blacklist lists exactly the flagged nodes, in order
        r.blacklist_i@ == flagged_indices(egraph.node_blacklist@, egraph.nodes@.len() as int),
{
    let n_cls = egraph.uf.len();
    let mut m_id_map: Vec<usize> = Vec::new();
    let mut m_of: Vec<usize> = Vec::new();
    let mut c: usize = 0;
    while c < n_cls
        invariant
            egraph.clean(),
            n_cls == egraph.n_classes(),
            c <= n_cls,
            m_of@.len() == c,
            forall|i: int|
                0 <= i < m_id_map@.len() ==> #[trigger] m_id_map@[i] < n_cls && is_root(
                    egraph.uf@,
                    m_id_map@[i] as int,
                ),
            forall|i: int| 0 <= i < m_id_map@.len() ==> #[trigger] m_id_map@[i] < c,
            forall|m1: int, m2: int|
                0 <= m1 < m2 < m_id_map@.len() ==> m_id_map@[m1] < m_id_map@[m2],
            forall|i: int|
                0 <= i < c && is_root(egraph.uf@, i) ==> #[trigger] m_of@[i] < m_id_map@.len()
                    && m_id_map@[m_of@[i] as int] == i,
        decreases n_cls - c,
    {
        if egraph.uf[c] == c {
            m_of.push(m_id_map.len());
            m_id_map.push(c);
        } else {
            m_of.push(0);
        }
        c += 1;
    }
    let n_nodes = egraph.nodes.len();
    let mut e_m: Vec<Vec<usize>> = Vec::new();
    let mut m0: usize = 0;
    while m0 < m_id_map.len()
        invariant
            m0 <= m_id_map@.len(),
            e_m@.len() == m0,
            forall|i: int| 0 <= i < e_m@.len() ==> (#[trigger] e_m@[i])@.len() == 0,
        decreases m_id_map@.len() - m0,
    {
        e_m.push(Vec::new());
        m0 += 1;
    }
    let mut h_i: Vec<Vec<usize>> = Vec::new();
    let mut cost_i: Vec<u64> = Vec::new();
    let mut g_i: Vec<usize> = Vec::new();
    let mut i_to_nodes: Vec<Mdl> = Vec::new();
    let mut blacklist_i: Vec<usize> = Vec::new();
    let mut k: usize = 0;
    while k < n_nodes
        invariant
            egraph.clean(),
            n_cls == egraph.n_classes(),
            n_nodes == egraph.nodes@.len(),
            m_of@.len() == n_cls,
            forall|i: int|
                0 <= i < m_id_map@.len() ==> #[trigger] m_id_map@[i] < n_cls && is_root(
                    egraph.uf@,
                    m_id_map@[i] as int,
                ),
            forall|i: int|
                0 <= i < n_cls && is_root(egraph.uf@, i) ==> #[trigger] m_of@[i] < m_id_map@.len()
                    && m_id_map@[m_of@[i] as int] == i,
            e_m@.len() == m_id_map@.len(),
            k <= n_nodes,
            h_i@.len() == k,
            cost_i@.len() == k,
            g_i@.len() == k,
            i_to_nodes@.len() == k,
            forall|i: int| 0 <= i < k ==> #[trigger] g_i@[i] < m_id_map@.len(),
            forall|i: int, j: int|
                0 <= i < h_i@.len() && 0 <= j < h_i@[i]@.len() ==> #[trigger] h_i@[i]@[j]
                    < m_id_map@.len(),
            forall|i: int|
                0 <= i < k ==> (#[trigger] i_to_nodes@[i]).op == egraph.nodes@[i].op
                    && i_to_nodes@[i].literal == egraph.nodes@[i].literal
                    && i_to_nodes@[i].children@ == egraph.nodes@[i].children@,
            forall|i: int|
                0 <= i < k ==> #[trigger] m_id_map@[g_i@[i] as int] as int == root_of(
                    egraph.uf@,
                    egraph.owner@[i] as int,
                ),
            forall|i: int|
                0 <= i < k ==> (#[trigger] h_i@[i])@.len() == egraph.nodes@[i].children@.len()
                    && forall|j: int|
                    0 <= j < h_i@[i]@.len() ==> m_id_map@[#[trigger] h_i@[i]@[j] as int] as int
                        == root_of(egraph.uf@, egraph.nodes@[i].children@[j] as int),
            forall|i: int|
                0 <= i < k ==> (#[trigger] cost_i@[i]) as int == self_cost_spec(
                    *egraph,
                    i_to_nodes@[i],
                ),
            blacklist_i@ == flagged_indices(egraph.node_blacklist@, k as int),
            blacklist_i@.len() <= k,
        decreases n_nodes - k,
    {
        let node = egraph.nodes[k].clone_node();
        let owner = egraph.owner[k];
        let m = m_of[owner];
        proof {
            assert(is_root(egraph.uf@, owner as int));
            assert(root_of(egraph.uf@, owner as int) == owner as int);
        }
        let mut children_m: Vec<usize> = Vec::new();
        let mut j: usize = 0;
        while j < node.children.len()
            invariant
                egraph.clean(),
                n_cls == egraph.n_classes(),
                m_of@.len() == n_cls,
                forall|i: int|
                    0 <= i < n_cls && is_root(egraph.uf@, i) ==> #[trigger] m_of@[i]
                        < m_id_map@.len() && m_id_map@[m_of@[i] as int] == i,
                crate::egraph::node_in_range(node, n_cls as int),
                j <= node.children@.len(),
                children_m@.len() == j,
                forall|i: int|
                    0 <= i < j ==> #[trigger] children_m@[i] < m_id_map@.len(),
                forall|i: int|
                    0 <= i < j ==> m_id_map@[#[trigger] children_m@[i] as int] as int == root_of(
                        egraph.uf@,
                        node.children@[i] as int,
                    ),
            decreases node.children@.len() - j,
        {
            let child_root = egraph.find(node.children[j]);
            proof {
                crate::egraph::lemma_root_of_root(egraph.uf@, node.children@[j as int] as int);
            }
            children_m.push(m_of[child_root]);
            j += 1;
        }
        let cost = cost_model.get_self_cost(egraph, &node);
        if egraph.node_blacklist[k] {
            blacklist_i.push(k);
        }
        h_i.push(children_m);
        cost_i.push(cost);
        g_i.push(m);
        i_to_nodes.push(node);
        k += 1;
    }
    let root_root = egraph.find(root);
    proof {
        crate::egraph::lemma_root_of_root(egraph.uf@, root as int);
        assert(is_root(egraph.uf@, root_root as int));
    }
    let root_m = m_of[root_root];
    // record node memberships per class
    let mut i: usize = 0;
    while i < g_i.len()
        invariant
            g_i@.len() == n_nodes,
            e_m@.len() == m_id_map@.len(),
            i <= n_nodes,
            forall|i2: int| 0 <= i2 < n_nodes ==> #[trigger] g_i@[i2] < m_id_map@.len(),
            forall|m2: int|
                0 <= m2 < e_m@.len() ==> (#[trigger] e_m@[m2])@ == class_members(
                    g_i@,
                    m2,
                    i as int,
                ),
        decreases n_nodes - i,
    {
        let m = g_i[i];
        let ghost em0 = e_m@;
        let mut row = e_m[m].clone();
        row.push(i);
        proof {
            assert(row@ =~= em0[m as int]@.push(i));
        }
        e_m[m] = row;
        proof {
            assert forall|m2: int| 0 <= m2 < e_m@.len() implies (#[trigger] e_m@[m2])@
                == class_members(g_i@, m2, i as int + 1) by {
                if m2 == m as int {
                    assert(e_m@[m2]@ =~= class_members(g_i@, m2, i as int).push(i));
                    assert(class_members(g_i@, m2, i as int + 1) =~= class_members(
                        g_i@,
                        m2,
                        i as int,
                    ).push(i));
                } else {
                    assert(e_m@[m2]@ == em0[m2]@);
                    assert(class_members(g_i@, m2, i as int + 1) =~= class_members(
                        g_i@,
                        m2,
                        i as int,
                    ));
                }
            }
        }
        i += 1;
    }
    proof {
        assert forall|c: int| 0 <= c < egraph.n_classes() && is_root(egraph.uf@, c) implies exists|
            m2: int,
        |
            0 <= m2 < m_id_map@.len() && (#[trigger] m_id_map@[m2]) as int == c by {
            assert(0 <= (m_of@[c] as int) && (m_of@[c] as int) < m_id_map@.len());
            assert(m_id_map@[m_of@[c] as int] == c);
        }
        lemma_flagged_in_range(egraph.node_blacklist@, n_nodes as int);
        assert forall|m2: int, j: int|
            0 <= m2 < e_m@.len() && 0 <= j < e_m@[m2]@.len() implies (#[trigger] e_m@[m2]@[j])
                < n_nodes by {
            lemma_members_in_range(g_i@, m2, n_nodes as int);
        }
    }
    IlpData { m_id_map, e_m, h_i, cost_i, g_i, root_m, i_to_nodes, blacklist_i }
}

/// A selection: the chosen node index for each class index, where one was
/// chosen. A selection is closed when every chosen node's children are in
/// classes that also chose.
pub open spec fn selection_closed(data: IlpData, picks: Seq<Option<usize>>) -> bool {
    forall|m: int|
        0 <= m < picks.len() && picks[m] is Some ==> {
            let i = picks[m]->0;
            &&& i < data.h_i@.len()
            &&& data.g_i@[i as int] == m
            &&& forall|j: int|
                0 <= j < data.h_i@[i as int]@.len() ==> {
                    let cm = #[trigger] data.h_i@[i as int]@[j];
                    cm < picks.len() && picks[cm as int] is Some
                }
        }
}

/// The summed self cost of a selection, saturated into `u64`.
pub open spec fn total_cost_spec(picks: Seq<Option<usize>>, cost: Seq<u64>) -> int
    decreases picks.len(),
{
    if picks.len() == 0 {
        0
    } else {
        total_cost_spec(picks.drop_last(), cost) + (match picks.last() {
            Some(i) => if i < cost.len() {
                cost[i as int] as int
            } else {
                0
            },
            None => 0,
        })
    }
}

/// Computes the total cost of a selection, saturated.
pub fn total_cost(picks: &Vec<Option<usize>>, cost: &Vec<u64>) -> (r: u64)
    ensures
        r as int == sat64(total_cost_spec(picks@, cost@)),
{
    proof {
        lemma_total_cost_nonneg(picks@.take(0), cost@);
        assert(picks@.take(0) =~= Seq::<Option<usize>>::empty());
    }
    let mut acc: u64 = 0;
    let mut m: usize = 0;
    while m < picks.len()
        invariant
            m <= picks@.len(),
            acc as int == sat64(total_cost_spec(picks@.take(m as int), cost@)),
        decreases picks@.len() - m,
    {
        proof {
            assert(picks@.take(m as int + 1).drop_last() =~= picks@.take(m as int));
            lemma_total_cost_nonneg(picks@.take(m as int), cost@);
        }
        let step: u64 = match picks[m] {
            Some(i) => {
                if i < cost.len() {
                    cost[i]
                } else {
                    0
                }
            },
            None => 0,
        };
        acc = sat_add(acc, step);
        m += 1;
    }
    proof {
        assert(picks@.take(picks@.len() as int) =~= picks@);
    }
    acc
}

pub proof fn lemma_total_cost_nonneg(picks: Seq<Option<usize>>, cost: Seq<u64>)
    ensures
        total_cost_spec(picks, cost) >= 0,
    decreases picks.len(),
{
    if picks.len() > 0 {
        lemma_total_cost_nonneg(picks.drop_last(), cost);
    }
}

/// Node `i` is on the extraction blacklist.
pub open spec fn is_blacklisted(data: IlpData, i: int) -> bool {
    exists|j: int| 0 <= j < data.blacklist_i@.len() && #[trigger] data.blacklist_i@[j] == i
}

fn blacklisted(data: &IlpData, i: usize) -> (r: bool)
    ensures
        r <==> is_blacklisted(*data, i as int),
{
    let mut j: usize = 0;
    while j < data.blacklist_i.len()
        invariant
            j <= data.blacklist_i@.len(),
            forall|j2: int| 0 <= j2 < j ==> #[trigger] data.blacklist_i@[j2] != i,
        decreases data.blacklist_i@.len() - j,
    {
        if data.blacklist_i[j] == i {
            return true;
        }
        j += 1;
    }
    false
}

/// A well-formed selection: every chosen node belongs to its class, is not
/// blacklisted, and its children's classes chose too.
pub open spec fn picks_wf(data: IlpData, picks: Seq<Option<usize>>) -> bool {
    &&& picks.len() == data.m_id_map@.len()
    &&& selection_closed(data, picks)
    &&& forall|m: int|
        0 <= m < picks.len() && picks[m] is Some ==> !is_blacklisted(data, picks[m]->0 as int)
}

/// The greedy initial extraction: per class, the cheapest node whose
/// children's classes have already settled, iterated to a fixed point. The
/// result is a closed selection of non-blacklisted nodes.
pub fn greedy_picks(data: &IlpData) -> (r: Vec<Option<usize>>)
    requires
        data.wf(),
    ensures
        picks_wf(*data, r@),
        // the greedy fixpoint: any usable node whose children's classes all
        // settled forces its own class to settle, so nothing pickable is left
        // unpicked
        forall|i: int|
            0 <= i < data.i_to_nodes@.len() && !is_blacklisted(*data, i) && (forall|j: int|
                0 <= j < data.h_i@[i]@.len() ==> r@[#[trigger] data.h_i@[i]@[j] as int] is Some)
                ==> r@[#[trigger] data.g_i@[i] as int] is Some,
{
    let n_m = data.m_id_map.len();
    let n = data.i_to_nodes.len();
    let mut picks: Vec<Option<usize>> = Vec::new();
    let mut best: Vec<u64> = Vec::new();
    let mut m: usize = 0;
    while m < n_m
        invariant
            m <= n_m,
            picks@.len() == m,
            best@.len() == m,
            forall|i: int| 0 <= i < m ==> picks@[i] is None,
        decreases n_m - m,
    {
        picks.push(None);
        best.push(0);
        m += 1;
    }
    let mut pass: usize = 0;
    while pass < n_m
        invariant
            data.wf(),
            n == data.i_to_nodes@.len(),
            n_m == data.m_id_map@.len(),
            picks@.len() == n_m,
            best@.len() == n_m,
            selection_closed(*data, picks@),
            forall|m2: int|
                0 <= m2 < n_m && (#[trigger] picks@[m2]) is Some ==> data.g_i@[picks@[m2]->0 as int]
                    == m2 && !is_blacklisted(*data, picks@[m2]->0 as int),
        decreases n_m - pass,
    {
        let mut i: usize = 0;
        while i < n
            invariant
                data.wf(),
                n == data.i_to_nodes@.len(),
                n_m == data.m_id_map@.len(),
                i <= n,
                picks@.len() == n_m,
                best@.len() == n_m,
                selection_closed(*data, picks@),
                forall|m2: int|
                    0 <= m2 < n_m && (#[trigger] picks@[m2]) is Some ==> data.g_i@[picks@[m2]->0
                        as int] == m2 && !is_blacklisted(*data, picks@[m2]->0 as int),
            decreases n - i,
        {
            if !blacklisted(data, i) {
                // the node is usable once all child classes have settled
                let mut all_set: bool = true;
                let mut total: u64 = data.cost_i[i];
                let mut j: usize = 0;
                while j < data.h_i[i].len()
                    invariant
                        data.wf(),
                        n_m == data.m_id_map@.len(),
                        i < data.h_i@.len(),
                        j <= data.h_i@[i as int]@.len(),
                        picks@.len() == n_m,
                        best@.len() == n_m,
                        all_set ==> forall|j2: int|
                            0 <= j2 < j ==> picks@[#[trigger] data.h_i@[i as int]@[j2] as int]
                                is Some,
                    decreases data.h_i@[i as int]@.len() - j,
                {
                    let cm = data.h_i[i][j];
                    if matches!(picks[cm], None) {
                        all_set = false;
                    } else {
                        total = sat_add(total, best[cm]);
                    }
                    j += 1;
                }
                if all_set {
                    let m2 = data.g_i[i];
                    let better = match picks[m2] {
                        None => true,
                        Some(_) => total < best[m2],
                    };
                    if better {
                        picks[m2] = Some(i);
                        best[m2] = total;
                        proof {
                            assert(selection_closed(*data, picks@));
                        }
                    }
                }
            }
            i += 1;
        }
        pass += 1;
    }
    // settle to a fixed point: a class with any usable node whose children
    // have settled must itself settle
    loop
        invariant
            data.wf(),
            n == data.i_to_nodes@.len(),
            n_m == data.m_id_map@.len(),
            picks@.len() == n_m,
            best@.len() == n_m,
            selection_closed(*data, picks@),
            forall|m2: int|
                0 <= m2 < n_m && (#[trigger] picks@[m2]) is Some ==> data.g_i@[picks@[m2]->0 as int]
                    == m2 && !is_blacklisted(*data, picks@[m2]->0 as int),
        decreases count_none(picks@, n_m as int) + 1,
    {
        proof {
            lemma_count_none_nonneg(picks@, n_m as int);
        }
        let ghost picks0 = picks@;
        let mut settled: usize = 0;
        let mut i: usize = 0;
        while i < n
            invariant
                data.wf(),
                n == data.i_to_nodes@.len(),
                n_m == data.m_id_map@.len(),
                i <= n,
                picks@.len() == n_m,
                best@.len() == n_m,
                selection_closed(*data, picks@),
                forall|m2: int|
                    0 <= m2 < n_m && (#[trigger] picks@[m2]) is Some ==> data.g_i@[picks@[m2]->0
                        as int] == m2 && !is_blacklisted(*data, picks@[m2]->0 as int),
                settled as int == count_none(picks0, n_m as int) - count_none(
                    picks@,
                    n_m as int,
                ),
                settled == 0 ==> picks@ == picks0,
                settled == 0 ==> forall|i2: int|
                    0 <= i2 < i && !is_blacklisted(*data, i2) && (forall|j: int|
                        0 <= j < data.h_i@[i2]@.len() ==> picks@[#[trigger] data.h_i@[i2]@[j] as int]
                            is Some) ==> picks@[#[trigger] data.g_i@[i2] as int] is Some,
            decreases n - i,
        {
            if !blacklisted(data, i) {
                let m2 = data.g_i[i];
                if matches!(picks[m2], None) {
                    let mut all_set: bool = true;
                    let mut total: u64 = data.cost_i[i];
                    let mut j: usize = 0;
                    while j < data.h_i[i].len()
                        invariant
                            data.wf(),
                            n_m == data.m_id_map@.len(),
                            i < data.h_i@.len(),
                            j <= data.h_i@[i as int]@.len(),
                            picks@.len() == n_m,
                            best@.len() == n_m,
                            all_set ==> forall|j2: int|
                                0 <= j2 < j ==> picks@[#[trigger] data.h_i@[i as int]@[j2] as int]
                                    is Some,
                            !all_set ==> exists|j2: int|
                                0 <= j2 < data.h_i@[i as int]@.len() && picks@[
                                #[trigger] data.h_i@[i as int]@[j2] as int] is None,
                        decreases data.h_i@[i as int]@.len() - j,
                    {
                        let cm = data.h_i[i][j];
                        if matches!(picks[cm], None) {
                            all_set = false;
                        } else {
                            total = sat_add(total, best[cm]);
                        }
                        j += 1;
                    }
                    if all_set {
                        proof {
                            lemma_count_none_set(picks@, m2 as int, i, n_m as int);
                            lemma_count_none_le(picks0, n_m as int);
                            lemma_count_none_nonneg(picks@.update(m2 as int, Some(i)), n_m as int);
                        }
                        picks[m2] = Some(i);
                        best[m2] = total;
                        settled += 1;
                        proof {
                            assert(selection_closed(*data, picks@));
                        }
                    }
                }
            }
            i += 1;
        }
        if settled == 0 {
            return picks;
        }
        proof {
            lemma_count_none_nonneg(picks@, n_m as int);
        }
    }
}

/// How many of the first `n` node variables are set although an earlier
/// variable of the same class is set too.
pub open spec fn extra_picks(g_i: Seq<usize>, x: Seq<i32>, n: int) -> int
    decreases n,
{
    if n <= 0 {
        0
    } else {
        extra_picks(g_i, x, n - 1) + if x[n - 1] == 1 && exists|i2: int|
            0 <= i2 < n - 1 && x[i2] == 1 && g_i[i2] == g_i[n - 1] {
            1int
        } else {
            0int
        }
    }
}

/// Number of unsettled classes among the first `n`.
pub open spec fn count_none(picks: Seq<Option<usize>>, n: int) -> int
    decreases n,
{
    if n <= 0 {
        0
    } else {
        count_none(picks, n - 1) + if picks[n - 1] is None {
            1int
        } else {
            0int
        }
    }
}

pub proof fn lemma_count_none_nonneg(picks: Seq<Option<usize>>, n: int)
    ensures
        count_none(picks, n) >= 0,
    decreases n,
{
    if n > 0 {
        lemma_count_none_nonneg(picks, n - 1);
    }
}

pub proof fn lemma_count_none_all_none(picks: Seq<Option<usize>>, n: int)
    requires
        forall|i: int| 0 <= i < n ==> (#[trigger] picks[i]) is None,
    ensures
        count_none(picks, n) == if n <= 0 {
            0int
        } else {
            n
        },
    decreases n,
{
    if n > 0 {
        lemma_count_none_all_none(picks, n - 1);
    }
}

pub proof fn lemma_count_none_le(picks: Seq<Option<usize>>, n: int)
    ensures
        count_none(picks, n) <= if n <= 0 {
            0int
        } else {
            n
        },
    decreases n,
{
    if n > 0 {
        lemma_count_none_le(picks, n - 1);
    }
}

pub proof fn lemma_count_none_set(picks: Seq<Option<usize>>, m: int, v: usize, n: int)
    requires
        0 <= m < n <= picks.len(),
        picks[m] is None,
    ensures
        count_none(picks.update(m, Some(v)), n) == count_none(picks, n) - 1,
    decreases n,
{
    let p2 = picks.update(m, Some(v));
    if n - 1 == m {
        assert(count_none(p2, n - 1) == count_none(picks, n - 1)) by {
            lemma_count_none_prefix(picks, p2, n - 1);
        }
    } else {
        lemma_count_none_set(picks, m, v, n - 1);
    }
}

pub proof fn lemma_count_none_prefix(p1: Seq<Option<usize>>, p2: Seq<Option<usize>>, n: int)
    requires
        forall|i: int| 0 <= i < n ==> p1[i] == p2[i],
    ensures
        count_none(p1, n) == count_none(p2, n),
    decreases n,
{
    if n > 0 {
        lemma_count_none_prefix(p1, p2, n - 1);
    }
}

/// The solver's answer: the 0/1 value chosen for each node variable. The
/// achieved cost and the solve time are reported beside it and stay at the
/// caller's boundary.
pub struct SolvedResults {
    pub solved_x: Vec<i32>,
}

/// Turns the solver's 0/1 vector into a selection: for each class, the first
/// chosen node. Returns the selection and how many further picks inside an
/// already-settled class were dropped.
pub fn apply_ilp_solution(data: &IlpData, solved: &SolvedResults) -> (r: (
    Vec<Option<usize>>,
    usize,
))
    requires
        data.wf(),
    ensures
        r.0@.len() == data.m_id_map@.len(),
        // the first pick in node order is kept for each class
        forall|m: int|
            0 <= m < r.0@.len() && (#[trigger] r.0@[m]) is Some ==> {
                let i = r.0@[m]->0 as int;
                &&& i < data.i_to_nodes@.len()
                &&& i < solved.solved_x@.len()
                &&& solved.solved_x@[i] == 1
                &&& data.g_i@[i] == m
                &&& forall|i2: int|
                    0 <= i2 < i && data.g_i@[i2] == m ==> solved.solved_x@[i2] != 1
            },
        // later picks inside an already-settled class are counted, not kept
        r.1 as int == extra_picks(
            data.g_i@,
            solved.solved_x@,
            if solved.solved_x@.len() < data.i_to_nodes@.len() {
                solved.solved_x@.len() as int
            } else {
                data.i_to_nodes@.len() as int
            },
        ),
{
    let n_m = data.m_id_map.len();
    let mut picks: Vec<Option<usize>> = Vec::new();
    let mut m: usize = 0;
    while m < n_m
        invariant
            m <= n_m,
            picks@.len() == m,
            forall|i: int| 0 <= i < m ==> picks@[i] is None,
        decreases n_m - m,
    {
        picks.push(None);
        m += 1;
    }
    let mut duplicates: usize = 0;
    let mut i: usize = 0;
    let limit = if solved.solved_x.len() < data.i_to_nodes.len() {
        solved.solved_x.len()
    } else {
        data.i_to_nodes.len()
    };
    while i < limit
        invariant
            data.wf(),
            n_m == data.m_id_map@.len(),
            limit <= data.i_to_nodes@.len(),
            limit <= solved.solved_x@.len(),
            i <= limit,
            duplicates <= i,
            picks@.len() == n_m,
            duplicates as int == extra_picks(data.g_i@, solved.solved_x@, i as int),
            forall|m2: int|
                0 <= m2 < n_m ==> ((#[trigger] picks@[m2]) is Some <==> exists|i2: int|
                    0 <= i2 < i && solved.solved_x@[i2] == 1 && data.g_i@[i2] == m2),
            forall|m2: int|
                0 <= m2 < n_m && (#[trigger] picks@[m2]) is Some ==> {
                    let i3 = picks@[m2]->0 as int;
                    &&& i3 < i
                    &&& solved.solved_x@[i3] == 1
                    &&& data.g_i@[i3] == m2
                    &&& forall|i2: int|
                        0 <= i2 < i3 && data.g_i@[i2] == m2 ==> solved.solved_x@[i2] != 1
                },
        decreases limit - i,
    {
        if solved.solved_x[i] == 1 {
            let m2 = data.g_i[i];
            match picks[m2] {
                Some(_) => {
                    proof {
                        assert(exists|i2: int|
                            0 <= i2 < i && solved.solved_x@[i2] == 1 && data.g_i@[i2] == data.g_i@[
                            i as int]);
                    }
                    duplicates += 1;
                },
                None => {
                    picks[m2] = Some(i);
                },
            }
        }
        i += 1;
    }
    (picks, duplicates)
}

/// Checks that a selection is closed, picks only non-blacklisted nodes of
/// the right classes, and settles the root class.
pub fn check_selection(data: &IlpData, picks: &Vec<Option<usize>>) -> (r: bool)
    requires
        data.wf(),
    ensures
        r <==> picks_wf(*data, picks@) && picks@[data.root_m as int] is Some,
{
    if picks.len() != data.m_id_map.len() {
        return false;
    }
    if matches!(picks[data.root_m], None) {
        return false;
    }
    let mut m: usize = 0;
    while m < picks.len()
        invariant
            data.wf(),
            picks@.len() == data.m_id_map@.len(),
            m <= picks@.len(),
            forall|m2: int|
                0 <= m2 < m && (#[trigger] picks@[m2]) is Some ==> {
                    let i = picks@[m2]->0;
                    &&& i < data.h_i@.len()
                    &&& data.g_i@[i as int] == m2
                    &&& !is_blacklisted(*data, i as int)
                    &&& forall|j: int|
                        0 <= j < data.h_i@[i as int]@.len() ==> {
                            let cm = #[trigger] data.h_i@[i as int]@[j];
                            cm < picks@.len() && picks@[cm as int] is Some
                        }
                },
        decreases picks@.len() - m,
    {
        match picks[m] {
            None => {},
            Some(i) => {
                if i >= data.i_to_nodes.len() {
                    proof {
                        assert(!selection_closed(*data, picks@));
                    }
                    return false;
                }
                if data.g_i[i] != m {
                    proof {
                        assert(!selection_closed(*data, picks@));
                    }
                    return false;
                }
                if blacklisted(data, i) {
                    return false;
                }
                let mut j: usize = 0;
                while j < data.h_i[i].len()
                    invariant
                        data.wf(),
                        picks@.len() == data.m_id_map@.len(),
                        m < picks@.len(),
                        picks@[m as int] == Some(i),
                        i < data.h_i@.len(),
                        j <= data.h_i@[i as int]@.len(),
                        forall|j2: int|
                            0 <= j2 < j ==> {
                                let cm = #[trigger] data.h_i@[i as int]@[j2];
                                cm < picks@.len() && picks@[cm as int] is Some
                            },
                    decreases data.h_i@[i as int]@.len() - j,
                {
                    let cm = data.h_i[i][j];
                    if matches!(picks[cm], None) {
                        proof {
                            assert(!selection_closed(*data, picks@));
                        }
                        return false;
                    }
                    j += 1;
                }
            },
        }
        m += 1;
    }
    true
}

/// Chooses between the solver's selection and the greedy one: the solver's
/// answer is taken only when it is usable and no more expensive, so the
/// extracted program's total cost never exceeds the greedy extraction's.
pub fn select_extraction(
    data: &IlpData,
    ilp: Vec<Option<usize>>,
    greedy: Vec<Option<usize>>,
) -> (r: Vec<Option<usize>>)
    requires
        data.wf(),
        picks_wf(*data, greedy@),
    ensures
        picks_wf(*data, r@),
        sat64(total_cost_spec(r@, data.cost_i@)) <= sat64(total_cost_spec(greedy@, data.cost_i@)),
        r@ == ilp@ || r@ == greedy@,
        // the solver's answer is taken exactly when it is usable and no dearer
        (sat64(total_cost_spec(ilp@, data.cost_i@)) <= sat64(
            total_cost_spec(greedy@, data.cost_i@),
        ) && picks_wf(*data, ilp@) && ilp@[data.root_m as int] is Some) ==> r@ == ilp@,
{
    let ci = total_cost(&ilp, &data.cost_i);
    let cg = total_cost(&greedy, &data.cost_i);
    if ci <= cg && check_selection(data, &ilp) {
        ilp
    } else {
        greedy
    }
}

/// A rank certifies the selection acyclic: every picked class ranks
/// strictly above its pick's child classes.
pub open spec fn selection_ranked(data: IlpData, picks: Seq<Option<usize>>, rank: Seq<int>) -> bool {
    &&& rank.len() == picks.len()
    &&& forall|m: int|
        0 <= m < picks.len() && (#[trigger] picks[m]) is Some ==> 0 <= rank[m] && forall|j: int|
            0 <= j < data.h_i@[picks[m]->0 as int]@.len() ==> rank[#[trigger] data.h_i@[picks[m]->0
                as int]@[j] as int] < rank[m]
}

/// Every memo entry indexes a faithful copy of its class's picked node: the
/// copied node carries the pick's tag and payload, and its operands are the
/// memo entries of the pick's child classes.
pub open spec fn memo_faithful(
    data: IlpData,
    picks: Seq<Option<usize>>,
    memo: Seq<Option<usize>>,
    expr: RecExpr,
) -> bool {
    forall|m: int|
        0 <= m < memo.len() && (#[trigger] memo[m]) is Some ==> {
            let e = memo[m]->0;
            &&& m < picks.len()
            &&& picks[m] is Some
            &&& {
                let i = picks[m]->0;
                &&& i < data.i_to_nodes@.len()
                &&& e < expr.nodes@.len()
                &&& expr.nodes@[e as int].op == data.i_to_nodes@[i as int].op
                &&& expr.nodes@[e as int].literal == data.i_to_nodes@[i as int].literal
                &&& expr.nodes@[e as int].children@.len() == data.h_i@[i as int]@.len()
                &&& forall|j: int|
                    0 <= j < data.h_i@[i as int]@.len() ==> {
                        let cm = #[trigger] data.h_i@[i as int]@[j];
                        &&& memo[cm as int] is Some
                        &&& expr.nodes@[e as int].children@[j] == memo[cm as int]->0
                    }
            }
        }
}

/// Reconstructs the chosen program below class `m` into `expr`, memoized.
/// The result is acyclic by construction: every node's operands are earlier
/// entries. Fails with `CycleDetected` when the selection cannot be realized
/// as a finite term.
pub fn construct_best_rec(
    data: &IlpData,
    picks: &Vec<Option<usize>>,
    m: usize,
    memo: &mut Vec<Option<usize>>,
    expr: &mut RecExpr,
    fuel: usize,
) -> (r: Result<usize, EggError>)
    requires
        data.wf(),
        picks@.len() == data.m_id_map@.len(),
        selection_closed(*data, picks@),
        m < picks@.len(),
        picks@[m as int] is Some,
        old(memo)@.len() == data.m_id_map@.len(),
        old(expr).wf(),
        forall|m2: int|
            0 <= m2 < old(memo)@.len() && (#[trigger] old(memo)@[m2]) is Some ==> old(memo)@[m2]->0
                < old(expr).nodes@.len(),
        memo_faithful(*data, picks@, old(memo)@, *old(expr)),
    ensures
        final(expr).wf(),
        final(expr).symbols@ == old(expr).symbols@,
        final(expr).nodes@.len() >= old(expr).nodes@.len(),
        forall|k: int|
            0 <= k < old(expr).nodes@.len() ==> final(expr).nodes@[k] == old(expr).nodes@[k],
        final(memo)@.len() == old(memo)@.len(),
        memo_faithful(*data, picks@, final(memo)@, *final(expr)),
        forall|m2: int|
            0 <= m2 < final(memo)@.len() && (#[trigger] final(memo)@[m2]) is Some
                ==> final(memo)@[m2]->0 < final(expr).nodes@.len(),
        forall|m2: int|
            0 <= m2 < old(memo)@.len() && (#[trigger] old(memo)@[m2]) is Some ==> final(memo)@[m2]
                == old(memo)@[m2],
        // a repeated call is a pure memo lookup
        old(memo)@[m as int] is Some ==> *final(expr) == *old(expr) && final(memo)@ == old(memo)@
            && r == Ok::<usize, EggError>(old(memo)@[m as int]->0),
        // the result indexes the class's reconstructed node
        r matches Ok(e) ==> final(memo)@[m as int] == Some(e) && e < final(expr).nodes@.len(),
        r is Err ==> r->Err_0 == EggError::CycleDetected,
        // one appended node per newly settled class
        final(expr).nodes@.len() - old(expr).nodes@.len() <= count_none(
            old(memo)@,
            old(memo)@.len() as int,
        ) - count_none(final(memo)@, final(memo)@.len() as int),
        // success is owed whenever a rank certifies the selection acyclic
        (exists|rank: Seq<int>|
            selection_ranked(*data, picks@, rank) && rank[m as int] < fuel) ==> r is Ok,
    decreases fuel,
{
    match memo[m] {
        Some(e) => Ok(e),
        None => {
            if fuel == 0 {
                proof {
                    if exists|rank: Seq<int>|
                        selection_ranked(*data, picks@, rank) && rank[m as int] < fuel {
                        let rank = choose|rank: Seq<int>|
                            selection_ranked(*data, picks@, rank) && rank[m as int] < fuel;
                        assert(0 <= rank[m as int]);
                        assert(false);
                    }
                }
                return Err(EggError::CycleDetected);
            }
            let i = match picks[m] {
                Some(i) => i,
                None => {
                    proof {
                        assert(false);
                    }
                    return Err(EggError::CycleDetected);
                },
            };
            let mut children: Vec<usize> = Vec::new();
            let mut j: usize = 0;
            while j < data.h_i[i].len()
                invariant
                    data.wf(),
                    picks@.len() == data.m_id_map@.len(),
                    selection_closed(*data, picks@),
                    m < picks@.len(),
                    picks@[m as int] is Some,
                    i == picks@[m as int]->0,
                    i < data.h_i@.len(),
                    j <= data.h_i@[i as int]@.len(),
                    memo@.len() == data.m_id_map@.len(),
                    old(memo)@.len() == data.m_id_map@.len(),
                    expr.wf(),
                    expr.symbols@ == old(expr).symbols@,
                    expr.nodes@.len() >= old(expr).nodes@.len(),
                    forall|k: int|
                        0 <= k < old(expr).nodes@.len() ==> expr.nodes@[k] == old(expr).nodes@[k],
                    forall|m2: int|
                        0 <= m2 < memo@.len() && (#[trigger] memo@[m2]) is Some ==> memo@[m2]->0
                            < expr.nodes@.len(),
                    forall|m2: int|
                        0 <= m2 < old(memo)@.len() && (#[trigger] old(memo)@[m2]) is Some
                            ==> memo@[m2] == old(memo)@[m2],
                    children@.len() == j,
                    memo_faithful(*data, picks@, memo@, *expr),
                    old(memo)@[m as int] is None,
                    expr.nodes@.len() - old(expr).nodes@.len() <= count_none(
                        old(memo)@,
                        old(memo)@.len() as int,
                    ) - count_none(memo@, memo@.len() as int),
                    forall|j2: int|
                        0 <= j2 < j ==> {
                            let cm = #[trigger] data.h_i@[i as int]@[j2];
                            memo@[cm as int] is Some && children@[j2] == memo@[cm as int]->0
                        },
                    fuel >= 1,
                decreases data.h_i@[i as int]@.len() - j,
            {
                let cm = data.h_i[i][j];
                let ghost memo_pre = memo@;
                let ghost expr_pre = *expr;
                let ce = match construct_best_rec(data, picks, cm, memo, expr, fuel - 1) {
                    Ok(e) => e,
                    Err(e) => {
                        proof {
                            if exists|rank: Seq<int>|
                                selection_ranked(*data, picks@, rank) && rank[m as int] < fuel {
                                let rank = choose|rank: Seq<int>|
                                    selection_ranked(*data, picks@, rank) && rank[m as int] < fuel;
                                assert(rank[cm as int] < rank[m as int]);
                                assert(selection_ranked(*data, picks@, rank) && rank[cm as int]
                                    < fuel - 1);
                                assert(false);
                            }
                        }
                        return Err(e);
                    },
                };
                proof {
                    assert forall|m2: int|
                        0 <= m2 < old(memo)@.len() && (#[trigger] old(memo)@[m2]) is Some implies
                        memo@[m2] == old(memo)@[m2] by {
                        assert(memo_pre[m2] == old(memo)@[m2]);
                        assert(memo_pre[m2] is Some);
                        assert(memo@[m2] == memo_pre[m2]);
                    }
                    assert forall|j2: int| 0 <= j2 < j as int + 1 implies {
                        let cm2 = #[trigger] data.h_i@[i as int]@[j2];
                        memo@[cm2 as int] is Some && children@.push(ce)[j2] == memo@[cm2 as int]->0
                    } by {
                        if j2 < j as int {
                            let cm2 = data.h_i@[i as int]@[j2];
                            assert(memo_pre[cm2 as int] is Some);
                            assert(memo@[cm2 as int] == memo_pre[cm2 as int]);
                        }
                    }
                }
                children.push(ce);
                j += 1;
            }
            // a self-referential pick can complete this class during the
            // recursion; reuse that node instead of duplicating it
            match memo[m] {
                Some(e2) => Ok(e2),
                None => {
                    let template = &data.i_to_nodes[i];
                    proof {
                        assert forall|j2: int| 0 <= j2 < children@.len() implies #[trigger] children@[j2]
                            < expr.nodes@.len() by {
                            let cm2 = data.h_i@[i as int]@[j2];
                            assert(memo@[cm2 as int] is Some && children@[j2] == memo@[cm2 as int]->0);
                        }
                    }
                    let node = Mdl { op: template.op, literal: template.literal, children };
                    let ghost memo_pre2 = memo@;
                    let ghost expr_pre2 = *expr;
                    let e = expr.add(node);
                    memo[m] = Some(e);
                    proof {
                        lemma_count_none_set(memo_pre2, m as int, e, memo_pre2.len() as int);
                        assert forall|m2: int|
                            0 <= m2 < memo@.len() && (#[trigger] memo@[m2]) is Some implies {
                            let e3 = memo@[m2]->0;
                            &&& m2 < picks@.len()
                            &&& picks@[m2] is Some
                            &&& {
                                let i3 = picks@[m2]->0;
                                &&& i3 < data.i_to_nodes@.len()
                                &&& e3 < expr.nodes@.len()
                                &&& expr.nodes@[e3 as int].op == data.i_to_nodes@[i3 as int].op
                                &&& expr.nodes@[e3 as int].literal == data.i_to_nodes@[i3 as int].literal
                                &&& expr.nodes@[e3 as int].children@.len() == data.h_i@[i3 as int]@.len()
                                &&& forall|j3: int|
                                    0 <= j3 < data.h_i@[i3 as int]@.len() ==> {
                                        let cm3 = #[trigger] data.h_i@[i3 as int]@[j3];
                                        &&& memo@[cm3 as int] is Some
                                        &&& expr.nodes@[e3 as int].children@[j3] == memo@[cm3 as int]->0
                                    }
                            }
                        } by {
                            if m2 == m as int {
                                assert(expr.nodes@[e as int] == node);
                                assert forall|j3: int|
                                    0 <= j3 < data.h_i@[i as int]@.len() implies {
                                    let cm3 = #[trigger] data.h_i@[i as int]@[j3];
                                    &&& memo@[cm3 as int] is Some
                                    &&& expr.nodes@[e as int].children@[j3] == memo@[cm3 as int]->0
                                } by {
                                    let cm3 = data.h_i@[i as int]@[j3];
                                    assert(memo_pre2[cm3 as int] is Some);
                                    assert(cm3 as int != m as int);
                                }
                            } else {
                                assert(memo_pre2[m2] == memo@[m2]);
                                let i3 = picks@[m2]->0;
                                assert forall|j3: int|
                                    0 <= j3 < data.h_i@[i3 as int]@.len() implies {
                                    let cm3 = #[trigger] data.h_i@[i3 as int]@[j3];
                                    &&& memo@[cm3 as int] is Some
                                    &&& expr.nodes@[memo@[m2]->0 as int].children@[j3] == memo@[
                                    cm3 as int]->0
                                } by {
                                    let cm3 = data.h_i@[i3 as int]@[j3];
                                    assert(memo_pre2[cm3 as int] is Some);
                                    assert(cm3 as int != m as int);
                                    assert(memo@[cm3 as int] == memo_pre2[cm3 as int]);
                                    assert(expr.nodes@[memo@[m2]->0 as int] == expr_pre2.nodes@[
                                    memo@[m2]->0 as int]);
                                }
                            }
                        }
                        assert(memo_faithful(*data, picks@, memo@, *expr));
                    }
                    Ok(e)
                },
            }
        },
    }
}

/// The greedy solution as node and class index lists, seeding the solver.
pub fn get_init_solution(data: &IlpData, picks: &Vec<Option<usize>>) -> (r: (Vec<usize>, Vec<usize>))
    requires
        data.wf(),
        picks@.len() == data.m_id_map@.len(),
    ensures
        r.0@.len() == r.1@.len(),
        forall|k: int|
            0 <= k < r.0@.len() ==> #[trigger] r.0@[k] < data.i_to_nodes@.len() && r.1@[k]
                == data.g_i@[r.0@[k] as int],
{
    let mut i_list: Vec<usize> = Vec::new();
    let mut m_list: Vec<usize> = Vec::new();
    let mut m: usize = 0;
    while m < picks.len()
        invariant
            data.wf(),
            picks@.len() == data.m_id_map@.len(),
            m <= picks@.len(),
            i_list@.len() == m_list@.len(),
            forall|k: int|
                0 <= k < i_list@.len() ==> #[trigger] i_list@[k] < data.i_to_nodes@.len()
                    && m_list@[k] == data.g_i@[i_list@[k] as int],
        decreases picks@.len() - m,
    {
        match picks[m] {
            Some(i) => {
                if i < data.i_to_nodes.len() {
                    i_list.push(i);
                    m_list.push(data.g_i[i]);
                }
            },
            None => {},
        }
        m += 1;
    }
    (i_list, m_list)
}

} // verus!
