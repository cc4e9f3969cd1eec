//! The analysis lattice: how each operator determines the shape of its class
//! from the shapes of its children, and how analysis data is read back out of
//! the e-graph.
use vstd::prelude::*;

use crate::egraph::{root_of, EGraph};
use crate::model::{shape_from_dim, DataKind, EggError, Mdl, OpKind, TensorData};

verus! {

/// Operators whose output shape is the shape of their first operand:
/// elementwise arithmetic and the operators whose propagation the engine
/// keeps conservative.
pub open spec fn propagates_first_operand(op: OpKind) -> bool {
    ||| op == OpKind::MulOp
    ||| op == OpKind::AddOp
    ||| op == OpKind::DivOp
    ||| op == OpKind::SubtractOp
    ||| op == OpKind::MinOp
    ||| op == OpKind::MaxOp
    ||| op == OpKind::NegOp
    ||| op == OpKind::TanhOp
    ||| op == OpKind::ExpOp
    ||| op == OpKind::CompareOp
    ||| op == OpKind::SelectOp
    ||| op == OpKind::ConvertOp
    ||| op == OpKind::ReduceOp
    ||| op == OpKind::SliceOp
    ||| op == OpKind::PadOp
    ||| op == OpKind::DynamicUpdateSliceOp
    ||| op == OpKind::DynamicSliceOp
    ||| op == OpKind::ScatterOp
    ||| op == OpKind::BlackBox
}

/// The transpose rule: output dimension `i` is input dimension `perm[i]`.
///
/// Returns `None` when `perm` is not a list of `n_dim` indices into the
/// input shape.
pub fn transpose_shape(input: &TensorData, perm: &Vec<i32>) -> (r: Option<([i32; 8], usize)>)
    ensures
        r is Some <==> perm@.len() == input.n_dim && input.n_dim <= 8 && forall|i: int|
            0 <= i < perm@.len() ==> 0 <= #[trigger] perm@[i] < input.n_dim,
        r matches Some((shape, n_dim)) ==> n_dim == input.n_dim && forall|i: int|
            0 <= i < 8 ==> #[trigger] shape@[i] == if i < input.n_dim {
                input.shape@[perm@[i] as int]
            } else {
                0i32
            },
{
    if perm.len() != input.n_dim || input.n_dim > 8 {
        return None;
    }
    let mut shape: [i32; 8] = [0; 8];
    let mut i: usize = 0;
    while i < perm.len()
        invariant
            perm@.len() == input.n_dim <= 8,
            i <= perm@.len(),
            forall|j: int| 0 <= j < i ==> 0 <= #[trigger] perm@[j] < input.n_dim,
            forall|j: int|
                0 <= j < i ==> #[trigger] shape@[j] == input.shape@[perm@[j] as int],
            forall|j: int| i <= j < 8 ==> #[trigger] shape@[j] == 0i32,
        decreases perm@.len() - i,
    {
        let p = perm[i];
        if p < 0 || p as usize >= input.n_dim {
            return None;
        }
        shape[i] = input.shape[p as usize];
        i += 1;
    }
    Some((shape, input.n_dim))
}

/// Every padded dimension stays within the `i32` range.
pub open spec fn pad_fits(dims: Seq<i32>, low: Seq<i32>, high: Seq<i32>, interior: Seq<i32>) -> bool {
    forall|i: int|
        0 <= i < dims.len() ==> i32::MIN <= #[trigger] (dims[i] + low[i]) + high[i] + (if dims[i]
            >= 1 {
            dims[i] - 1
        } else {
            0
        }) * interior[i] <= i32::MAX
}

/// The pad rule: `out[i] = in[i] + low[i] + high[i] + max(in[i]-1,0) * interior[i]`.
///
/// Fails with `ShapeOverflow` exactly when some padded dimension leaves the
/// `i32` range; this function demands attribute lists of the input's rank.
pub fn pad_shape(input: &TensorData, low: &Vec<i32>, high: &Vec<i32>, interior: &Vec<i32>) -> (r:
    Result<([i32; 8], usize), EggError>)
    requires
        input.n_dim <= 8,
        low@.len() == input.n_dim,
        high@.len() == input.n_dim,
        interior@.len() == input.n_dim,
    ensures
        r is Err <==> !pad_fits(
            Seq::new(input.n_dim as nat, |i: int| input.shape@[i]),
            low@,
            high@,
            interior@,
        ),
        r is Err ==> r->Err_0 == EggError::ShapeOverflow,
        r matches Ok((shape, n_dim)) ==> n_dim == input.n_dim && forall|i: int|
            0 <= i < 8 ==> #[trigger] shape@[i] as int == if i < input.n_dim {
                input.shape@[i] + low@[i] + high@[i] + (if input.shape@[i] >= 1 {
                    input.shape@[i] - 1
                } else {
                    0
                }) * interior@[i]
            } else {
                0
            },
{
    let mut shape: [i32; 8] = [0; 8];
    let mut i: usize = 0;
    while i < low.len()
        invariant
            input.n_dim <= 8,
            low@.len() == input.n_dim,
            high@.len() == input.n_dim,
            interior@.len() == input.n_dim,
            i <= input.n_dim,
            forall|j: int|
                0 <= j < i ==> #[trigger] shape@[j] as int == input.shape@[j] + low@[j] + high@[j]
                    + (if input.shape@[j] >= 1 {
                    input.shape@[j] - 1
                } else {
                    0
                }) * interior@[j],
            forall|j: int| i <= j < 8 ==> #[trigger] shape@[j] == 0i32,
        decreases low@.len() - i,
    {
        let d: i128 = input.shape[i] as i128;
        let inter: i128 = interior[i] as i128;
        let stretched: i128 = if d >= 1 {
            proof {
                assert((d - 1) * inter <= 0x4000_0000_0000_0000i128 && (d - 1) * inter
                    >= -0x4000_0000_0000_0000i128) by (nonlinear_arith)
                    requires
                        1 <= d <= 0x8000_0000i128,
                        -0x8000_0000i128 <= inter <= 0x8000_0000i128,
                ;
            }
            (d - 1) * inter
        } else {
            0
        };
        let out: i128 = d + (low[i] as i128) + (high[i] as i128) + stretched;
        if out > (i32::MAX as i128) || out < (i32::MIN as i128) {
            proof {
                let dims = Seq::new(input.n_dim as nat, |j: int| input.shape@[j]);
                assert(dims[i as int] == input.shape@[i as int]);
                assert(out as int == (dims[i as int] + low@[i as int]) + high@[i as int] + (
                if dims[i as int] >= 1 {
                    dims[i as int] - 1
                } else {
                    0
                }) * interior@[i as int]);
                assert(!pad_fits(dims, low@, high@, interior@));
            }
            return Err(EggError::ShapeOverflow);
        }
        shape[i] = out as i32;
        i += 1;
    }
    proof {
        let dims = Seq::new(input.n_dim as nat, |j: int| input.shape@[j]);
        assert forall|j: int| 0 <= j < dims.len() implies i32::MIN <= #[trigger] (dims[j] + low@[j])
            + high@[j] + (if dims[j] >= 1 {
            dims[j] - 1
        } else {
            0
        }) * interior@[j] <= i32::MAX by {
            assert(dims[j] == input.shape@[j]);
            assert(shape@[j] as int == input.shape@[j] + low@[j] + high@[j] + (if input.shape@[j]
                >= 1 {
                input.shape@[j] - 1
            } else {
                0
            }) * interior@[j]);
        }
        assert(pad_fits(dims, low@, high@, interior@));
    }
    Ok((shape, input.n_dim))
}

/// Membership of a value in a dimension list.
pub open spec fn seq_has(s: Seq<i32>, v: i32) -> bool {
    exists|j: int| 0 <= j < s.len() && s[j] == v
}

/// The list with the entry at position `i` removed; out-of-range positions
/// remove nothing.
pub open spec fn remove_at_i32(s: Seq<i32>, i: int) -> Seq<i32> {
    if 0 <= i < s.len() {
        s.subrange(0, i) + s.subrange(i + 1, s.len() as int)
    } else {
        s
    }
}

/// The slice sizes kept by a gather: those whose position is neither
/// collapsed nor operand-batching.
pub open spec fn kept_sizes(sizes: Seq<i32>, collapsed: Seq<i32>, batching: Seq<i32>) -> Seq<i32>
    decreases sizes.len(),
{
    if sizes.len() == 0 {
        Seq::empty()
    } else {
        let prefix = kept_sizes(sizes.drop_last(), collapsed, batching);
        if seq_has(collapsed, (sizes.len() - 1) as i32) || seq_has(
            batching,
            (sizes.len() - 1) as i32,
        ) {
            prefix
        } else {
            prefix.push(sizes.last())
        }
    }
}

/// How many of the values `0, 1, ..., n-1` the list does not contain.
pub open spec fn count_not_in(s: Seq<i32>, n: int) -> int
    decreases n,
{
    if n <= 0 {
        0
    } else {
        count_not_in(s, n - 1) + if seq_has(s, (n - 1) as i32) {
            0int
        } else {
            1int
        }
    }
}

pub proof fn lemma_count_not_in_bounds(s: Seq<i32>, n: int)
    requires
        n >= 0,
    ensures
        0 <= count_not_in(s, n) <= n,
    decreases n,
{
    if n > 0 {
        lemma_count_not_in_bounds(s, n - 1);
    }
}

/// A dimension list in strictly increasing order.
pub open spec fn strictly_increasing(s: Seq<i32>) -> bool {
    forall|i: int, j: int| 0 <= i < j < s.len() ==> s[i] < s[j]
}

/// Exact membership test against a dimension list.
pub fn contains_i32(s: &[i32], v: i32) -> (r: bool)
    ensures
        r <==> seq_has(s@, v),
{
    let mut j: usize = 0;
    while j < s.len()
        invariant
            j <= s@.len(),
            forall|j2: int| 0 <= j2 < j ==> s@[j2] != v,
        decreases s@.len() - j,
    {
        if s[j] == v {
            return true;
        }
        j += 1;
    }
    false
}

/// The concatenation rule: the output agrees with the first component except
/// along `axis`, where the component sizes add up.
///
/// `axis_sizes` are the components' sizes along the axis; `first` is the
/// first component's shape data.
pub fn concat_shape(first: &TensorData, axis: usize, axis_sizes: &Vec<i32>) -> (r: Option<
    ([i32; 8], usize)>)
    requires
        first.n_dim <= 8,
    ensures
        r is Some <==> axis < first.n_dim && prefix_sums_bounded(axis_sizes@),
        r matches Some((shape, n_dim)) ==> n_dim == first.n_dim && shape@[axis as int] as int
            == sum_i32(axis_sizes@) && forall|i: int|
            0 <= i < 8 && i != axis ==> #[trigger] shape@[i] == if i < first.n_dim {
                first.shape@[i]
            } else {
                0i32
            },
{
    if axis >= first.n_dim {
        return None;
    }
    let mut total: i64 = 0;
    let mut i: usize = 0;
    proof {
        assert(axis_sizes@.take(0) =~= Seq::<i32>::empty());
    }
    while i < axis_sizes.len()
        invariant
            i <= axis_sizes@.len(),
            total == sum_i32(axis_sizes@.take(i as int)),
            i32::MIN as i64 <= total <= i32::MAX as i64,
            forall|j: int|
                0 <= j <= i ==> i32::MIN <= #[trigger] sum_i32(axis_sizes@.take(j)) <= i32::MAX,
        decreases axis_sizes@.len() - i,
    {
        proof {
            assert(axis_sizes@.take(i as int + 1).drop_last() =~= axis_sizes@.take(i as int));
        }
        let next: i64 = total + (axis_sizes[i] as i64);
        if next > (i32::MAX as i64) || next < (i32::MIN as i64) {
            proof {
                assert(sum_i32(axis_sizes@.take(i as int + 1)) == next);
                assert(!prefix_sums_bounded(axis_sizes@));
            }
            return None;
        }
        total = next;
        i += 1;
    }
    proof {
        assert(axis_sizes@.take(axis_sizes@.len() as int) =~= axis_sizes@);
        assert(prefix_sums_bounded(axis_sizes@));
    }
    let mut shape: [i32; 8] = [0; 8];
    let mut i2: usize = 0;
    while i2 < first.n_dim
        invariant
            first.n_dim <= 8,
            i2 <= first.n_dim,
            forall|j: int| 0 <= j < i2 ==> #[trigger] shape@[j] == first.shape@[j],
            forall|j: int| i2 <= j < 8 ==> #[trigger] shape@[j] == 0i32,
        decreases first.n_dim - i2,
    {
        shape[i2] = first.shape[i2];
        i2 += 1;
    }
    shape[axis] = total as i32;
    Some((shape, first.n_dim))
}

/// Sum of a dimension list as an unbounded integer.
pub open spec fn sum_i32(s: Seq<i32>) -> int
    decreases s.len(),
{
    if s.len() == 0 {
        0
    } else {
        sum_i32(s.drop_last()) + s.last()
    }
}

/// Every prefix sum of the list stays within the `i32` range.
pub open spec fn prefix_sums_bounded(s: Seq<i32>) -> bool {
    forall|j: int| 0 <= j <= s.len() ==> i32::MIN <= #[trigger] sum_i32(s.take(j)) <= i32::MAX
}

/// The class containing `c` holds a `Num` node with value `v`.
pub open spec fn class_has_num(g: EGraph, c: int, v: i32) -> bool {
    exists|k: int|
        0 <= k < g.nodes@.len() && (#[trigger] g.nodes@[k]).op == OpKind::Num && g.nodes@[k].literal
            == v && root_of(g.uf@, g.owner@[k] as int) == root_of(g.uf@, c)
}

/// The class containing `c` holds a list node with exactly these children.
pub open spec fn class_has_vec(g: EGraph, c: int, ids: Seq<usize>) -> bool {
    exists|k: int|
        0 <= k < g.nodes@.len() && (#[trigger] g.nodes@[k]).op == OpKind::VecOp
            && g.nodes@[k].children@ =~= ids && root_of(g.uf@, g.owner@[k] as int) == root_of(
            g.uf@,
            c,
        )
}

/// The scalar payload of the class containing `id`: the value of a `Num`
/// node stored in it, if any.
pub fn get_num(egraph: &EGraph, id: usize) -> (r: Option<i32>)
    requires
        egraph.wf(),
        id < egraph.n_classes(),
    ensures
        r matches Some(v) ==> class_has_num(*egraph, id as int, v),
        r is None ==> forall|v: i32| !class_has_num(*egraph, id as int, v),
{
    let root = egraph.find(id);
    let mut k: usize = 0;
    while k < egraph.nodes.len()
        invariant
            egraph.wf(),
            id < egraph.n_classes(),
            root as int == root_of(egraph.uf@, id as int),
            k <= egraph.nodes@.len(),
            forall|k2: int|
                0 <= k2 < k ==> !((#[trigger] egraph.nodes@[k2]).op == OpKind::Num && root_of(
                    egraph.uf@,
                    egraph.owner@[k2] as int,
                ) == root_of(egraph.uf@, id as int)),
        decreases egraph.nodes@.len() - k,
    {
        if matches!(egraph.nodes[k].op, OpKind::Num) {
            if egraph.find(egraph.owner[k]) == root {
                return Some(egraph.nodes[k].literal);
            }
        }
        k += 1;
    }
    None
}

/// The child list of a `Vec` node stored in the class containing `id`.
pub fn get_vec(egraph: &EGraph, id: usize) -> (r: Option<Vec<usize>>)
    requires
        egraph.wf(),
        id < egraph.n_classes(),
    ensures
        r matches Some(ids) ==> class_has_vec(*egraph, id as int, ids@) && forall|j: int|
            0 <= j < ids@.len() ==> #[trigger] ids@[j] < egraph.n_classes(),
        r is None ==> forall|ids: Seq<usize>| !class_has_vec(*egraph, id as int, ids),
{
    let root = egraph.find(id);
    let mut k: usize = 0;
    while k < egraph.nodes.len()
        invariant
            egraph.wf(),
            id < egraph.n_classes(),
            root as int == root_of(egraph.uf@, id as int),
            k <= egraph.nodes@.len(),
            forall|k2: int|
                0 <= k2 < k ==> !((#[trigger] egraph.nodes@[k2]).op == OpKind::VecOp && root_of(
                    egraph.uf@,
                    egraph.owner@[k2] as int,
                ) == root_of(egraph.uf@, id as int)),
        decreases egraph.nodes@.len() - k,
    {
        if matches!(egraph.nodes[k].op, OpKind::VecOp) {
            if egraph.find(egraph.owner[k]) == root {
                let ids = egraph.nodes[k].clone_node().children;
                return Some(ids);
            }
        }
        k += 1;
    }
    None
}

/// The values of the `Num` nodes listed by a `Vec` node in the class
/// containing `id`: the decoded form of a dimension- or permutation-list
/// attribute.
pub fn get_vec_of_nums(egraph: &EGraph, id: usize) -> (r: Option<Vec<i32>>)
    requires
        egraph.wf(),
        id < egraph.n_classes(),
    ensures
        r matches Some(v) ==> exists|ids: Seq<usize>|
            class_has_vec(*egraph, id as int, ids) && ids.len() == v@.len() && forall|j: int|
                0 <= j < v@.len() ==> class_has_num(*egraph, #[trigger] ids[j] as int, v@[j]),
{
    let ids = match get_vec(egraph, id) {
        Some(ids) => ids,
        None => {
            return None;
        },
    };
    let mut v: Vec<i32> = Vec::new();
    let mut j: usize = 0;
    while j < ids.len()
        invariant
            egraph.wf(),
            id < egraph.n_classes(),
            j <= ids@.len(),
            v@.len() == j,
            forall|i: int| 0 <= i < ids@.len() ==> #[trigger] ids@[i] < egraph.n_classes(),
            class_has_vec(*egraph, id as int, ids@),
            forall|i: int|
                0 <= i < j ==> class_has_num(*egraph, #[trigger] ids@[i] as int, v@[i]),
        decreases ids@.len() - j,
    {
        match get_num(egraph, ids[j]) {
            Some(n) => {
                v.push(n);
            },
            None => {
                return None;
            },
        }
        j += 1;
    }
    Some(v)
}

/// Parses the `@d0_d1_...` suffix of an input tensor's symbolic name.
///
/// Fails with `ShapeOverflow` exactly when the suffix lists more than
/// `MAX_DIM` dimensions; a name without a well-formed suffix yields a tensor
/// of unknown rank rather than a shape.
pub fn parse_shape_from_name(s: &str) -> (r: Result<([i32; 8], usize), EggError>)
    ensures
        r is Err ==> r->Err_0 == EggError::ShapeOverflow,
        r matches Ok((shape, n_dim)) ==> n_dim <= 8,
{
    let n = s.unicode_len();
    let mut at: usize = n;
    let mut i: usize = 0;
    while i < n
        invariant
            n == s@.len(),
            i <= n,
            at == n || at < i,
        decreases n - i,
    {
        if at == n && s.get_char(i) == '@' {
            at = i;
        }
        i += 1;
    }
    if at == n {
        // no shape suffix: unknown rank
        let shape: [i32; 8] = [0; 8];
        return Ok((shape, 0));
    }
    let mut dims: Vec<i32> = Vec::new();
    let mut cur: i64 = 0;
    let mut have_digit: bool = false;
    let mut p: usize = at + 1;
    while p < n
        invariant
            n == s@.len(),
            at < p <= n,
            0 <= cur <= i32::MAX as i64,
        decreases n - p,
    {
        let c = s.get_char(p);
        if c == '_' {
            if !have_digit {
                let shape: [i32; 8] = [0; 8];
                return Ok((shape, 0));
            }
            dims.push(cur as i32);
            cur = 0;
            have_digit = false;
        } else if c >= '0' && c <= '9' {
            let d = (c as u32) - ('0' as u32);
            if cur > 214748363i64 {
                let shape: [i32; 8] = [0; 8];
                return Ok((shape, 0));
            }
            cur = cur * 10 + (d as i64);
            have_digit = true;
        } else {
            // malformed suffix: unknown rank
            let shape: [i32; 8] = [0; 8];
            return Ok((shape, 0));
        }
        p += 1;
    }
    if !have_digit {
        let shape: [i32; 8] = [0; 8];
        return Ok((shape, 0));
    }
    dims.push(cur as i32);
    let (shape, n_dim) = match shape_from_dim(dims.as_slice()) {
        Ok(sd) => sd,
        Err(e) => {
            return Err(e);
        },
    };
    Ok((shape, n_dim))
}

impl EGraph {
    /// Computes the analysis value a fresh class for `n` would carry,
    /// following the propagation rules of the term language.
    pub fn make_data(&self, n: &Mdl) -> (r: Result<TensorData, EggError>)
        requires
            self.wf(),
            crate::egraph::node_in_range(*n, self.n_classes()),
        ensures
            r is Err ==> r->Err_0 == EggError::ShapeOverflow,
            n.op == OpKind::Num ==> (r matches Ok(d) && d.kind == DataKind::Scalar && d.val
                == n.literal),
            n.op == OpKind::Var ==> (r matches Ok(d) && d.kind == DataKind::Name && d.val
                == n.literal),
            propagates_first_operand(n.op) && n.children@.len() >= 1 ==> r == Ok::<
                TensorData,
                EggError,
            >(self.analysis@[root_of(self.uf@, n.children@[0] as int)]),
    {
        match n.op {
            OpKind::Num => Ok(TensorData::scalar(n.literal)),
            OpKind::Var => {
                let mut d = TensorData::name();
                d.val = n.literal;
                Ok(d)
            },
            OpKind::VecOp => Ok(TensorData::scalar(0)),
            OpKind::ConstantOp => {
                let mut shape: [i32; 8] = [0; 8];
                shape[0] = 1;
                Ok(TensorData::tensor(shape, 1))
            },
            OpKind::Input => {
                if n.children.len() < 1 {
                    return Ok(TensorData::tensor([0; 8], 0));
                }
                let name_data = self.class_data(n.children[0]);
                if !matches!(name_data.kind, DataKind::Name) || name_data.val < 0 {
                    return Ok(TensorData::tensor([0; 8], 0));
                }
                let sym = name_data.val as usize;
                if sym >= self.symbols.len() {
                    return Ok(TensorData::tensor([0; 8], 0));
                }
                let (shape, n_dim) = match parse_shape_from_name(self.symbols[sym].as_str()) {
                    Ok(sd) => sd,
                    Err(e) => {
                        return Err(e);
                    },
                };
                Ok(TensorData::tensor(shape, n_dim))
            },
            OpKind::GatherOp => {
                // the gather result type is not reconstructed here: merges
                // over it claim nothing
                Ok(TensorData::tensor([0; 8], 0))
            },
            OpKind::ReshapeOp | OpKind::IotaOp | OpKind::BroadcastInDimOp
                | OpKind::DotGeneralOp => {
                let attr_idx: usize = match n.op {
                    OpKind::ReshapeOp => 1,
                    OpKind::IotaOp => 1,
                    OpKind::BroadcastInDimOp => 1,
                    _ => 7,
                };
                if n.children.len() <= attr_idx {
                    return Ok(TensorData::tensor([0; 8], 0));
                }
                match get_vec_of_nums(self, n.children[attr_idx]) {
                    Some(dims) => {
                        let (shape, n_dim) = match shape_from_dim(dims.as_slice()) {
                            Ok(sd) => sd,
                            Err(e) => {
                                return Err(e);
                            },
                        };
                        Ok(TensorData::tensor(shape, n_dim))
                    },
                    None => Ok(TensorData::tensor([0; 8], 0)),
                }
            },
            OpKind::TransposeOp => {
                if n.children.len() < 2 {
                    return Ok(TensorData::tensor([0; 8], 0));
                }
                let input = self.class_data(n.children[0]);
                if input.n_dim > 8 {
                    return Ok(TensorData::tensor([0; 8], 0));
                }
                match get_vec_of_nums(self, n.children[1]) {
                    Some(perm) => {
                        match transpose_shape(&input, &perm) {
                            Some((shape, n_dim)) => Ok(TensorData::tensor(shape, n_dim)),
                            None => Ok(TensorData::tensor([0; 8], 0)),
                        }
                    },
                    None => Ok(TensorData::tensor([0; 8], 0)),
                }
            },
            OpKind::ConcatenateOp => {
                if n.children.len() < 2 {
                    return Ok(TensorData::tensor([0; 8], 0));
                }
                let axis = match get_num(self, n.children[1]) {
                    Some(a) => a,
                    None => {
                        return Ok(TensorData::tensor([0; 8], 0));
                    },
                };
                if axis < 0 {
                    return Ok(TensorData::tensor([0; 8], 0));
                }
                let comps = match get_vec(self, n.children[0]) {
                    Some(c) => c,
                    None => {
                        return Ok(TensorData::tensor([0; 8], 0));
                    },
                };
                if comps.len() == 0 {
                    return Ok(TensorData::tensor([0; 8], 0));
                }
                let first = self.class_data(comps[0]);
                if first.n_dim > 8 || axis as usize >= first.n_dim {
                    return Ok(TensorData::tensor([0; 8], 0));
                }
                let mut axis_sizes: Vec<i32> = Vec::new();
                let mut j: usize = 0;
                while j < comps.len()
                    invariant
                        self.wf(),
                        (axis as usize) < 8,
                        j <= comps@.len(),
                        forall|i: int|
                            0 <= i < comps@.len() ==> #[trigger] comps@[i] < self.n_classes(),
                    decreases comps@.len() - j,
                {
                    let d = self.class_data(comps[j]);
                    axis_sizes.push(d.shape[axis as usize]);
                    j += 1;
                }
                match concat_shape(&first, axis as usize, &axis_sizes) {
                    Some((shape, n_dim)) => Ok(TensorData::tensor(shape, n_dim)),
                    None => Ok(TensorData::tensor([0; 8], 0)),
                }
            },
            _ => {
                // elementwise and conservatively propagated operators
                if n.children.len() < 1 {
                    return Ok(TensorData::tensor([0; 8], 0));
                }
                Ok(self.class_data(n.children[0]))
            },
        }
    }

    /// Inserts an e-node, computing the analysis of a fresh class by the
    /// propagation rules. Hashcons: a node congruent to a stored one yields
    /// that node's class and leaves the graph unchanged.
    pub fn add(&mut self, n: Mdl) -> (r: Result<usize, EggError>)
        requires
            old(self).wf(),
            crate::egraph::node_in_range(n, old(self).n_classes()),
        ensures
            r is Err ==> r->Err_0 == EggError::ShapeOverflow && *final(self) == *old(self),
            r matches Ok(id) ==> {
                &&& final(self).wf()
                &&& (old(self).clean() ==> final(self).clean())
                &&& id < final(self).n_classes()
                &&& crate::egraph::is_root(final(self).uf@, id as int)
                &&& old(self).n_classes() <= final(self).n_classes() <= old(self).n_classes() + 1
                &&& forall|k: int|
                    0 <= k < old(self).n_classes() ==> root_of(final(self).uf@, k) == root_of(
                        old(self).uf@,
                        k,
                    )
                &&& forall|k: int|
                    0 <= k < old(self).n_classes() ==> final(self).uf@[k] == old(self).uf@[k]
                &&& forall|k: int|
                    0 <= k < old(self).n_classes() ==> final(self).analysis@[k] == old(
                        self,
                    ).analysis@[k]
                &&& final(self).symbols@ == old(self).symbols@
                &&& final(self).nodes@.len() >= old(self).nodes@.len()
                &&& forall|k: int|
                    0 <= k < old(self).nodes@.len() ==> final(self).nodes@[k] == old(self).nodes@[k]
                        && final(self).owner@[k] == old(self).owner@[k]
                        && final(self).node_blacklist@[k] == old(self).node_blacklist@[k]
                &&& (exists|k: int|
                    0 <= k < old(self).nodes@.len() && crate::egraph::congruent(
                        old(self).uf@,
                        #[trigger] old(self).nodes@[k],
                        n,
                    )) ==> *final(self) == *old(self) && exists|k: int|
                    0 <= k < old(self).nodes@.len() && crate::egraph::congruent(
                        old(self).uf@,
                        #[trigger] old(self).nodes@[k],
                        n,
                    ) && id as int == root_of(old(self).uf@, old(self).owner@[k] as int)
                &&& (forall|k: int|
                    0 <= k < old(self).nodes@.len() ==> !crate::egraph::congruent(
                        old(self).uf@,
                        #[trigger] old(self).nodes@[k],
                        n,
                    )) ==> final(self).n_classes() == old(self).n_classes() + 1 && id as int == old(
                    self,
                ).n_classes() && final(self).nodes@.len() == old(self).nodes@.len() + 1
                    && crate::egraph::congruent(
                    final(self).uf@,
                    final(self).nodes@[old(self).nodes@.len() as int],
                    n,
                ) && final(self).owner@[old(self).nodes@.len() as int] == id
            },
    {
        let data = match self.make_data(&n) {
            Ok(d) => d,
            Err(e) => {
                return Err(e);
            },
        };
        Ok(self.add_with_data(n, data))
    }
}

} // verus!
