//! The builder API front-ends use to construct the initial expression, and
//! the composed optimization entry points around it.
use vstd::prelude::*;

use crate::analysis::pad_fits;

use crate::egraph::EGraph;
use crate::model::{
    dec_rep, dims_suffix, node_backward, padded_shape_spec, push_dec, push_dims_joined,
    shape_from_dim, EggError, Mdl, OpKind, RecExpr,
};
use crate::model;
use crate::optimize::{
    apply_ilp_solution, construct_best_rec, greedy_picks, prep_ilp_data, select_extraction,
    CostModel, IlpData, SolvedResults,
};
use crate::rewrites::{parse_rule, pre_defined_multi, pre_defined_rules, rules_from_str, Rewrite, RuleCond};
use crate::runner::{run_rules, MultiPatterns, RunnerConfig, StopReason};

verus! {

/// A tensor handle: the index of its e-node in the expression under
/// construction, with its inferred shape.
#[derive(Clone, Copy)]
pub struct TensorInfo {
    /// Index into the `RecExpr` being built.
    pub id: usize,
    /// Shape of the tensor, zero-padded to `MAX_DIM` entries.
    pub shape: [i32; 8],
    /// Number of real dimensions.
    pub n_dim: usize,
}

/// Generates fresh names for weight and input tensors: `w_0, w_1, ...` and
/// `input_0, input_1, ...`.
pub struct NameGen {
    pub count_input: u32,
    pub count_weight: u32,
}

impl NameGen {
    pub fn new() -> (r: NameGen)
        ensures
            r.count_input == 0,
            r.count_weight == 0,
    {
        NameGen { count_input: 0, count_weight: 0 }
    }

    /// The next weight name: `w_` followed by the running count.
    pub fn new_weight_name(&mut self) -> (r: String)
        requires
            old(self).count_weight < u32::MAX,
        ensures
            r@ == "w_"@ + dec_rep(old(self).count_weight as nat),
            final(self).count_weight == old(self).count_weight + 1,
            final(self).count_input == old(self).count_input,
    {
        let mut name = String::from_str("w_");
        push_dec(&mut name, self.count_weight);
        self.count_weight = self.count_weight + 1;
        name
    }

    /// The next input name: `input_` followed by the running count.
    pub fn new_input_name(&mut self) -> (r: String)
        requires
            old(self).count_input < u32::MAX,
        ensures
            r@ == "input_"@ + dec_rep(old(self).count_input as nat),
            final(self).count_input == old(self).count_input + 1,
            final(self).count_weight == old(self).count_weight,
    {
        let mut name = String::from_str("input_");
        push_dec(&mut name, self.count_input);
        self.count_input = self.count_input + 1;
        name
    }
}

/// Builds the initial expression operator by operator. Scalar attribute
/// nodes are shared through `scalar_map`, and every returned handle records
/// the inferred shape.
pub struct CppGraphConverter {
    pub rec_expr: RecExpr,
    pub scalar_map: Vec<(i32, usize)>,
    pub name_gen: NameGen,
    pub tensorinfo_map: Vec<Option<TensorInfo>>,
}

/// A converter whose expression is well-formed and whose caches point into
/// it: every scalar-map entry names the shared `Num` node for its value.
pub open spec fn converter_wf(c: CppGraphConverter) -> bool {
    &&& c.rec_expr.wf()
    &&& forall|i: int|
        0 <= i < c.scalar_map@.len() ==> num_at(
            c.rec_expr,
            (#[trigger] c.scalar_map@[i]).1 as int,
            c.scalar_map@[i].0,
        )
    &&& c.tensorinfo_map@.len() == c.rec_expr.nodes@.len()
}

/// Node `id` of the expression is the scalar attribute `val`.
pub open spec fn num_at(expr: RecExpr, id: int, val: i32) -> bool {
    &&& 0 <= id < expr.nodes@.len()
    &&& expr.nodes@[id].op == OpKind::Num
    &&& expr.nodes@[id].literal == val
}

/// Node `id` of the expression is a naming leaf for symbol-table entry
/// `sym`.
pub open spec fn var_at(expr: RecExpr, id: int, sym: i32) -> bool {
    &&& 0 <= id < expr.nodes@.len()
    &&& expr.nodes@[id].op == OpKind::Var
    &&& expr.nodes@[id].literal == sym
    &&& expr.nodes@[id].children@.len() == 0
}

/// Node `id` of the expression is a list node whose entries are the scalar
/// attributes `vals`, in order.
pub open spec fn vec_at(expr: RecExpr, id: int, vals: Seq<i32>) -> bool {
    &&& 0 <= id < expr.nodes@.len()
    &&& expr.nodes@[id].op == OpKind::VecOp
    &&& expr.nodes@[id].literal == 0
    &&& expr.nodes@[id].children@.len() == vals.len()
    &&& forall|j: int|
        0 <= j < vals.len() ==> num_at(
            expr,
            #[trigger] expr.nodes@[id].children@[j] as int,
            vals[j],
        )
}

/// The real dimensions of a handle, as a sequence.
pub open spec fn dims_of(info: TensorInfo) -> Seq<i32> {
    Seq::new(info.n_dim as nat, |i: int| info.shape@[i])
}

/// The handle ids of a component list, in order.
pub open spec fn input_ids(inputs: Seq<TensorInfo>) -> Seq<usize> {
    Seq::new(inputs.len(), |i: int| inputs[i].id)
}

/// Node `id` of the expression is a list node over exactly these child ids.
pub open spec fn ids_vec_at(expr: RecExpr, id: int, ids: Seq<usize>) -> bool {
    &&& 0 <= id < expr.nodes@.len()
    &&& expr.nodes@[id].op == OpKind::VecOp
    &&& expr.nodes@[id].literal == 0
    &&& expr.nodes@[id].children@ == ids
}

/// The builder appended exactly one operator node: it is the last node of
/// the expression, carries the given tag and children, and `info` is its
/// registered handle.
pub open spec fn appended_op(
    c2: CppGraphConverter,
    c1: CppGraphConverter,
    op: OpKind,
    children: Seq<usize>,
    info: TensorInfo,
) -> bool {
    &&& grew_from(c2, c1)
    &&& c2.rec_expr.nodes@.len() >= 1
    &&& info.id == c2.rec_expr.nodes@.len() - 1
    &&& c2.rec_expr.nodes@.last().op == op
    &&& c2.rec_expr.nodes@.last().literal == 0
    &&& c2.rec_expr.nodes@.last().children@ == children
    &&& c2.tensorinfo_map@[info.id as int] == Some(info)
}

/// Growth composes.
pub proof fn lemma_grew_trans(c3: CppGraphConverter, c2: CppGraphConverter, c1: CppGraphConverter)
    requires
        grew_from(c3, c2),
        grew_from(c2, c1),
    ensures
        grew_from(c3, c1),
{
}

/// Scalar attributes survive later appends.
pub proof fn lemma_num_at_grows(c1: CppGraphConverter, c2: CppGraphConverter, id: int, val: i32)
    requires
        num_at(c1.rec_expr, id, val),
        grew_from(c2, c1),
    ensures
        num_at(c2.rec_expr, id, val),
{
}

/// List attributes survive later appends.
pub proof fn lemma_vec_at_grows(
    c1: CppGraphConverter,
    c2: CppGraphConverter,
    id: int,
    vals: Seq<i32>,
)
    requires
        vec_at(c1.rec_expr, id, vals),
        grew_from(c2, c1),
    ensures
        vec_at(c2.rec_expr, id, vals),
{
    assert forall|j: int| 0 <= j < vals.len() implies num_at(
        c2.rec_expr,
        #[trigger] c2.rec_expr.nodes@[id].children@[j] as int,
        vals[j],
    ) by {
        assert(c2.rec_expr.nodes@[id] == c1.rec_expr.nodes@[id]);
        assert(num_at(c1.rec_expr, c1.rec_expr.nodes@[id].children@[j] as int, vals[j]));
    }
}

/// A fresh, empty converter.
pub fn new_converter() -> (r: CppGraphConverter)
    ensures
        converter_wf(r),
        r.rec_expr.nodes@.len() == 0,
        r.rec_expr.symbols@.len() == 0,
        r.scalar_map@.len() == 0,
        r.tensorinfo_map@.len() == 0,
        r.name_gen.count_input == 0,
        r.name_gen.count_weight == 0,
{
    CppGraphConverter {
        rec_expr: RecExpr::new(),
        scalar_map: Vec::new(),
        name_gen: NameGen::new(),
        tensorinfo_map: Vec::new(),
    }
}

impl CppGraphConverter {
    /// The expression built so far.
    pub fn rec_expr(self) -> (r: RecExpr)
        ensures
            r == self.rec_expr,
    {
        self.rec_expr
    }

    fn push_node(&mut self, node: Mdl) -> (r: usize)
        requires
            converter_wf(*old(self)),
            node_backward(node, old(self).rec_expr.nodes@.len() as int),
        ensures
            converter_wf(*final(self)),
            final(self).rec_expr.nodes@ == old(self).rec_expr.nodes@.push(node),
            final(self).rec_expr.symbols@ == old(self).rec_expr.symbols@,
            final(self).scalar_map@ == old(self).scalar_map@,
            final(self).tensorinfo_map@ == old(self).tensorinfo_map@.push(None),
            r == old(self).rec_expr.nodes@.len(),
            grew_from(*final(self), *old(self)),
    {
        let id = self.rec_expr.add(node);
        self.tensorinfo_map.push(None);
        id
    }

    fn record_info(&mut self, info: TensorInfo)
        requires
            converter_wf(*old(self)),
            info.id < old(self).tensorinfo_map@.len(),
        ensures
            converter_wf(*final(self)),
            final(self).rec_expr == old(self).rec_expr,
            final(self).scalar_map@ == old(self).scalar_map@,
            final(self).tensorinfo_map@ == old(self).tensorinfo_map@.update(
                info.id as int,
                Some(info),
            ),
            grew_from(*final(self), *old(self)),
    {
        self.tensorinfo_map[info.id] = Some(info);
    }

    /// A shared scalar attribute node for `val`.
    fn add_or_get_val(&mut self, val: i32) -> (r: usize)
        requires
            converter_wf(*old(self)),
        ensures
            converter_wf(*final(self)),
            num_at(final(self).rec_expr, r as int, val),
            final(self).rec_expr.symbols@ == old(self).rec_expr.symbols@,
            grew_from(*final(self), *old(self)),
    {
        let mut i: usize = 0;
        while i < self.scalar_map.len()
            invariant
                converter_wf(*self),
                *self == *old(self),
                i <= self.scalar_map@.len(),
            decreases self.scalar_map@.len() - i,
        {
            if self.scalar_map[i].0 == val {
                return self.scalar_map[i].1;
            }
            i += 1;
        }
        let id = self.push_node(Mdl::leaf(OpKind::Num, val));
        self.scalar_map.push((val, id));
        id
    }

    /// A list node over scalar attribute nodes for `seq`.
    fn vec_node(&mut self, seq: &[i32]) -> (r: usize)
        requires
            converter_wf(*old(self)),
        ensures
            converter_wf(*final(self)),
            vec_at(final(self).rec_expr, r as int, seq@),
            final(self).rec_expr.symbols@ == old(self).rec_expr.symbols@,
            grew_from(*final(self), *old(self)),
    {
        let mut ids: Vec<usize> = Vec::new();
        let mut i: usize = 0;
        while i < seq.len()
            invariant
                converter_wf(*self),
                grew_from(*self, *old(self)),
                self.rec_expr.symbols@ == old(self).rec_expr.symbols@,
                i <= seq@.len(),
                ids@.len() == i,
                forall|j: int|
                    0 <= j < i ==> num_at(self.rec_expr, #[trigger] ids@[j] as int, seq@[j]),
            decreases seq@.len() - i,
        {
            let ghost pre = *self;
            let id = self.add_or_get_val(seq[i]);
            proof {
                assert forall|j: int| 0 <= j < i as int implies num_at(
                    self.rec_expr,
                    #[trigger] ids@[j] as int,
                    seq@[j],
                ) by {
                    lemma_num_at_grows(pre, *self, ids@[j] as int, seq@[j]);
                }
            }
            ids.push(id);
            i += 1;
        }
        let ghost ids_view = ids@;
        let ghost pre2 = *self;
        let r = self.push_node(Mdl::node(OpKind::VecOp, ids));
        proof {
            assert(self.rec_expr.nodes@[r as int].children@ == ids_view);
            assert forall|j: int| 0 <= j < seq@.len() implies num_at(
                self.rec_expr,
                #[trigger] ids_view[j] as int,
                seq@[j],
            ) by {
                lemma_num_at_grows(pre2, *self, ids_view[j] as int, seq@[j]);
            }
        }
        r
    }

    /// An input tensor: it appends a `Var` naming node, the block-argument
    /// attribute and the `Input` node over them; the symbolic name carries
    /// the shape as a `@d0_d1_...` suffix, and the handle records the parsed
    /// shape. Fails with `ShapeOverflow` exactly when more than `MAX_DIM`
    /// dimensions are given.
    pub fn new_input(&mut self, block_arg_number: i32, dims: &[i32]) -> (r: Result<
        Box<TensorInfo>,
        EggError,
    >)
        requires
            converter_wf(*old(self)),
            old(self).rec_expr.symbols@.len() < i32::MAX,
        ensures
            converter_wf(*final(self)),
            grew_from(*final(self), *old(self)),
            r is Err <==> dims@.len() > 8,
            r is Err ==> r->Err_0 == EggError::ShapeOverflow && *final(self) == *old(self),
            r matches Ok(info) ==> info.n_dim == dims@.len() && info.shape@ =~= padded_shape_spec(
                dims@,
            ) && final(self).rec_expr.symbols@.len() == old(self).rec_expr.symbols@.len() + 1 && (
            final(self).rec_expr.symbols@.last())@ == "input_"@ + model::dim_rep(
                block_arg_number as int,
            ) + "@"@ + dims_suffix(dims@, 0) && exists|name_id: usize, arg_id: usize|
                appended_op(
                    *final(self),
                    *old(self),
                    OpKind::Input,
                    seq![name_id, arg_id],
                    *info,
                ) && #[trigger] var_at(
                    final(self).rec_expr,
                    name_id as int,
                    old(self).rec_expr.symbols@.len() as i32,
                ) && #[trigger] num_at(final(self).rec_expr, arg_id as int, block_arg_number),
    {
        let (shape, n_dim) = match shape_from_dim(dims) {
            Ok(sd) => sd,
            Err(e) => {
                return Err(e);
            },
        };
        let mut name = String::from_str("input_");
        model::push_dim(&mut name, block_arg_number);
        name.append("@");
        push_dims_joined(&mut name, dims);
        let ghost name_view = name@;
        proof {
            assert(name_view =~= "input_"@ + model::dim_rep(block_arg_number as int) + "@"@
                + dims_suffix(dims@, 0));
        }
        let sym = self.rec_expr.symbols.len();
        self.rec_expr.symbols.push(name);
        let ghost mid = *self;
        let name_id = self.push_node(Mdl::leaf(OpKind::Var, sym as i32));
        let ghost after_var = *self;
        let arg_id = self.add_or_get_val(block_arg_number);
        let ghost after_num = *self;
        let mut children: Vec<usize> = Vec::new();
        children.push(name_id);
        children.push(arg_id);
        let ghost kids = children@;
        let id = self.push_node(Mdl::node(OpKind::Input, children));
        let info = TensorInfo { id, shape, n_dim };
        self.record_info(info);
        proof {
            assert(kids =~= seq![name_id, arg_id]);
            assert(self.rec_expr.nodes@.last().children@ == kids);
            assert(var_at(
                self.rec_expr,
                name_id as int,
                old(self).rec_expr.symbols@.len() as i32,
            ));
            lemma_num_at_grows(after_num, *self, arg_id as int, block_arg_number);
            assert(num_at(self.rec_expr, arg_id as int, block_arg_number));
            assert(appended_op(*self, *old(self), OpKind::Input, seq![name_id, arg_id], info));
            assert((self.rec_expr.symbols@.last())@ == name_view);
        }
        Ok(Box::new(info))
    }

    /// An operator whose output takes the shape of its first operand: it
    /// appends exactly one node, over the inputs' ids in order.
    fn first_operand_shaped(&mut self, op: OpKind, inputs: &Vec<TensorInfo>) -> (r: TensorInfo)
        requires
            converter_wf(*old(self)),
            inputs@.len() >= 1,
            forall|i: int|
                0 <= i < inputs@.len() ==> (#[trigger] inputs@[i]).id
                    < old(self).rec_expr.nodes@.len(),
        ensures
            converter_wf(*final(self)),
            appended_op(
                *final(self),
                *old(self),
                op,
                Seq::new(inputs@.len(), |i: int| inputs@[i].id),
                r,
            ),
            final(self).rec_expr.nodes@.len() == old(self).rec_expr.nodes@.len() + 1,
            final(self).rec_expr.symbols@ == old(self).rec_expr.symbols@,
            r.shape == inputs@[0].shape,
            r.n_dim == inputs@[0].n_dim,
    {
        let mut children: Vec<usize> = Vec::new();
        let mut i: usize = 0;
        while i < inputs.len()
            invariant
                converter_wf(*self),
                *self == *old(self),
                i <= inputs@.len(),
                children@.len() == i,
                forall|j: int|
                    0 <= j < inputs@.len() ==> (#[trigger] inputs@[j]).id
                        < self.rec_expr.nodes@.len(),
                forall|j: int| 0 <= j < i ==> #[trigger] children@[j] == inputs@[j].id,
            decreases inputs@.len() - i,
        {
            children.push(inputs[i].id);
            i += 1;
        }
        let ghost kids = children@;
        let id = self.push_node(Mdl::node(op, children));
        let info = TensorInfo { id, shape: inputs[0].shape, n_dim: inputs[0].n_dim };
        self.record_info(info);
        proof {
            assert(kids =~= Seq::new(inputs@.len(), |i: int| inputs@[i].id));
            assert(self.rec_expr.nodes@.last().children@ == kids);
        }
        info
    }

    /// Elementwise binary operators propagate the left operand's shape and
    /// append exactly one node over the two operand ids.
    fn elementwise(&mut self, op: OpKind, lhs: &TensorInfo, rhs: &TensorInfo) -> (r: TensorInfo)
        requires
            converter_wf(*old(self)),
            lhs.id < old(self).rec_expr.nodes@.len(),
            rhs.id < old(self).rec_expr.nodes@.len(),
        ensures
            converter_wf(*final(self)),
            appended_op(*final(self), *old(self), op, seq![lhs.id, rhs.id], r),
            final(self).rec_expr.nodes@.len() == old(self).rec_expr.nodes@.len() + 1,
            final(self).rec_expr.symbols@ == old(self).rec_expr.symbols@,
            r.shape == lhs.shape,
            r.n_dim == lhs.n_dim,
    {
        let mut inputs: Vec<TensorInfo> = Vec::new();
        inputs.push(*lhs);
        inputs.push(*rhs);
        let r = self.first_operand_shaped(op, &inputs);
        proof {
            let s2 = Seq::new(inputs@.len(), |i: int| inputs@[i].id);
            assert(s2.len() == 2);
            assert(s2[0] == lhs.id);
            assert(s2[1] == rhs.id);
            assert(s2 =~= seq![lhs.id, rhs.id]);
        }
        r
    }

    fn unary(&mut self, op: OpKind, inpt: &TensorInfo) -> (r: TensorInfo)
        requires
            converter_wf(*old(self)),
            inpt.id < old(self).rec_expr.nodes@.len(),
        ensures
            converter_wf(*final(self)),
            appended_op(*final(self), *old(self), op, seq![inpt.id], r),
            final(self).rec_expr.nodes@.len() == old(self).rec_expr.nodes@.len() + 1,
            final(self).rec_expr.symbols@ == old(self).rec_expr.symbols@,
            r.shape == inpt.shape,
            r.n_dim == inpt.n_dim,
    {
        let mut inputs: Vec<TensorInfo> = Vec::new();
        inputs.push(*inpt);
        let r = self.first_operand_shaped(op, &inputs);
        proof {
            let s2 = Seq::new(inputs@.len(), |i: int| inputs@[i].id);
            assert(s2.len() == 1);
            assert(s2[0] == inpt.id);
            assert(s2 =~= seq![inpt.id]);
        }
        r
    }

    pub fn new_mul_op(&mut self, lhs: &TensorInfo, rhs: &TensorInfo) -> (r: Box<TensorInfo>)
        requires
            converter_wf(*old(self)),
            lhs.id < old(self).rec_expr.nodes@.len(),
            rhs.id < old(self).rec_expr.nodes@.len(),
        ensures
            converter_wf(*final(self)),
            appended_op(*final(self), *old(self), OpKind::MulOp, seq![lhs.id, rhs.id], *r),
            final(self).rec_expr.nodes@.len() == old(self).rec_expr.nodes@.len() + 1,
            final(self).rec_expr.symbols@ == old(self).rec_expr.symbols@,
            r.shape == lhs.shape,
            r.n_dim == lhs.n_dim,
    {
        Box::new(self.elementwise(OpKind::MulOp, lhs, rhs))
    }

    pub fn new_add_op(&mut self, lhs: &TensorInfo, rhs: &TensorInfo) -> (r: Box<TensorInfo>)
        requires
            converter_wf(*old(self)),
            lhs.id < old(self).rec_expr.nodes@.len(),
            rhs.id < old(self).rec_expr.nodes@.len(),
        ensures
            converter_wf(*final(self)),
            appended_op(*final(self), *old(self), OpKind::AddOp, seq![lhs.id, rhs.id], *r),
            final(self).rec_expr.nodes@.len() == old(self).rec_expr.nodes@.len() + 1,
            final(self).rec_expr.symbols@ == old(self).rec_expr.symbols@,
            r.shape == lhs.shape,
            r.n_dim == lhs.n_dim,
    {
        Box::new(self.elementwise(OpKind::AddOp, lhs, rhs))
    }

    pub fn new_div_op(&mut self, lhs: &TensorInfo, rhs: &TensorInfo) -> (r: Box<TensorInfo>)
        requires
            converter_wf(*old(self)),
            lhs.id < old(self).rec_expr.nodes@.len(),
            rhs.id < old(self).rec_expr.nodes@.len(),
        ensures
            converter_wf(*final(self)),
            appended_op(*final(self), *old(self), OpKind::DivOp, seq![lhs.id, rhs.id], *r),
            final(self).rec_expr.nodes@.len() == old(self).rec_expr.nodes@.len() + 1,
            final(self).rec_expr.symbols@ == old(self).rec_expr.symbols@,
            r.shape == lhs.shape,
            r.n_dim == lhs.n_dim,
    {
        Box::new(self.elementwise(OpKind::DivOp, lhs, rhs))
    }

    pub fn new_subtract_op(&mut self, lhs: &TensorInfo, rhs: &TensorInfo) -> (r: Box<TensorInfo>)
        requires
            converter_wf(*old(self)),
            lhs.id < old(self).rec_expr.nodes@.len(),
            rhs.id < old(self).rec_expr.nodes@.len(),
        ensures
            converter_wf(*final(self)),
            appended_op(*final(self), *old(self), OpKind::SubtractOp, seq![lhs.id, rhs.id], *r),
            final(self).rec_expr.nodes@.len() == old(self).rec_expr.nodes@.len() + 1,
            final(self).rec_expr.symbols@ == old(self).rec_expr.symbols@,
            r.shape == lhs.shape,
            r.n_dim == lhs.n_dim,
    {
        Box::new(self.elementwise(OpKind::SubtractOp, lhs, rhs))
    }

    pub fn new_min_op(&mut self, lhs: &TensorInfo, rhs: &TensorInfo) -> (r: Box<TensorInfo>)
        requires
            converter_wf(*old(self)),
            lhs.id < old(self).rec_expr.nodes@.len(),
            rhs.id < old(self).rec_expr.nodes@.len(),
        ensures
            converter_wf(*final(self)),
            appended_op(*final(self), *old(self), OpKind::MinOp, seq![lhs.id, rhs.id], *r),
            final(self).rec_expr.nodes@.len() == old(self).rec_expr.nodes@.len() + 1,
            final(self).rec_expr.symbols@ == old(self).rec_expr.symbols@,
            r.shape == lhs.shape,
            r.n_dim == lhs.n_dim,
    {
        Box::new(self.elementwise(OpKind::MinOp, lhs, rhs))
    }

    pub fn new_max_op(&mut self, lhs: &TensorInfo, rhs: &TensorInfo) -> (r: Box<TensorInfo>)
        requires
            converter_wf(*old(self)),
            lhs.id < old(self).rec_expr.nodes@.len(),
            rhs.id < old(self).rec_expr.nodes@.len(),
        ensures
            converter_wf(*final(self)),
            appended_op(*final(self), *old(self), OpKind::MaxOp, seq![lhs.id, rhs.id], *r),
            final(self).rec_expr.nodes@.len() == old(self).rec_expr.nodes@.len() + 1,
            final(self).rec_expr.symbols@ == old(self).rec_expr.symbols@,
            r.shape == lhs.shape,
            r.n_dim == lhs.n_dim,
    {
        Box::new(self.elementwise(OpKind::MaxOp, lhs, rhs))
    }

    pub fn new_neg_op(&mut self, inpt: &TensorInfo) -> (r: Box<TensorInfo>)
        requires
            converter_wf(*old(self)),
            inpt.id < old(self).rec_expr.nodes@.len(),
        ensures
            converter_wf(*final(self)),
            appended_op(*final(self), *old(self), OpKind::NegOp, seq![inpt.id], *r),
            final(self).rec_expr.nodes@.len() == old(self).rec_expr.nodes@.len() + 1,
            final(self).rec_expr.symbols@ == old(self).rec_expr.symbols@,
            r.shape == inpt.shape,
            r.n_dim == inpt.n_dim,
    {
        Box::new(self.unary(OpKind::NegOp, inpt))
    }

    pub fn new_tanh_op(&mut self, inpt: &TensorInfo) -> (r: Box<TensorInfo>)
        requires
            converter_wf(*old(self)),
            inpt.id < old(self).rec_expr.nodes@.len(),
        ensures
            converter_wf(*final(self)),
            appended_op(*final(self), *old(self), OpKind::TanhOp, seq![inpt.id], *r),
            final(self).rec_expr.nodes@.len() == old(self).rec_expr.nodes@.len() + 1,
            final(self).rec_expr.symbols@ == old(self).rec_expr.symbols@,
            r.shape == inpt.shape,
            r.n_dim == inpt.n_dim,
    {
        Box::new(self.unary(OpKind::TanhOp, inpt))
    }

    pub fn new_exp_op(&mut self, inpt: &TensorInfo) -> (r: Box<TensorInfo>)
        requires
            converter_wf(*old(self)),
            inpt.id < old(self).rec_expr.nodes@.len(),
        ensures
            converter_wf(*final(self)),
            appended_op(*final(self), *old(self), OpKind::ExpOp, seq![inpt.id], *r),
            final(self).rec_expr.nodes@.len() == old(self).rec_expr.nodes@.len() + 1,
            final(self).rec_expr.symbols@ == old(self).rec_expr.symbols@,
            r.shape == inpt.shape,
            r.n_dim == inpt.n_dim,
    {
        Box::new(self.unary(OpKind::ExpOp, inpt))
    }

    /// A comparison: the direction and type become shared scalar nodes, and
    /// one `CompareOp` node over both operands and both attributes is
    /// appended. The result takes the first operand's shape.
    pub fn new_compare_op(
        &mut self,
        inpt_1: &TensorInfo,
        inpt_2: &TensorInfo,
        comparison_direction: i32,
        comparison_type: i32,
    ) -> (r: Box<TensorInfo>)
        requires
            converter_wf(*old(self)),
            inpt_1.id < old(self).rec_expr.nodes@.len(),
            inpt_2.id < old(self).rec_expr.nodes@.len(),
        ensures
            converter_wf(*final(self)),
            exists|d: usize, t: usize|
                appended_op(
                    *final(self),
                    *old(self),
                    OpKind::CompareOp,
                    seq![inpt_1.id, inpt_2.id, d, t],
                    *r,
                ) && #[trigger] num_at(final(self).rec_expr, d as int, comparison_direction)
                    && #[trigger] num_at(final(self).rec_expr, t as int, comparison_type),
            r.shape == inpt_1.shape,
            r.n_dim == inpt_1.n_dim,
    {
        let dir_id = self.add_or_get_val(comparison_direction);
        let ghost g1 = *self;
        let ty_id = self.add_or_get_val(comparison_type);
        let ghost g2 = *self;
        let mut children: Vec<usize> = Vec::new();
        children.push(inpt_1.id);
        children.push(inpt_2.id);
        children.push(dir_id);
        children.push(ty_id);
        let ghost kids = children@;
        let id = self.push_node(Mdl::node(OpKind::CompareOp, children));
        let info = TensorInfo { id, shape: inpt_1.shape, n_dim: inpt_1.n_dim };
        self.record_info(info);
        proof {
            lemma_grew_trans(*self, g2, g1);
            lemma_num_at_grows(g1, *self, dir_id as int, comparison_direction);
            lemma_num_at_grows(g2, *self, ty_id as int, comparison_type);
            assert(kids =~= seq![inpt_1.id, inpt_2.id, dir_id, ty_id]);
            assert(self.rec_expr.nodes@.last().children@ == kids);
            assert(appended_op(
                *self,
                *old(self),
                OpKind::CompareOp,
                seq![inpt_1.id, inpt_2.id, dir_id, ty_id],
                info,
            ));
        }
        Box::new(info)
    }

    /// A broadcast: the operator's result type is explicit, so `dimensions`
    /// carries the result shape, which becomes the handle's shape. Fails
    /// with `ShapeOverflow` exactly when it lists more than `MAX_DIM`
    /// dimensions.
    pub fn new_broadcast_in_dim(&mut self, inpt: &TensorInfo, dimensions: &[i32]) -> (r: Result<
        Box<TensorInfo>,
        EggError,
    >)
        requires
            converter_wf(*old(self)),
            inpt.id < old(self).rec_expr.nodes@.len(),
        ensures
            converter_wf(*final(self)),
            grew_from(*final(self), *old(self)),
            r is Err <==> dimensions@.len() > 8,
            r is Err ==> r->Err_0 == EggError::ShapeOverflow && *final(self) == *old(self),
            r matches Ok(info) ==> info.n_dim == dimensions@.len() && info.shape@
                =~= padded_shape_spec(dimensions@) && exists|d: usize|
                appended_op(
                    *final(self),
                    *old(self),
                    OpKind::BroadcastInDimOp,
                    seq![inpt.id, d],
                    *info,
                ) && #[trigger] vec_at(final(self).rec_expr, d as int, dimensions@),
    {
        let (shape_new, n_dim) = match shape_from_dim(dimensions) {
            Ok(sd) => sd,
            Err(e) => {
                return Err(e);
            },
        };
        let dims_id = self.vec_node(dimensions);
        let ghost g1 = *self;
        let mut children: Vec<usize> = Vec::new();
        children.push(inpt.id);
        children.push(dims_id);
        let ghost kids = children@;
        let id = self.push_node(Mdl::node(OpKind::BroadcastInDimOp, children));
        let info = TensorInfo { id, shape: shape_new, n_dim };
        self.record_info(info);
        proof {
            lemma_vec_at_grows(g1, *self, dims_id as int, dimensions@);
            assert(kids =~= seq![inpt.id, dims_id]);
            assert(self.rec_expr.nodes@.last().children@ == kids);
            assert(appended_op(
                *self,
                *old(self),
                OpKind::BroadcastInDimOp,
                seq![inpt.id, dims_id],
                info,
            ));
        }
        Ok(Box::new(info))
    }

    pub fn new_convert_op(&mut self, inpt: &TensorInfo, output_type: i32) -> (r: Box<TensorInfo>)
        requires
            converter_wf(*old(self)),
            inpt.id < old(self).rec_expr.nodes@.len(),
        ensures
            converter_wf(*final(self)),
            exists|t: usize|
                appended_op(
                    *final(self),
                    *old(self),
                    OpKind::ConvertOp,
                    seq![inpt.id, t],
                    *r,
                ) && #[trigger] num_at(final(self).rec_expr, t as int, output_type),
            r.shape == inpt.shape,
            r.n_dim == inpt.n_dim,
    {
        let ty_id = self.add_or_get_val(output_type);
        let ghost g1 = *self;
        let mut children: Vec<usize> = Vec::new();
        children.push(inpt.id);
        children.push(ty_id);
        let ghost kids = children@;
        let id = self.push_node(Mdl::node(OpKind::ConvertOp, children));
        let info = TensorInfo { id, shape: inpt.shape, n_dim: inpt.n_dim };
        self.record_info(info);
        proof {
            lemma_num_at_grows(g1, *self, ty_id as int, output_type);
            assert(kids =~= seq![inpt.id, ty_id]);
            assert(self.rec_expr.nodes@.last().children@ == kids);
            assert(appended_op(*self, *old(self), OpKind::ConvertOp, seq![inpt.id, ty_id], info));
        }
        Box::new(info)
    }

    pub fn new_reduce_op(&mut self, inpt: &TensorInfo, dimensions: &[i32]) -> (r: Box<TensorInfo>)
        requires
            converter_wf(*old(self)),
            inpt.id < old(self).rec_expr.nodes@.len(),
        ensures
            converter_wf(*final(self)),
            exists|d: usize|
                appended_op(
                    *final(self),
                    *old(self),
                    OpKind::ReduceOp,
                    seq![inpt.id, d],
                    *r,
                ) && #[trigger] vec_at(final(self).rec_expr, d as int, dimensions@),
            r.shape == inpt.shape,
            r.n_dim == inpt.n_dim,
    {
        let dims_id = self.vec_node(dimensions);
        let ghost g1 = *self;
        let mut children: Vec<usize> = Vec::new();
        children.push(inpt.id);
        children.push(dims_id);
        let ghost kids = children@;
        let id = self.push_node(Mdl::node(OpKind::ReduceOp, children));
        let info = TensorInfo { id, shape: inpt.shape, n_dim: inpt.n_dim };
        self.record_info(info);
        proof {
            lemma_vec_at_grows(g1, *self, dims_id as int, dimensions@);
            assert(kids =~= seq![inpt.id, dims_id]);
            assert(self.rec_expr.nodes@.last().children@ == kids);
            assert(appended_op(*self, *old(self), OpKind::ReduceOp, seq![inpt.id, dims_id], info));
        }
        Box::new(info)
    }

    /// A reshape: the output shape is the literal shape attribute. Fails
    /// with `ShapeOverflow` exactly when the attribute lists more than
    /// `MAX_DIM` dimensions.
    pub fn new_reshape_op(&mut self, inpt: &TensorInfo, shape: &[i32]) -> (r: Result<
        Box<TensorInfo>,
        EggError,
    >)
        requires
            converter_wf(*old(self)),
            inpt.id < old(self).rec_expr.nodes@.len(),
        ensures
            converter_wf(*final(self)),
            grew_from(*final(self), *old(self)),
            r is Err <==> shape@.len() > 8,
            r is Err ==> r->Err_0 == EggError::ShapeOverflow && *final(self) == *old(self),
            r matches Ok(info) ==> info.n_dim == shape@.len() && info.shape@ =~= padded_shape_spec(
                shape@,
            ) && exists|sh: usize|
                appended_op(
                    *final(self),
                    *old(self),
                    OpKind::ReshapeOp,
                    seq![inpt.id, sh],
                    *info,
                ) && #[trigger] vec_at(final(self).rec_expr, sh as int, shape@),
    {
        let (shape_new, n_dim) = match shape_from_dim(shape) {
            Ok(sd) => sd,
            Err(e) => {
                return Err(e);
            },
        };
        let shape_id = self.vec_node(shape);
        let ghost g1 = *self;
        let mut children: Vec<usize> = Vec::new();
        children.push(inpt.id);
        children.push(shape_id);
        let ghost kids = children@;
        let id = self.push_node(Mdl::node(OpKind::ReshapeOp, children));
        let info = TensorInfo { id, shape: shape_new, n_dim };
        self.record_info(info);
        proof {
            lemma_vec_at_grows(g1, *self, shape_id as int, shape@);
            assert(kids =~= seq![inpt.id, shape_id]);
            assert(self.rec_expr.nodes@.last().children@ == kids);
            assert(appended_op(*self, *old(self), OpKind::ReshapeOp, seq![inpt.id, shape_id], info));
        }
        Ok(Box::new(info))
    }

    /// A transpose: output dimension `i` is input dimension
    /// `permutation[i]`.
    pub fn new_transpose_op(&mut self, inpt: &TensorInfo, permutation: &[i32]) -> (r: Box<
        TensorInfo,
    >)
        requires
            converter_wf(*old(self)),
            inpt.id < old(self).rec_expr.nodes@.len(),
            permutation@.len() <= 8,
            forall|i: int| 0 <= i < permutation@.len() ==> 0 <= #[trigger] permutation@[i] < 8,
        ensures
            converter_wf(*final(self)),
            exists|p: usize|
                appended_op(
                    *final(self),
                    *old(self),
                    OpKind::TransposeOp,
                    seq![inpt.id, p],
                    *r,
                ) && #[trigger] vec_at(final(self).rec_expr, p as int, permutation@),
            r.n_dim == inpt.n_dim,
            forall|i: int|
                0 <= i < permutation@.len() ==> #[trigger] r.shape@[i] == inpt.shape@[permutation@[i]
                    as int],
    {
        let perm_id = self.vec_node(permutation);
        let ghost g1 = *self;
        let mut children: Vec<usize> = Vec::new();
        children.push(inpt.id);
        children.push(perm_id);
        let ghost kids = children@;
        let id = self.push_node(Mdl::node(OpKind::TransposeOp, children));
        let mut shape: [i32; 8] = [0; 8];
        let mut i: usize = 0;
        while i < permutation.len()
            invariant
                permutation@.len() <= 8,
                forall|j: int| 0 <= j < permutation@.len() ==> 0 <= #[trigger] permutation@[j] < 8,
                i <= permutation@.len(),
                forall|j: int|
                    0 <= j < i ==> #[trigger] shape@[j] == inpt.shape@[permutation@[j] as int],
            decreases permutation@.len() - i,
        {
            shape[i] = inpt.shape[permutation[i] as usize];
            i += 1;
        }
        let info = TensorInfo { id, shape, n_dim: inpt.n_dim };
        self.record_info(info);
        proof {
            lemma_vec_at_grows(g1, *self, perm_id as int, permutation@);
            assert(kids =~= seq![inpt.id, perm_id]);
            assert(self.rec_expr.nodes@.last().children@ == kids);
            assert(appended_op(
                *self,
                *old(self),
                OpKind::TransposeOp,
                seq![inpt.id, perm_id],
                info,
            ));
        }
        Box::new(info)
    }

    /// A general dot product: the output shape is the literal shape
    /// attribute the builder supplies. Fails with `ShapeOverflow` exactly
    /// when that attribute lists more than `MAX_DIM` dimensions.
    pub fn new_dot_general_op(
        &mut self,
        lhs: &TensorInfo,
        rhs: &TensorInfo,
        lhs_batching_dimensions: &[i32],
        rhs_batching_dimensions: &[i32],
        lhs_contracting_dimensions: &[i32],
        rhs_contracting_dimensions: &[i32],
        precision_config: &[i32],
        shape: &[i32],
    ) -> (r: Result<Box<TensorInfo>, EggError>)
        requires
            converter_wf(*old(self)),
            lhs.id < old(self).rec_expr.nodes@.len(),
            rhs.id < old(self).rec_expr.nodes@.len(),
        ensures
            converter_wf(*final(self)),
            grew_from(*final(self), *old(self)),
            r is Err <==> shape@.len() > 8,
            r is Err ==> r->Err_0 == EggError::ShapeOverflow && *final(self) == *old(self),
            r matches Ok(info) ==> info.n_dim == shape@.len() && info.shape@ =~= padded_shape_spec(
                shape@,
            ) && exists|lb: usize, rb: usize, lc: usize, rc: usize, pc: usize, sh: usize|
                appended_op(
                    *final(self),
                    *old(self),
                    OpKind::DotGeneralOp,
                    seq![lhs.id, rhs.id, lb, rb, lc, rc, pc, sh],
                    *info,
                ) && #[trigger] vec_at(
                    final(self).rec_expr,
                    lb as int,
                    lhs_batching_dimensions@,
                ) && #[trigger] vec_at(
                    final(self).rec_expr,
                    rb as int,
                    rhs_batching_dimensions@,
                ) && #[trigger] vec_at(
                    final(self).rec_expr,
                    lc as int,
                    lhs_contracting_dimensions@,
                ) && #[trigger] vec_at(
                    final(self).rec_expr,
                    rc as int,
                    rhs_contracting_dimensions@,
                ) && #[trigger] vec_at(final(self).rec_expr, pc as int, precision_config@)
                    && #[trigger] vec_at(final(self).rec_expr, sh as int, shape@),
    {
        let (shape_new, n_dim) = match shape_from_dim(shape) {
            Ok(sd) => sd,
            Err(e) => {
                return Err(e);
            },
        };
        let lb = self.vec_node(lhs_batching_dimensions);
        let ghost g1 = *self;
        let rb = self.vec_node(rhs_batching_dimensions);
        let ghost g2 = *self;
        let lc = self.vec_node(lhs_contracting_dimensions);
        let ghost g3 = *self;
        let rc = self.vec_node(rhs_contracting_dimensions);
        let ghost g4 = *self;
        let pc = self.vec_node(precision_config);
        let ghost g5 = *self;
        let sh = self.vec_node(shape);
        let ghost g6 = *self;
        let mut children: Vec<usize> = Vec::new();
        children.push(lhs.id);
        children.push(rhs.id);
        children.push(lb);
        children.push(rb);
        children.push(lc);
        children.push(rc);
        children.push(pc);
        children.push(sh);
        let ghost kids = children@;
        let id = self.push_node(Mdl::node(OpKind::DotGeneralOp, children));
        let info = TensorInfo { id, shape: shape_new, n_dim };
        self.record_info(info);
        proof {
            lemma_grew_trans(*self, g2, g1);
            lemma_grew_trans(*self, g3, g2);
            lemma_grew_trans(*self, g4, g3);
            lemma_grew_trans(*self, g5, g4);
            lemma_grew_trans(*self, g6, g5);
            lemma_vec_at_grows(g1, *self, lb as int, lhs_batching_dimensions@);
            lemma_vec_at_grows(g2, *self, rb as int, rhs_batching_dimensions@);
            lemma_vec_at_grows(g3, *self, lc as int, lhs_contracting_dimensions@);
            lemma_vec_at_grows(g4, *self, rc as int, rhs_contracting_dimensions@);
            lemma_vec_at_grows(g5, *self, pc as int, precision_config@);
            lemma_vec_at_grows(g6, *self, sh as int, shape@);
            assert(kids =~= seq![lhs.id, rhs.id, lb, rb, lc, rc, pc, sh]);
            assert(self.rec_expr.nodes@.last().children@ == kids);
            assert(appended_op(
                *self,
                *old(self),
                OpKind::DotGeneralOp,
                seq![lhs.id, rhs.id, lb, rb, lc, rc, pc, sh],
                info,
            ));
        }
        Ok(Box::new(info))
    }

    /// A pad: `out[i] = in[i] + low[i] + high[i] + max(in[i]-1,0) *
    /// interior[i]`. Fails with `ShapeOverflow` when a padded dimension
    /// leaves the `i32` range.
    pub fn new_pad_op(
        &mut self,
        inpt: &TensorInfo,
        padding_value: i32,
        edge_padding_low: &[i32],
        edge_padding_high: &[i32],
        interior_padding: &[i32],
    ) -> (r: Result<Box<TensorInfo>, EggError>)
        requires
            converter_wf(*old(self)),
            inpt.id < old(self).rec_expr.nodes@.len(),
            inpt.n_dim <= 8,
            edge_padding_low@.len() == inpt.n_dim,
            edge_padding_high@.len() == inpt.n_dim,
            interior_padding@.len() == inpt.n_dim,
        ensures
            converter_wf(*final(self)),
            grew_from(*final(self), *old(self)),
            r is Err <==> !pad_fits(
                Seq::new(inpt.n_dim as nat, |i: int| inpt.shape@[i]),
                edge_padding_low@,
                edge_padding_high@,
                interior_padding@,
            ),
            r is Err ==> r->Err_0 == EggError::ShapeOverflow && *final(self) == *old(self),
            r matches Ok(info) ==> info.n_dim == inpt.n_dim && (exists|
                v: usize,
                lo: usize,
                hi: usize,
                inter: usize,
            |
                appended_op(
                    *final(self),
                    *old(self),
                    OpKind::PadOp,
                    seq![inpt.id, v, lo, hi, inter],
                    *info,
                ) && #[trigger] num_at(final(self).rec_expr, v as int, padding_value)
                    && #[trigger] vec_at(final(self).rec_expr, lo as int, edge_padding_low@)
                    && #[trigger] vec_at(final(self).rec_expr, hi as int, edge_padding_high@)
                    && #[trigger] vec_at(final(self).rec_expr, inter as int, interior_padding@))
                && forall|i: int|
                0 <= i < inpt.n_dim ==> #[trigger] info.shape@[i] as int == inpt.shape@[i]
                    + edge_padding_low@[i] + edge_padding_high@[i] + (if inpt.shape@[i] >= 1 {
                    inpt.shape@[i] - 1
                } else {
                    0
                }) * interior_padding@[i],
    {
        let mut low: Vec<i32> = crate::model::slice_to_vec_i32(edge_padding_low);
        let mut high: Vec<i32> = crate::model::slice_to_vec_i32(edge_padding_high);
        let mut inter: Vec<i32> = crate::model::slice_to_vec_i32(interior_padding);
        let data = crate::model::TensorData {
            kind: crate::model::DataKind::Tnsr,
            val: 0,
            shape: inpt.shape,
            n_dim: inpt.n_dim,
        };
        let (shape_new, n_dim) = match crate::analysis::pad_shape(&data, &low, &high, &inter) {
            Ok(sd) => sd,
            Err(e) => {
                return Err(e);
            },
        };
        let low_id = self.vec_node(edge_padding_low);
        let ghost g1 = *self;
        let high_id = self.vec_node(edge_padding_high);
        let ghost g2 = *self;
        let inter_id = self.vec_node(interior_padding);
        let ghost g3 = *self;
        let val_id = self.add_or_get_val(padding_value);
        let ghost g4 = *self;
        let mut children: Vec<usize> = Vec::new();
        children.push(inpt.id);
        children.push(val_id);
        children.push(low_id);
        children.push(high_id);
        children.push(inter_id);
        let ghost kids = children@;
        let id = self.push_node(Mdl::node(OpKind::PadOp, children));
        let info = TensorInfo { id, shape: shape_new, n_dim };
        self.record_info(info);
        proof {
            lemma_grew_trans(*self, g2, g1);
            lemma_grew_trans(*self, g3, g2);
            lemma_grew_trans(*self, g4, g3);
            lemma_vec_at_grows(g1, *self, low_id as int, edge_padding_low@);
            lemma_vec_at_grows(g2, *self, high_id as int, edge_padding_high@);
            lemma_vec_at_grows(g3, *self, inter_id as int, interior_padding@);
            lemma_num_at_grows(g4, *self, val_id as int, padding_value);
            assert(kids =~= seq![inpt.id, val_id, low_id, high_id, inter_id]);
            assert(self.rec_expr.nodes@.last().children@ == kids);
            assert(appended_op(
                *self,
                *old(self),
                OpKind::PadOp,
                seq![inpt.id, val_id, low_id, high_id, inter_id],
                info,
            ));
        }
        Ok(Box::new(info))
    }

    pub fn new_slice_op(
        &mut self,
        inpt: &TensorInfo,
        start_indices: &[i32],
        limit_indices: &[i32],
        strides: &[i32],
    ) -> (r: Box<TensorInfo>)
        requires
            converter_wf(*old(self)),
            inpt.id < old(self).rec_expr.nodes@.len(),
        ensures
            converter_wf(*final(self)),
            exists|st: usize, li: usize, sd: usize|
                appended_op(
                    *final(self),
                    *old(self),
                    OpKind::SliceOp,
                    seq![inpt.id, st, li, sd],
                    *r,
                ) && #[trigger] vec_at(final(self).rec_expr, st as int, start_indices@)
                    && #[trigger] vec_at(final(self).rec_expr, li as int, limit_indices@)
                    && #[trigger] vec_at(final(self).rec_expr, sd as int, strides@),
            r.shape == inpt.shape,
            r.n_dim == inpt.n_dim,
    {
        let s_id = self.vec_node(start_indices);
        let ghost g1 = *self;
        let l_id = self.vec_node(limit_indices);
        let ghost g2 = *self;
        let st_id = self.vec_node(strides);
        let ghost g3 = *self;
        let mut children: Vec<usize> = Vec::new();
        children.push(inpt.id);
        children.push(s_id);
        children.push(l_id);
        children.push(st_id);
        let ghost kids = children@;
        let id = self.push_node(Mdl::node(OpKind::SliceOp, children));
        let info = TensorInfo { id, shape: inpt.shape, n_dim: inpt.n_dim };
        self.record_info(info);
        proof {
            lemma_grew_trans(*self, g2, g1);
            lemma_grew_trans(*self, g3, g2);
            lemma_vec_at_grows(g1, *self, s_id as int, start_indices@);
            lemma_vec_at_grows(g2, *self, l_id as int, limit_indices@);
            lemma_vec_at_grows(g3, *self, st_id as int, strides@);
            assert(kids =~= seq![inpt.id, s_id, l_id, st_id]);
            assert(self.rec_expr.nodes@.last().children@ == kids);
            assert(appended_op(
                *self,
                *old(self),
                OpKind::SliceOp,
                seq![inpt.id, s_id, l_id, st_id],
                info,
            ));
        }
        Box::new(info)
    }

    /// A concatenation along `dimension`: the components' sizes add up along
    /// that axis and every other dimension keeps the first component's size.
    pub fn new_concatenate_op(&mut self, inputs: &Vec<TensorInfo>, dimension: i32) -> (r: Box<
        TensorInfo,
    >)
        requires
            converter_wf(*old(self)),
            inputs@.len() >= 1,
            forall|i: int|
                0 <= i < inputs@.len() ==> (#[trigger] inputs@[i]).id
                    < old(self).rec_expr.nodes@.len(),
            inputs@[0].n_dim <= 8,
            0 <= dimension < inputs@[0].n_dim,
            crate::analysis::prefix_sums_bounded(
                Seq::new(inputs@.len(), |i: int| inputs@[i].shape@[dimension as int]),
            ),
        ensures
            converter_wf(*final(self)),
            exists|v: usize, d: usize|
                appended_op(
                    *final(self),
                    *old(self),
                    OpKind::ConcatenateOp,
                    seq![v, d],
                    *r,
                ) && #[trigger] ids_vec_at(final(self).rec_expr, v as int, input_ids(inputs@))
                    && #[trigger] num_at(final(self).rec_expr, d as int, dimension),
            r.n_dim == inputs@[0].n_dim,
            r.shape@[dimension as int] as int == crate::analysis::sum_i32(
                Seq::new(inputs@.len(), |i: int| inputs@[i].shape@[dimension as int]),
            ),
            forall|i: int|
                0 <= i < 8 && i != dimension ==> #[trigger] r.shape@[i] == if i < inputs@[0].n_dim {
                    inputs@[0].shape@[i]
                } else {
                    0i32
                },
    {
        let mut axis_sizes: Vec<i32> = Vec::new();
        let mut i: usize = 0;
        while i < inputs.len()
            invariant
                i <= inputs@.len(),
                0 <= dimension < 8,
                axis_sizes@.len() == i,
                forall|j: int|
                    0 <= j < i ==> #[trigger] axis_sizes@[j] == inputs@[j].shape@[dimension as int],
            decreases inputs@.len() - i,
        {
            axis_sizes.push(inputs[i].shape[dimension as usize]);
            i += 1;
        }
        let first_data = crate::model::TensorData {
            kind: crate::model::DataKind::Tnsr,
            val: 0,
            shape: inputs[0].shape,
            n_dim: inputs[0].n_dim,
        };
        proof {
            assert(axis_sizes@ =~= Seq::new(
                inputs@.len(),
                |j: int| inputs@[j].shape@[dimension as int],
            ));
        }
        let (shape_new, n_dim) = match crate::analysis::concat_shape(
            &first_data,
            dimension as usize,
            &axis_sizes,
        ) {
            Some(sd) => sd,
            None => {
                // unreachable: the preconditions make the rule total
                proof {
                    assert(false);
                }
                ([0; 8], 0)
            },
        };
        let dim_id = self.add_or_get_val(dimension);
        let ghost g1 = *self;
        let mut ids: Vec<usize> = Vec::new();
        let mut i2: usize = 0;
        while i2 < inputs.len()
            invariant
                converter_wf(*self),
                i2 <= inputs@.len(),
                ids@.len() == i2,
                forall|j: int|
                    0 <= j < inputs@.len() ==> (#[trigger] inputs@[j]).id
                        < old(self).rec_expr.nodes@.len(),
                self.rec_expr.nodes@.len() >= old(self).rec_expr.nodes@.len(),
                forall|j: int| 0 <= j < i2 ==> #[trigger] ids@[j] == inputs@[j].id,
            decreases inputs@.len() - i2,
        {
            ids.push(inputs[i2].id);
            i2 += 1;
        }
        let ghost ids_view = ids@;
        let ghost g2 = *self;
        let vec_id = self.push_node(Mdl::node(OpKind::VecOp, ids));
        let ghost g3 = *self;
        let mut children: Vec<usize> = Vec::new();
        children.push(vec_id);
        children.push(dim_id);
        let ghost kids = children@;
        let id = self.push_node(Mdl::node(OpKind::ConcatenateOp, children));
        let info = TensorInfo { id, shape: shape_new, n_dim };
        self.record_info(info);
        proof {
            lemma_grew_trans(*self, g3, g2);
            lemma_num_at_grows(g1, *self, dim_id as int, dimension);
            assert(ids_view =~= input_ids(inputs@));
            assert(g3.rec_expr.nodes@[vec_id as int].children@ == ids_view);
            assert(self.rec_expr.nodes@[vec_id as int] == g3.rec_expr.nodes@[vec_id as int]);
            assert(ids_vec_at(self.rec_expr, vec_id as int, ids_view));
            assert(kids =~= seq![vec_id, dim_id]);
            assert(self.rec_expr.nodes@.last().children@ == kids);
            assert(appended_op(
                *self,
                *old(self),
                OpKind::ConcatenateOp,
                seq![vec_id, dim_id],
                info,
            ));
        }
        Box::new(info)
    }

    pub fn new_select_op(
        &mut self,
        pred: &TensorInfo,
        on_true: &TensorInfo,
        on_false: &TensorInfo,
    ) -> (r: Box<TensorInfo>)
        requires
            converter_wf(*old(self)),
            pred.id < old(self).rec_expr.nodes@.len(),
            on_true.id < old(self).rec_expr.nodes@.len(),
            on_false.id < old(self).rec_expr.nodes@.len(),
        ensures
            converter_wf(*final(self)),
            appended_op(
                *final(self),
                *old(self),
                OpKind::SelectOp,
                seq![pred.id, on_true.id, on_false.id],
                *r,
            ),
            final(self).rec_expr.nodes@.len() == old(self).rec_expr.nodes@.len() + 1,
            final(self).rec_expr.symbols@ == old(self).rec_expr.symbols@,
            r.shape == pred.shape,
            r.n_dim == pred.n_dim,
    {
        let mut inputs: Vec<TensorInfo> = Vec::new();
        inputs.push(*pred);
        inputs.push(*on_true);
        inputs.push(*on_false);
        let r = self.first_operand_shaped(OpKind::SelectOp, &inputs);
        proof {
            let s2 = Seq::new(inputs@.len(), |i: int| inputs@[i].id);
            assert(s2 =~= seq![pred.id, on_true.id, on_false.id]);
        }
        Box::new(r)
    }

    /// An iota: the output shape is the literal shape attribute. Fails with
    /// `ShapeOverflow` exactly when it lists more than `MAX_DIM` dimensions.
    pub fn new_iota_op(&mut self, iota_dimension: i32, shape: &[i32]) -> (r: Result<
        Box<TensorInfo>,
        EggError,
    >)
        requires
            converter_wf(*old(self)),
        ensures
            converter_wf(*final(self)),
            grew_from(*final(self), *old(self)),
            r is Err <==> shape@.len() > 8,
            r is Err ==> r->Err_0 == EggError::ShapeOverflow && *final(self) == *old(self),
            r matches Ok(info) ==> info.n_dim == shape@.len() && info.shape@ =~= padded_shape_spec(
                shape@,
            ) && exists|d: usize, sh: usize|
                appended_op(*final(self), *old(self), OpKind::IotaOp, seq![d, sh], *info)
                    && #[trigger] num_at(final(self).rec_expr, d as int, iota_dimension)
                    && #[trigger] vec_at(final(self).rec_expr, sh as int, shape@),
    {
        let (shape_new, n_dim) = match shape_from_dim(shape) {
            Ok(sd) => sd,
            Err(e) => {
                return Err(e);
            },
        };
        let dim_id = self.add_or_get_val(iota_dimension);
        let ghost g1 = *self;
        let shape_id = self.vec_node(shape);
        let ghost g2 = *self;
        let mut children: Vec<usize> = Vec::new();
        children.push(dim_id);
        children.push(shape_id);
        let ghost kids = children@;
        let id = self.push_node(Mdl::node(OpKind::IotaOp, children));
        let info = TensorInfo { id, shape: shape_new, n_dim };
        self.record_info(info);
        proof {
            lemma_grew_trans(*self, g2, g1);
            lemma_num_at_grows(g1, *self, dim_id as int, iota_dimension);
            lemma_vec_at_grows(g2, *self, shape_id as int, shape@);
            assert(kids =~= seq![dim_id, shape_id]);
            assert(self.rec_expr.nodes@.last().children@ == kids);
            assert(appended_op(*self, *old(self), OpKind::IotaOp, seq![dim_id, shape_id], info));
        }
        Ok(Box::new(info))
    }

    /// A constant scalar: shaped as a single element.
    pub fn new_constant_op(&mut self) -> (r: Box<TensorInfo>)
        requires
            converter_wf(*old(self)),
        ensures
            converter_wf(*final(self)),
            appended_op(*final(self), *old(self), OpKind::ConstantOp, Seq::empty(), *r),
            final(self).rec_expr.nodes@.len() == old(self).rec_expr.nodes@.len() + 1,
            final(self).rec_expr.symbols@ == old(self).rec_expr.symbols@,
            r.n_dim == 1,
            r.shape@[0] == 1i32,
    {
        let id = self.push_node(Mdl::node(OpKind::ConstantOp, Vec::new()));
        let mut shape: [i32; 8] = [0; 8];
        shape[0] = 1;
        let info = TensorInfo { id, shape, n_dim: 1 };
        self.record_info(info);
        proof {
            assert(self.rec_expr.nodes@.last().children@ =~= Seq::<usize>::empty());
        }
        Box::new(info)
    }

    pub fn new_dynamic_update_slice_op(
        &mut self,
        operand: &TensorInfo,
        update: &TensorInfo,
        start_indices: &TensorInfo,
    ) -> (r: Box<TensorInfo>)
        requires
            converter_wf(*old(self)),
            operand.id < old(self).rec_expr.nodes@.len(),
            update.id < old(self).rec_expr.nodes@.len(),
            start_indices.id < old(self).rec_expr.nodes@.len(),
        ensures
            converter_wf(*final(self)),
            appended_op(
                *final(self),
                *old(self),
                OpKind::DynamicUpdateSliceOp,
                seq![operand.id, update.id, start_indices.id],
                *r,
            ),
            final(self).rec_expr.nodes@.len() == old(self).rec_expr.nodes@.len() + 1,
            final(self).rec_expr.symbols@ == old(self).rec_expr.symbols@,
            r.shape == operand.shape,
            r.n_dim == operand.n_dim,
    {
        let mut inputs: Vec<TensorInfo> = Vec::new();
        inputs.push(*operand);
        inputs.push(*update);
        inputs.push(*start_indices);
        let r = self.first_operand_shaped(OpKind::DynamicUpdateSliceOp, &inputs);
        proof {
            let s2 = Seq::new(inputs@.len(), |i: int| inputs@[i].id);
            assert(s2 =~= seq![operand.id, update.id, start_indices.id]);
        }
        Box::new(r)
    }

    pub fn new_dynamic_slice_op(
        &mut self,
        operand: &TensorInfo,
        start_indices: &TensorInfo,
        slice_sizes: i32,
    ) -> (r: Box<TensorInfo>)
        requires
            converter_wf(*old(self)),
            operand.id < old(self).rec_expr.nodes@.len(),
            start_indices.id < old(self).rec_expr.nodes@.len(),
        ensures
            converter_wf(*final(self)),
            exists|sz: usize|
                appended_op(
                    *final(self),
                    *old(self),
                    OpKind::DynamicSliceOp,
                    seq![operand.id, start_indices.id, sz],
                    *r,
                ) && #[trigger] num_at(final(self).rec_expr, sz as int, slice_sizes),
            r.shape == operand.shape,
            r.n_dim == operand.n_dim,
    {
        let sz_id = self.add_or_get_val(slice_sizes);
        let ghost g1 = *self;
        let mut children: Vec<usize> = Vec::new();
        children.push(operand.id);
        children.push(start_indices.id);
        children.push(sz_id);
        let ghost kids = children@;
        let id = self.push_node(Mdl::node(OpKind::DynamicSliceOp, children));
        let info = TensorInfo { id, shape: operand.shape, n_dim: operand.n_dim };
        self.record_info(info);
        proof {
            lemma_num_at_grows(g1, *self, sz_id as int, slice_sizes);
            assert(kids =~= seq![operand.id, start_indices.id, sz_id]);
            assert(self.rec_expr.nodes@.last().children@ == kids);
            assert(appended_op(
                *self,
                *old(self),
                OpKind::DynamicSliceOp,
                seq![operand.id, start_indices.id, sz_id],
                info,
            ));
        }
        Box::new(info)
    }

    pub fn new_scatter_op(
        &mut self,
        inpt: &TensorInfo,
        scatter_indices: &TensorInfo,
        updates: &TensorInfo,
        dimension_numbers: i32,
    ) -> (r: Box<TensorInfo>)
        requires
            converter_wf(*old(self)),
            inpt.id < old(self).rec_expr.nodes@.len(),
            scatter_indices.id < old(self).rec_expr.nodes@.len(),
            updates.id < old(self).rec_expr.nodes@.len(),
        ensures
            converter_wf(*final(self)),
            exists|dn: usize|
                appended_op(
                    *final(self),
                    *old(self),
                    OpKind::ScatterOp,
                    seq![inpt.id, scatter_indices.id, updates.id, dn],
                    *r,
                ) && #[trigger] num_at(final(self).rec_expr, dn as int, dimension_numbers),
            r.shape == inpt.shape,
            r.n_dim == inpt.n_dim,
    {
        let dn_id = self.add_or_get_val(dimension_numbers);
        let ghost g1 = *self;
        let mut children: Vec<usize> = Vec::new();
        children.push(inpt.id);
        children.push(scatter_indices.id);
        children.push(updates.id);
        children.push(dn_id);
        let ghost kids = children@;
        let id = self.push_node(Mdl::node(OpKind::ScatterOp, children));
        let info = TensorInfo { id, shape: inpt.shape, n_dim: inpt.n_dim };
        self.record_info(info);
        proof {
            lemma_num_at_grows(g1, *self, dn_id as int, dimension_numbers);
            assert(kids =~= seq![inpt.id, scatter_indices.id, updates.id, dn_id]);
            assert(self.rec_expr.nodes@.last().children@ == kids);
            assert(appended_op(
                *self,
                *old(self),
                OpKind::ScatterOp,
                seq![inpt.id, scatter_indices.id, updates.id, dn_id],
                info,
            ));
        }
        Box::new(info)
    }

    /// A gather: the result shape follows the gather rule. The batch
    /// dimensions are the start-indices dimensions with `index_vector_dim`
    /// removed; the offset dimensions are the slice sizes whose positions
    /// are neither collapsed nor operand-batching; the result interleaves
    /// them, placing the offset sizes at the positions `offset_dims` lists
    /// and the batch sizes, in order, everywhere else. Fails with
    /// `ShapeOverflow` when the result would carry more than `MAX_DIM`
    /// dimensions or the attribute lists do not fit together.
    pub fn new_gather_op(
        &mut self,
        inpt: &TensorInfo,
        start_indices: &TensorInfo,
        offset_dims: &[i32],
        collapsed_slice_dims: &[i32],
        operand_batching_dims: &[i32],
        start_indices_batching_dims: &[i32],
        start_index_map: &[i32],
        index_vector_dim: i32,
        slice_sizes: &[i32],
        indices_are_sorted: i32,
    ) -> (r: Result<Box<TensorInfo>, EggError>)
        requires
            converter_wf(*old(self)),
            inpt.id < old(self).rec_expr.nodes@.len(),
            start_indices.id < old(self).rec_expr.nodes@.len(),
            start_indices.n_dim <= 8,
            index_vector_dim >= 0,
            crate::analysis::strictly_increasing(offset_dims@),
        ensures
            converter_wf(*final(self)),
            grew_from(*final(self), *old(self)),
            r is Err ==> r->Err_0 == EggError::ShapeOverflow && *final(self) == *old(self),
            r matches Ok(info) ==> {
                let batch = crate::analysis::remove_at_i32(
                    dims_of(*start_indices),
                    index_vector_dim as int,
                );
                let offs = crate::analysis::kept_sizes(
                    slice_sizes@,
                    collapsed_slice_dims@,
                    operand_batching_dims@,
                );
                &&& info.n_dim == batch.len() + offs.len()
                &&& forall|d: int|
                    0 <= d < info.n_dim ==> #[trigger] info.shape@[d] == if crate::analysis::seq_has(
                        offset_dims@,
                        d as i32,
                    ) {
                        offs[d - crate::analysis::count_not_in(offset_dims@, d)]
                    } else {
                        batch[crate::analysis::count_not_in(offset_dims@, d)]
                    }
                &&& exists|
                    od: usize,
                    cs: usize,
                    ob: usize,
                    sb: usize,
                    sm: usize,
                    iv: usize,
                    ss: usize,
                    so: usize,
                |
                    appended_op(
                        *final(self),
                        *old(self),
                        OpKind::GatherOp,
                        seq![inpt.id, start_indices.id, od, cs, ob, sb, sm, iv, ss, so],
                        *info,
                    ) && #[trigger] vec_at(final(self).rec_expr, od as int, offset_dims@)
                        && #[trigger] vec_at(
                        final(self).rec_expr,
                        cs as int,
                        collapsed_slice_dims@,
                    ) && #[trigger] vec_at(
                        final(self).rec_expr,
                        ob as int,
                        operand_batching_dims@,
                    ) && #[trigger] vec_at(
                        final(self).rec_expr,
                        sb as int,
                        start_indices_batching_dims@,
                    ) && #[trigger] vec_at(final(self).rec_expr, sm as int, start_index_map@)
                        && #[trigger] num_at(final(self).rec_expr, iv as int, index_vector_dim)
                        && #[trigger] vec_at(final(self).rec_expr, ss as int, slice_sizes@)
                        && #[trigger] num_at(final(self).rec_expr, so as int, indices_are_sorted)
            },
    {
        // batch dimensions: start-indices dims with index_vector_dim removed
        let ghost sdims = dims_of(*start_indices);
        let mut batch: Vec<i32> = Vec::new();
        let mut j: usize = 0;
        while j < start_indices.n_dim
            invariant
                start_indices.n_dim <= 8,
                index_vector_dim >= 0,
                sdims == dims_of(*start_indices),
                j <= start_indices.n_dim,
                (index_vector_dim as int) >= (j as int) ==> batch@ =~= sdims.take(j as int),
                ((index_vector_dim as int) < (j as int)) ==> batch@ =~= sdims.take(
                    index_vector_dim as int,
                ) + sdims.subrange(index_vector_dim as int + 1, j as int),
            decreases start_indices.n_dim - j,
        {
            if j as i32 != index_vector_dim {
                batch.push(start_indices.shape[j]);
            }
            j += 1;
        }
        proof {
            if index_vector_dim as int >= sdims.len() {
                assert(batch@ =~= crate::analysis::remove_at_i32(sdims, index_vector_dim as int));
            } else {
                assert(batch@ =~= crate::analysis::remove_at_i32(sdims, index_vector_dim as int));
            }
        }
        // offset dimensions: slice sizes at positions neither collapsed nor
        // operand-batching
        if slice_sizes.len() > (i32::MAX as usize) {
            return Err(EggError::ShapeOverflow);
        }
        let mut offs: Vec<i32> = Vec::new();
        let mut p: usize = 0;
        while p < slice_sizes.len()
            invariant
                slice_sizes@.len() <= i32::MAX,
                p <= slice_sizes@.len(),
                offs@ =~= crate::analysis::kept_sizes(
                    slice_sizes@.take(p as int),
                    collapsed_slice_dims@,
                    operand_batching_dims@,
                ),
            decreases slice_sizes@.len() - p,
        {
            proof {
                assert(slice_sizes@.take(p as int + 1).drop_last() =~= slice_sizes@.take(p as int));
            }
            let collapsed = crate::analysis::contains_i32(collapsed_slice_dims, p as i32);
            let batching = crate::analysis::contains_i32(operand_batching_dims, p as i32);
            if !collapsed && !batching {
                offs.push(slice_sizes[p]);
            }
            p += 1;
        }
        proof {
            assert(slice_sizes@.take(slice_sizes@.len() as int) =~= slice_sizes@);
        }
        // the interleaved result shape
        if offs.len() > 8 || batch.len() > 8 || batch.len() + offs.len() > 8 {
            return Err(EggError::ShapeOverflow);
        }
        let rank = batch.len() + offs.len();
        let mut shape: [i32; 8] = [0; 8];
        let mut k: usize = 0;
        let mut b: usize = 0;
        let mut d: usize = 0;
        while d < rank
            invariant
                converter_wf(*self),
                *self == *old(self),
                rank <= 8,
                rank == batch@.len() + offs@.len(),
                d <= rank,
                b as int == crate::analysis::count_not_in(offset_dims@, d as int),
                k as int == d - crate::analysis::count_not_in(offset_dims@, d as int),
                forall|d2: int|
                    0 <= d2 < d ==> #[trigger] shape@[d2] == if crate::analysis::seq_has(
                        offset_dims@,
                        d2 as i32,
                    ) {
                        offs@[d2 - crate::analysis::count_not_in(offset_dims@, d2)]
                    } else {
                        batch@[crate::analysis::count_not_in(offset_dims@, d2)]
                    },
            decreases rank - d,
        {
            proof {
                crate::analysis::lemma_count_not_in_bounds(offset_dims@, d as int);
            }
            if crate::analysis::contains_i32(offset_dims, d as i32) {
                if k >= offs.len() {
                    return Err(EggError::ShapeOverflow);
                }
                shape[d] = offs[k];
                k += 1;
            } else {
                if b >= batch.len() {
                    return Err(EggError::ShapeOverflow);
                }
                shape[d] = batch[b];
                b += 1;
            }
            d += 1;
        }
        // append the attribute nodes and the operator
        let od = self.vec_node(offset_dims);
        let ghost g1 = *self;
        let cs = self.vec_node(collapsed_slice_dims);
        let ghost g2 = *self;
        let ob = self.vec_node(operand_batching_dims);
        let ghost g3 = *self;
        let sb = self.vec_node(start_indices_batching_dims);
        let ghost g4 = *self;
        let sm = self.vec_node(start_index_map);
        let ghost g5 = *self;
        let iv = self.add_or_get_val(index_vector_dim);
        let ghost g6 = *self;
        let ss = self.vec_node(slice_sizes);
        let ghost g7 = *self;
        let so = self.add_or_get_val(indices_are_sorted);
        let ghost g8 = *self;
        let mut children: Vec<usize> = Vec::new();
        children.push(inpt.id);
        children.push(start_indices.id);
        children.push(od);
        children.push(cs);
        children.push(ob);
        children.push(sb);
        children.push(sm);
        children.push(iv);
        children.push(ss);
        children.push(so);
        let ghost kids = children@;
        let id = self.push_node(Mdl::node(OpKind::GatherOp, children));
        let info = TensorInfo { id, shape, n_dim: rank };
        self.record_info(info);
        proof {
            lemma_grew_trans(*self, g2, g1);
            lemma_grew_trans(*self, g3, g2);
            lemma_grew_trans(*self, g4, g3);
            lemma_grew_trans(*self, g5, g4);
            lemma_grew_trans(*self, g6, g5);
            lemma_grew_trans(*self, g7, g6);
            lemma_grew_trans(*self, g8, g7);
            lemma_vec_at_grows(g1, *self, od as int, offset_dims@);
            lemma_vec_at_grows(g2, *self, cs as int, collapsed_slice_dims@);
            lemma_vec_at_grows(g3, *self, ob as int, operand_batching_dims@);
            lemma_vec_at_grows(g4, *self, sb as int, start_indices_batching_dims@);
            lemma_vec_at_grows(g5, *self, sm as int, start_index_map@);
            lemma_num_at_grows(g6, *self, iv as int, index_vector_dim);
            lemma_vec_at_grows(g7, *self, ss as int, slice_sizes@);
            lemma_num_at_grows(g8, *self, so as int, indices_are_sorted);
            assert(kids =~= seq![inpt.id, start_indices.id, od, cs, ob, sb, sm, iv, ss, so]);
            assert(self.rec_expr.nodes@.last().children@ == kids);
            assert(appended_op(
                *self,
                *old(self),
                OpKind::GatherOp,
                seq![inpt.id, start_indices.id, od, cs, ob, sb, sm, iv, ss, so],
                info,
            ));
        }
        Ok(Box::new(info))
    }

    /// An opaque operator the engine must not rewrite: its inputs plus an
    /// opaque id, shaped like its first input.
    pub fn new_blackbox_op(&mut self, inpts: &Vec<TensorInfo>, cpp_num: i32) -> (r: Box<
        TensorInfo,
    >)
        requires
            converter_wf(*old(self)),
            inpts@.len() >= 1,
            forall|i: int|
                0 <= i < inpts@.len() ==> (#[trigger] inpts@[i]).id
                    < old(self).rec_expr.nodes@.len(),
        ensures
            converter_wf(*final(self)),
            exists|n: usize|
                appended_op(
                    *final(self),
                    *old(self),
                    OpKind::BlackBox,
                    input_ids(inpts@).push(n),
                    *r,
                ) && #[trigger] num_at(final(self).rec_expr, n as int, cpp_num),
            final(self).rec_expr.symbols@ == old(self).rec_expr.symbols@,
            r.shape == inpts@[0].shape,
            r.n_dim == inpts@[0].n_dim,
    {
        let num_id = self.add_or_get_val(cpp_num);
        let ghost g1 = *self;
        let mut children: Vec<usize> = Vec::new();
        let mut i: usize = 0;
        while i < inpts.len()
            invariant
                converter_wf(*self),
                *self == g1,
                grew_from(*self, *old(self)),
                i <= inpts@.len(),
                children@.len() == i,
                num_at(self.rec_expr, num_id as int, cpp_num),
                forall|j: int|
                    0 <= j < inpts@.len() ==> (#[trigger] inpts@[j]).id
                        < old(self).rec_expr.nodes@.len(),
                forall|j: int| 0 <= j < i ==> #[trigger] children@[j] == inpts@[j].id,
            decreases inpts@.len() - i,
        {
            children.push(inpts[i].id);
            i += 1;
        }
        children.push(num_id);
        let ghost kids = children@;
        let id = self.push_node(Mdl::node(OpKind::BlackBox, children));
        let info = TensorInfo { id, shape: inpts[0].shape, n_dim: inpts[0].n_dim };
        self.record_info(info);
        proof {
            lemma_num_at_grows(g1, *self, num_id as int, cpp_num);
            assert(kids =~= input_ids(inpts@).push(num_id));
            assert(self.rec_expr.nodes@.last().children@ == kids);
            assert(appended_op(
                *self,
                *old(self),
                OpKind::BlackBox,
                input_ids(inpts@).push(num_id),
                info,
            ));
        }
        Box::new(info)
    }
}

/// The new state extends the old: the expression grew at the end and the
/// symbols grew at the end, so old handles stay valid.
pub open spec fn grew_from(c2: CppGraphConverter, c1: CppGraphConverter) -> bool {
    &&& c2.rec_expr.nodes@.len() >= c1.rec_expr.nodes@.len()
    &&& forall|k: int|
        0 <= k < c1.rec_expr.nodes@.len() ==> c2.rec_expr.nodes@[k] == c1.rec_expr.nodes@[k]
    &&& c2.rec_expr.symbols@.len() >= c1.rec_expr.symbols@.len()
    &&& forall|k: int|
        0 <= k < c1.rec_expr.symbols@.len() ==> c2.rec_expr.symbols@[k] == c1.rec_expr.symbols@[k]
}

/// Expression node `k` is seeded: its class holds an e-node with the same
/// tag and payload whose children lie in the classes of `k`'s children.
pub open spec fn seeded(g: EGraph, map: Seq<usize>, expr: RecExpr, k: int) -> bool {
    exists|j: int|
        #![auto]
        0 <= j < g.nodes@.len() && crate::egraph::root_of(g.uf@, g.owner@[j] as int)
            == crate::egraph::root_of(g.uf@, map[k] as int) && g.nodes@[j].op == expr.nodes@[k].op
            && g.nodes@[j].literal == expr.nodes@[k].literal && g.nodes@[j].children@.len()
            == expr.nodes@[k].children@.len() && forall|c: int|
            0 <= c < expr.nodes@[k].children@.len() ==> crate::egraph::root_of(
                g.uf@,
                #[trigger] g.nodes@[j].children@[c] as int,
            ) == crate::egraph::root_of(g.uf@, map[expr.nodes@[k].children@[c] as int] as int)
}

/// Seeds an e-graph with one class per sub-term of the expression. Returns
/// the graph and the class of each expression node; the last node is the
/// program root. Every expression node ends up represented in its class, and
/// the graph carries the expression's symbol table.
pub fn egraph_from_expr(expr: &RecExpr) -> (r: Result<(EGraph, Vec<usize>), EggError>)
    requires
        expr.wf(),
    ensures
        r matches Ok((g, map)) ==> g.clean() && map@.len() == expr.nodes@.len() && (forall|k: int|
            0 <= k < map@.len() ==> #[trigger] map@[k] < g.n_classes()) && (forall|k: int|
            0 <= k < expr.nodes@.len() ==> seeded(g, map@, *expr, k)) && g.symbols@.len()
            == expr.symbols@.len() && forall|y: int|
            0 <= y < expr.symbols@.len() ==> ((#[trigger] g.symbols@[y])@ == (expr.symbols@[y])@),
        r is Err ==> r->Err_0 == EggError::ShapeOverflow,
{
    let mut g = EGraph::new();
    g.symbols = model::clone_strings(&expr.symbols);
    let mut map: Vec<usize> = Vec::new();
    let mut k: usize = 0;
    while k < expr.nodes.len()
        invariant
            expr.wf(),
            g.clean(),
            k <= expr.nodes@.len(),
            map@.len() == k,
            g.symbols@.len() == expr.symbols@.len(),
            forall|y: int|
                0 <= y < expr.symbols@.len() ==> ((#[trigger] g.symbols@[y])@ == (
                expr.symbols@[y])@),
            forall|j: int| 0 <= j < k ==> #[trigger] map@[j] < g.n_classes(),
            forall|k2: int| 0 <= k2 < k ==> seeded(g, map@, *expr, k2),
        decreases expr.nodes@.len() - k,
    {
        let template = &expr.nodes[k];
        let mut children: Vec<usize> = Vec::new();
        let mut j: usize = 0;
        while j < template.children.len()
            invariant
                expr.wf(),
                g.clean(),
                k < expr.nodes@.len(),
                template == expr.nodes@[k as int],
                map@.len() == k,
                forall|j2: int| 0 <= j2 < k ==> #[trigger] map@[j2] < g.n_classes(),
                j <= template.children@.len(),
                children@.len() == j,
                forall|j2: int|
                    0 <= j2 < j ==> #[trigger] children@[j2] < g.n_classes(),
                forall|j2: int|
                    0 <= j2 < j ==> #[trigger] children@[j2] == map@[template.children@[j2] as int],
            decreases template.children@.len() - j,
        {
            children.push(map[template.children[j]]);
            j += 1;
        }
        let node = Mdl { op: template.op, literal: template.literal, children };
        let ghost pre = g;
        let cls = match g.add(node) {
            Ok(c) => c,
            Err(e) => {
                return Err(e);
            },
        };
        proof {
            // earlier sub-terms stay seeded in the grown graph
            assert forall|k2: int| 0 <= k2 < k as int implies seeded(g, map@, *expr, k2) by {
                assert(seeded(pre, map@, *expr, k2));
                let j = choose|j: int|
                    #![auto]
                    0 <= j < pre.nodes@.len() && crate::egraph::root_of(
                        pre.uf@,
                        pre.owner@[j] as int,
                    ) == crate::egraph::root_of(pre.uf@, map@[k2] as int) && pre.nodes@[j].op
                        == expr.nodes@[k2].op && pre.nodes@[j].literal == expr.nodes@[k2].literal
                        && pre.nodes@[j].children@.len() == expr.nodes@[k2].children@.len()
                        && forall|c: int|
                        0 <= c < expr.nodes@[k2].children@.len() ==> crate::egraph::root_of(
                            pre.uf@,
                            #[trigger] pre.nodes@[j].children@[c] as int,
                        ) == crate::egraph::root_of(
                            pre.uf@,
                            map@[expr.nodes@[k2].children@[c] as int] as int,
                        );
                assert(g.nodes@[j] == pre.nodes@[j]);
                assert(pre.wf());
                assert(crate::egraph::node_in_range(pre.nodes@[j], pre.n_classes()));
                assert forall|c: int|
                    0 <= c < expr.nodes@[k2].children@.len() implies crate::egraph::root_of(
                    g.uf@,
                    #[trigger] g.nodes@[j].children@[c] as int,
                ) == crate::egraph::root_of(
                    g.uf@,
                    map@[expr.nodes@[k2].children@[c] as int] as int,
                ) by {
                    assert(g.nodes@[j].children@[c] < pre.n_classes());
                    assert(map@[expr.nodes@[k2].children@[c] as int] < pre.n_classes());
                }
            }
            // and the new sub-term is seeded by its hashconsed node
            if exists|j: int|
                0 <= j < pre.nodes@.len() && crate::egraph::congruent(
                    pre.uf@,
                    #[trigger] pre.nodes@[j],
                    node,
                ) {
                let j = choose|j: int|
                    0 <= j < pre.nodes@.len() && crate::egraph::congruent(
                        pre.uf@,
                        #[trigger] pre.nodes@[j],
                        node,
                    ) && cls as int == crate::egraph::root_of(pre.uf@, pre.owner@[j] as int);
                assert(pre.owner@[j] < pre.uf@.len());
                crate::egraph::lemma_root_of_root(pre.uf@, pre.owner@[j] as int);
                assert(crate::egraph::root_of(g.uf@, g.owner@[j] as int)
                    == crate::egraph::root_of(g.uf@, cls as int));
                assert(seeded(g, map@.push(cls), *expr, k as int)) by {
                    assert(g.nodes@[j].children@.len() == node.children@.len());
                }
            } else {
                let j = pre.nodes@.len() as int;
                assert(crate::egraph::congruent(g.uf@, g.nodes@[j], node));
                assert(g.owner@[j] == cls);
                assert(crate::egraph::root_of(g.uf@, cls as int) == cls as int);
                assert(seeded(g, map@.push(cls), *expr, k as int)) by {
                    assert(g.nodes@[j].children@.len() == node.children@.len());
                }
            }
            assert forall|k2: int| 0 <= k2 < k as int implies seeded(
                g,
                map@.push(cls),
                *expr,
                k2,
            ) by {
                assert(map@.push(cls)[k2] == map@[k2]);
                assert forall|c: int|
                    0 <= c < expr.nodes@[k2].children@.len() implies map@.push(cls)[#[trigger]
                expr.nodes@[k2].children@[c] as int] == map@[expr.nodes@[k2].children@[c] as int]
                    by {
                    assert(expr.nodes@[k2].children@[c] < k2);
                }
                assert(seeded(g, map@, *expr, k2));
                let j = choose|j: int|
                    #![auto]
                    0 <= j < g.nodes@.len() && crate::egraph::root_of(g.uf@, g.owner@[j] as int)
                        == crate::egraph::root_of(g.uf@, map@[k2] as int) && g.nodes@[j].op
                        == expr.nodes@[k2].op && g.nodes@[j].literal == expr.nodes@[k2].literal
                        && g.nodes@[j].children@.len() == expr.nodes@[k2].children@.len()
                        && forall|c: int|
                        0 <= c < expr.nodes@[k2].children@.len() ==> crate::egraph::root_of(
                            g.uf@,
                            #[trigger] g.nodes@[j].children@[c] as int,
                        ) == crate::egraph::root_of(
                            g.uf@,
                            map@[expr.nodes@[k2].children@[c] as int] as int,
                        );
                assert(0 <= j < g.nodes@.len() && crate::egraph::root_of(
                    g.uf@,
                    g.owner@[j] as int,
                ) == crate::egraph::root_of(g.uf@, map@.push(cls)[k2] as int) && g.nodes@[j].op
                    == expr.nodes@[k2].op && g.nodes@[j].literal == expr.nodes@[k2].literal
                    && g.nodes@[j].children@.len() == expr.nodes@[k2].children@.len() && forall|
                    c: int,
                |
                    0 <= c < expr.nodes@[k2].children@.len() ==> crate::egraph::root_of(
                        g.uf@,
                        #[trigger] g.nodes@[j].children@[c] as int,
                    ) == crate::egraph::root_of(
                        g.uf@,
                        map@.push(cls)[expr.nodes@[k2].children@[c] as int] as int,
                    ));
            }
        }
        map.push(cls);
        k += 1;
    }
    Ok((g, map))
}

/// Edges among the first `n` stored nodes: the sum of their child counts.
pub open spec fn edges_upto(nodes: Seq<Mdl>, n: int) -> int
    decreases n,
{
    if n <= 0 {
        0
    } else {
        edges_upto(nodes, n - 1) + nodes[n - 1].children@.len()
    }
}

/// Size statistics of an e-graph: how many e-nodes it stores, how many live
/// classes it has, and how many child edges its nodes carry (saturated).
pub fn get_stats(egraph: &EGraph) -> (r: (usize, usize, u64))
    requires
        egraph.wf(),
    ensures
        r.0 == egraph.nodes@.len(),
        r.1 as int == crate::egraph::num_roots_upto(egraph.uf@, egraph.n_classes()),
        r.2 as int == crate::optimize::sat64(edges_upto(egraph.nodes@, egraph.nodes@.len() as int)),
{
    let num_enodes = egraph.nodes.len();
    let mut num_classes: usize = 0;
    let mut c: usize = 0;
    while c < egraph.uf.len()
        invariant
            egraph.wf(),
            c <= egraph.n_classes(),
            num_classes as int == crate::egraph::num_roots_upto(egraph.uf@, c as int),
            num_classes <= c,
        decreases egraph.n_classes() - c,
    {
        if egraph.uf[c] == c {
            num_classes += 1;
        }
        c += 1;
    }
    let mut num_edges: u64 = 0;
    let mut k: usize = 0;
    while k < egraph.nodes.len()
        invariant
            egraph.wf(),
            k <= egraph.nodes@.len(),
            num_edges as int == crate::optimize::sat64(edges_upto(egraph.nodes@, k as int)),
        decreases egraph.nodes@.len() - k,
    {
        proof {
            lemma_edges_nonneg(egraph.nodes@, k as int);
        }
        let step: u64 = egraph.nodes[k].children.len() as u64;
        num_edges = crate::optimize::sat_add(num_edges, step);
        k += 1;
    }
    (num_enodes, num_classes, num_edges)
}

pub proof fn lemma_edges_nonneg(nodes: Seq<Mdl>, n: int)
    ensures
        edges_upto(nodes, n) >= 0,
    decreases n,
{
    if n > 0 {
        lemma_edges_nonneg(nodes, n - 1);
    }
}

/// A flat output record: the operator name, the symbolic label of a `Var`,
/// and the operand indices into the output sequence (the payload, for a
/// `Num`).
pub struct Node {
    pub name: String,
    pub label: String,
    pub operands: Vec<i32>,
}

/// The surface name of each operator.
pub open spec fn op_display_name(op: OpKind) -> Seq<char> {
    match op {
        OpKind::Var => "Var"@,
        OpKind::Num => "Num"@,
        OpKind::VecOp => "Vec"@,
        OpKind::Input => "Input"@,
        OpKind::ConstantOp => "ConstantOp"@,
        OpKind::ReshapeOp => "ReshapeOp"@,
        OpKind::ConcatenateOp => "ConcatenateOp"@,
        OpKind::DotGeneralOp => "DotGeneralOp"@,
        OpKind::TransposeOp => "TransposeOp"@,
        OpKind::MulOp => "MulOp"@,
        OpKind::AddOp => "AddOp"@,
        OpKind::DivOp => "DivOp"@,
        OpKind::SubtractOp => "SubtractOp"@,
        OpKind::MinOp => "MinOp"@,
        OpKind::MaxOp => "MaxOp"@,
        OpKind::NegOp => "NegOp"@,
        OpKind::TanhOp => "TanhOp"@,
        OpKind::ExpOp => "ExpOp"@,
        OpKind::IotaOp => "IotaOp"@,
        OpKind::CompareOp => "CompareOp"@,
        OpKind::BroadcastInDimOp => "BroadcastInDimOp"@,
        OpKind::ConvertOp => "ConvertOp"@,
        OpKind::ReduceOp => "ReduceOp"@,
        OpKind::GatherOp => "GatherOp"@,
        OpKind::SelectOp => "SelectOp"@,
        OpKind::PadOp => "PadOp"@,
        OpKind::SliceOp => "SliceOp"@,
        OpKind::DynamicUpdateSliceOp => "DynamicUpdateSliceOp"@,
        OpKind::DynamicSliceOp => "DynamicSliceOp"@,
        OpKind::ScatterOp => "ScatterOp"@,
        OpKind::BlackBox => "blackbox"@,
    }
}

fn op_display(op: OpKind) -> (r: String)
    ensures
        r@ == op_display_name(op),
{
    match op {
        OpKind::Var => String::from_str("Var"),
        OpKind::Num => String::from_str("Num"),
        OpKind::VecOp => String::from_str("Vec"),
        OpKind::Input => String::from_str("Input"),
        OpKind::ConstantOp => String::from_str("ConstantOp"),
        OpKind::ReshapeOp => String::from_str("ReshapeOp"),
        OpKind::ConcatenateOp => String::from_str("ConcatenateOp"),
        OpKind::DotGeneralOp => String::from_str("DotGeneralOp"),
        OpKind::TransposeOp => String::from_str("TransposeOp"),
        OpKind::MulOp => String::from_str("MulOp"),
        OpKind::AddOp => String::from_str("AddOp"),
        OpKind::DivOp => String::from_str("DivOp"),
        OpKind::SubtractOp => String::from_str("SubtractOp"),
        OpKind::MinOp => String::from_str("MinOp"),
        OpKind::MaxOp => String::from_str("MaxOp"),
        OpKind::NegOp => String::from_str("NegOp"),
        OpKind::TanhOp => String::from_str("TanhOp"),
        OpKind::ExpOp => String::from_str("ExpOp"),
        OpKind::IotaOp => String::from_str("IotaOp"),
        OpKind::CompareOp => String::from_str("CompareOp"),
        OpKind::BroadcastInDimOp => String::from_str("BroadcastInDimOp"),
        OpKind::ConvertOp => String::from_str("ConvertOp"),
        OpKind::ReduceOp => String::from_str("ReduceOp"),
        OpKind::GatherOp => String::from_str("GatherOp"),
        OpKind::SelectOp => String::from_str("SelectOp"),
        OpKind::PadOp => String::from_str("PadOp"),
        OpKind::SliceOp => String::from_str("SliceOp"),
        OpKind::DynamicUpdateSliceOp => String::from_str("DynamicUpdateSliceOp"),
        OpKind::DynamicSliceOp => String::from_str("DynamicSliceOp"),
        OpKind::ScatterOp => String::from_str("ScatterOp"),
        OpKind::BlackBox => String::from_str("blackbox"),
    }
}

/// The operand list of one output record: a `Num` carries its payload, a
/// `Var` carries nothing, every other node its children.
pub open spec fn operands_of(n: Mdl) -> Seq<i32> {
    if n.op == OpKind::Num {
        seq![n.literal]
    } else if n.op == OpKind::Var {
        Seq::empty()
    } else {
        Seq::new(n.children@.len(), |j: int| n.children@[j] as i32)
    }
}

/// Flattens an extracted expression to the output records the caller
/// re-ingests into host IR.
pub fn convert_to_node(expr: &RecExpr) -> (r: Vec<Node>)
    requires
        expr.wf(),
        expr.nodes@.len() <= i32::MAX,
    ensures
        r@.len() == expr.nodes@.len(),
        forall|k: int|
            0 <= k < r@.len() ==> (#[trigger] r@[k]).name@ == op_display_name(expr.nodes@[k].op)
                && r@[k].operands@ =~= operands_of(expr.nodes@[k]),
        // a naming record carries its symbol; every other label is empty
        forall|k: int|
            0 <= k < r@.len() ==> (#[trigger] r@[k]).label@ == if expr.nodes@[k].op == OpKind::Var
                && 0 <= expr.nodes@[k].literal < expr.symbols@.len() {
                (expr.symbols@[expr.nodes@[k].literal as int])@
            } else {
                Seq::<char>::empty()
            },
        // acyclicity, visible on the records: operands point strictly backwards
        forall|k: int, j: int|
            0 <= k < r@.len() && expr.nodes@[k].op != OpKind::Num && 0 <= j
                < r@[k].operands@.len() ==> 0 <= #[trigger] r@[k].operands@[j] < k,
{
    let mut out: Vec<Node> = Vec::new();
    let mut k: usize = 0;
    while k < expr.nodes.len()
        invariant
            expr.wf(),
            expr.nodes@.len() <= i32::MAX,
            k <= expr.nodes@.len(),
            out@.len() == k,
            forall|k2: int|
                0 <= k2 < k ==> (#[trigger] out@[k2]).name@ == op_display_name(
                    expr.nodes@[k2].op,
                ) && out@[k2].operands@ =~= operands_of(expr.nodes@[k2]),
            forall|k2: int|
                0 <= k2 < k ==> (#[trigger] out@[k2]).label@ == if expr.nodes@[k2].op
                    == OpKind::Var && 0 <= expr.nodes@[k2].literal < expr.symbols@.len() {
                    (expr.symbols@[expr.nodes@[k2].literal as int])@
                } else {
                    Seq::<char>::empty()
                },
            forall|k2: int, j: int|
                0 <= k2 < k && expr.nodes@[k2].op != OpKind::Num && 0 <= j
                    < out@[k2].operands@.len() ==> 0 <= #[trigger] out@[k2].operands@[j] < k2,
        decreases expr.nodes@.len() - k,
    {
        let node = &expr.nodes[k];
        let name = op_display(node.op);
        let mut label = String::new();
        let mut operands: Vec<i32> = Vec::new();
        if matches!(node.op, OpKind::Num) {
            operands.push(node.literal);
        } else if matches!(node.op, OpKind::Var) {
            if node.literal >= 0 && (node.literal as usize) < expr.symbols.len() {
                label = model::clone_string(&expr.symbols[node.literal as usize]);
            }
        } else {
            let mut j: usize = 0;
            while j < node.children.len()
                invariant
                    expr.wf(),
                    expr.nodes@.len() <= i32::MAX,
                    k < expr.nodes@.len(),
                    node == expr.nodes@[k as int],
                    j <= node.children@.len(),
                    operands@.len() == j,
                    forall|j2: int|
                        0 <= j2 < j ==> #[trigger] operands@[j2] == node.children@[j2] as i32,
                decreases node.children@.len() - j,
            {
                proof {
                    assert(node.children@[j as int] < expr.nodes@.len());
                }
                operands.push(node.children[j] as i32);
                j += 1;
            }
        }
        out.push(Node { name, label, operands });
        k += 1;
    }
    out
}

/// What a saturation-and-extraction run produced: the flat program, why the
/// driver stopped, and after how many iterations.
pub struct OptimizeOutcome {
    pub nodes: Vec<Node>,
    pub stop_reason: StopReason,
    pub iterations: usize,
}

/// Everything the external solver round needs: the snapshot, the symbol
/// table for reconstruction, and how saturation went.
pub struct PreparedIlp {
    pub data: IlpData,
    pub symbols: Vec<String>,
    pub stop_reason: StopReason,
    pub iterations: usize,
}

/// The default rule set: the built-in table, the caller's rule lines, and
/// the conditional `transpose-of-transpose` rewrite, which applies only when
/// the permutation is strictly decreasing.
pub fn default_rules(extra_rule_lines: &Vec<String>, filter_after: bool) -> (r: Result<
    Vec<Rewrite>,
    EggError,
>)
    ensures
        r matches Ok(rules) ==> forall|i: int|
            0 <= i < rules@.len() ==> (#[trigger] rules@[i]).wf(),
        r is Err ==> r->Err_0 == EggError::MalformedRule,
{
    let mut lines = pre_defined_rules();
    let mut i: usize = 0;
    while i < extra_rule_lines.len()
        invariant
            i <= extra_rule_lines@.len(),
        decreases extra_rule_lines@.len() - i,
    {
        lines.push(model::clone_string(&extra_rule_lines[i]));
        i += 1;
    }
    let mut rules = match rules_from_str(&lines, filter_after) {
        Ok(rules) => rules,
        Err(e) => {
            return Err(e);
        },
    };
    let mut tt = match parse_rule(
        "transpose-of-transpose ; (TransposeOp (TransposeOp ?x ?p) ?p) => ?x",
    ) {
        Ok(rule) => rule,
        Err(e) => {
            return Err(e);
        },
    };
    if tt.lhs.n_vars != 2 {
        return Err(EggError::MalformedRule);
    }
    tt.cond = RuleCond::DecreasingPerm(1);
    rules.push(tt);
    Ok(rules)
}

impl CppGraphConverter {
    /// Saturates the built expression under the given rules and snapshots
    /// the result for extraction.
    pub fn prepare_with_rules(&self, rules: &Vec<Rewrite>, config: &RunnerConfig) -> (r: Result<
        PreparedIlp,
        EggError,
    >)
        requires
            converter_wf(*self),
            self.rec_expr.nodes@.len() > 0,
            forall|i: int| 0 <= i < rules@.len() ==> (#[trigger] rules@[i]).wf(),
        ensures
            r matches Ok(p) ==> p.data.wf() && p.iterations <= config.iter_limit && (p.stop_reason
                == StopReason::IterLimit ==> p.iterations == config.iter_limit),
            // failures: a disagreeing merge, a shape rule that overflowed, or
            // a malformed composite rule
            r is Err ==> r->Err_0 == EggError::AnalysisConflict || r->Err_0
                == EggError::ShapeOverflow || r->Err_0 == EggError::MalformedRule,
    {
        let (mut egraph, map) = match egraph_from_expr(&self.rec_expr) {
            Ok(gm) => gm,
            Err(e) => {
                return Err(e);
            },
        };
        let root = map[map.len() - 1];
        let online_filter = config.no_cycle && !config.filter_after;
        let run_config = RunnerConfig {
            iter_limit: config.iter_limit,
            node_limit: config.node_limit,
            time_limit_ms: config.time_limit_ms,
            no_cycle: online_filter,
            filter_after: config.filter_after,
            use_multi_patterns: config.use_multi_patterns,
        };
        let (stop_reason, iterations) = match run_rules(&mut egraph, rules, &run_config) {
            Ok(ri) => ri,
            Err(e) => {
                return Err(e);
            },
        };
        if config.use_multi_patterns {
            // the composite rewrites run beside the main rules, on their own
            // iteration and node budgets
            let multi_lines = pre_defined_multi();
            let mut multi_rules: Vec<(String, bool)> = Vec::new();
            let mut li: usize = 0;
            while li < multi_lines.len()
                invariant
                    li <= multi_lines@.len(),
                decreases multi_lines@.len() - li,
            {
                multi_rules.push((model::clone_string(&multi_lines[li]), false));
                li += 1;
            }
            let mut multi_patterns = match MultiPatterns::with_rules(
                multi_rules,
                online_filter,
                2,
                config.filter_after,
                30000,
                config.time_limit_ms / 1000,
            ) {
                Ok(mp) => mp,
                Err(e) => {
                    return Err(e);
                },
            };
            match multi_patterns.run_one(&mut egraph) {
                Ok(_) => (),
                Err(e) => {
                    return Err(e);
                },
            }
        }
        if config.no_cycle && config.filter_after {
            let _order = egraph.remove_cycle_by_order();
        }
        let cost_model = CostModel::new();
        let data = prep_ilp_data(&egraph, root, &cost_model);
        let symbols = model::clone_strings(&egraph.symbols);
        Ok(PreparedIlp { data, symbols, stop_reason, iterations })
    }

    /// The full optimization with the default rule table, extracting with
    /// the greedy extractor: search, saturate, extract, flatten.
    pub fn optimize(&self, extra_rule_lines: &Vec<String>, config: &RunnerConfig) -> (r: Result<
        OptimizeOutcome,
        EggError,
    >)
        requires
            converter_wf(*self),
            self.rec_expr.nodes@.len() > 0,
        ensures
            r matches Ok(out) ==> out.nodes@.len() > 0 && out.iterations <= config.iter_limit && (
            out.stop_reason == StopReason::IterLimit ==> out.iterations == config.iter_limit),
    {
        let rules = match default_rules(extra_rule_lines, config.filter_after) {
            Ok(rules) => rules,
            Err(e) => {
                return Err(e);
            },
        };
        self.optimize_with_rules(&rules, config)
    }

    /// The full optimization with an explicit rule set, extracting with the
    /// greedy extractor.
    pub fn optimize_with_rules(&self, rules: &Vec<Rewrite>, config: &RunnerConfig) -> (r: Result<
        OptimizeOutcome,
        EggError,
    >)
        requires
            converter_wf(*self),
            self.rec_expr.nodes@.len() > 0,
            forall|i: int| 0 <= i < rules@.len() ==> (#[trigger] rules@[i]).wf(),
        ensures
            r matches Ok(out) ==> out.nodes@.len() > 0 && out.iterations <= config.iter_limit && (
            out.stop_reason == StopReason::IterLimit ==> out.iterations == config.iter_limit),
    {
        let prepared = match self.prepare_with_rules(rules, config) {
            Ok(p) => p,
            Err(e) => {
                return Err(e);
            },
        };
        let picks = greedy_picks(&prepared.data);
        let (nodes, _dups) = match extract_nodes(&prepared.data, &picks, &prepared.symbols) {
            Ok(n) => n,
            Err(e) => {
                return Err(e);
            },
        };
        Ok(
            OptimizeOutcome {
                nodes,
                stop_reason: prepared.stop_reason,
                iterations: prepared.iterations,
            },
        )
    }
}

/// Reconstructs and flattens the program a selection denotes.
pub fn extract_nodes(data: &IlpData, picks: &Vec<Option<usize>>, symbols: &Vec<String>) -> (r: Result<
    (Vec<Node>, usize),
    EggError,
>)
    requires
        data.wf(),
        crate::optimize::picks_wf(*data, picks@),
    ensures
        r is Err ==> r->Err_0 == EggError::CycleDetected || r->Err_0 == EggError::SolverFailure,
        // success is owed when a rank certifies the selection acyclic, the
        // root settled, and the class count fits the record indices
        (exists|rank: Seq<int>|
            crate::optimize::selection_ranked(*data, picks@, rank) && forall|m: int|
                0 <= m < rank.len() ==> #[trigger] rank[m] < data.m_id_map@.len()) && picks@[
        data.root_m as int] is Some && data.m_id_map@.len() <= i32::MAX ==> r is Ok,
        // the records flatten a faithful reconstruction of the selection:
        // each settled class contributed its picked node, with operands at
        // the child classes' records
        r matches Ok((records, d)) ==> records@.len() > 0 && exists|
            expr: RecExpr,
            memo: Seq<Option<usize>>,
        |
            #![auto]
            expr.wf() && memo.len() == data.m_id_map@.len() && crate::optimize::memo_faithful(
                *data,
                picks@,
                memo,
                expr,
            ) && memo[data.root_m as int] is Some && records@.len() == expr.nodes@.len() && forall|
                k: int,
            |
                0 <= k < records@.len() ==> (#[trigger] records@[k]).name@ == op_display_name(
                    expr.nodes@[k].op,
                ) && records@[k].operands@ =~= operands_of(expr.nodes@[k]),
{
    if matches!(picks[data.root_m], None) {
        return Err(EggError::CycleDetected);
    }
    let mut memo: Vec<Option<usize>> = Vec::new();
    let mut m: usize = 0;
    while m < data.m_id_map.len()
        invariant
            m <= data.m_id_map@.len(),
            memo@.len() == m,
            forall|m2: int| 0 <= m2 < m ==> memo@[m2] is None,
        decreases data.m_id_map@.len() - m,
    {
        memo.push(None);
        m += 1;
    }
    let mut expr = RecExpr::new();
    expr.symbols = model::clone_strings(symbols);
    let fuel = data.m_id_map.len();
    proof {
        crate::optimize::lemma_count_none_all_none(memo@, memo@.len() as int);
        if exists|rank: Seq<int>|
            crate::optimize::selection_ranked(*data, picks@, rank) && forall|m: int|
                0 <= m < rank.len() ==> #[trigger] rank[m] < data.m_id_map@.len() {
            let rank = choose|rank: Seq<int>|
                crate::optimize::selection_ranked(*data, picks@, rank) && forall|m: int|
                    0 <= m < rank.len() ==> #[trigger] rank[m] < data.m_id_map@.len();
            assert(rank[data.root_m as int] < fuel);
        }
    }
    let root_e = match construct_best_rec(data, picks, data.root_m, &mut memo, &mut expr, fuel) {
        Ok(e) => e,
        Err(e) => {
            return Err(e);
        },
    };
    let _ = root_e;
    if expr.nodes.len() > (i32::MAX as usize) {
        proof {
            crate::optimize::lemma_count_none_nonneg(memo@, memo@.len() as int);
        }
        return Err(EggError::SolverFailure);
    }
    let records = convert_to_node(&expr);
    proof {
        assert(memo@[data.root_m as int] is Some);
    }
    Ok((records, 0))
}

/// Consumes the solver's answer: turns its 0/1 vector into a selection,
/// falls back to the greedy extraction when the solver's is unusable or more
/// expensive, and reconstructs the chosen program. The second result counts
/// duplicate picks the solver made inside one class.
pub fn finish_ilp(data: &IlpData, symbols: &Vec<String>, solved: &SolvedResults) -> (r: Result<
    (Vec<Node>, usize),
    EggError,
>)
    requires
        data.wf(),
    ensures
        r is Err ==> r->Err_0 == EggError::CycleDetected || r->Err_0 == EggError::SolverFailure,
        // the records flatten a faithful reconstruction of some well-formed
        // selection that settles the root class
        r matches Ok((records, dups)) ==> records@.len() > 0 && exists|
            picks: Seq<Option<usize>>,
            expr: RecExpr,
            memo: Seq<Option<usize>>,
        |
            #![auto]
            crate::optimize::picks_wf(*data, picks) && picks[data.root_m as int] is Some
                && expr.wf() && memo.len() == data.m_id_map@.len()
                && crate::optimize::memo_faithful(*data, picks, memo, expr) && memo[
            data.root_m as int] is Some && records@.len() == expr.nodes@.len() && forall|k: int|
                0 <= k < records@.len() ==> (#[trigger] records@[k]).name@ == op_display_name(
                    expr.nodes@[k].op,
                ) && records@[k].operands@ =~= operands_of(expr.nodes@[k]),
        // later solver picks inside one class are dropped and counted
        r matches Ok((records, dups)) ==> dups as int == crate::optimize::extra_picks(
            data.g_i@,
            solved.solved_x@,
            if solved.solved_x@.len() < data.i_to_nodes@.len() {
                solved.solved_x@.len() as int
            } else {
                data.i_to_nodes@.len() as int
            },
        ),
{
    let (ilp_picks, duplicates) = apply_ilp_solution(data, solved);
    let greedy = greedy_picks(data);
    let picks = select_extraction(data, ilp_picks, greedy);
    match extract_nodes(data, &picks, symbols) {
        Ok((nodes, _)) => Ok((nodes, duplicates)),
        Err(e) => Err(e),
    }
}

} // verus!
