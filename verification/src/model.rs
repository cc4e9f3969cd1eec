//! The term language: operator tags, e-nodes over class ids, analysis data,
//! and the shape bookkeeping shared by the whole engine.
use vstd::prelude::*;

verus! {

/// Tensors carry at most this many dimensions; exceeding it is a hard error.
pub const MAX_DIM: usize = 8;

/// Kinds of failure the optimizer can report.
#[derive(Clone, Copy, PartialEq, Eq, Structural, Debug)]
pub enum EggError {
    /// A rewrite-rule line that does not follow `name ; LHS => RHS`.
    MalformedRule,
    /// A shape with more than `MAX_DIM` dimensions.
    ShapeOverflow,
    /// Two classes with incompatible analyses were merged.
    AnalysisConflict,
    /// The chosen extraction closes a cycle.
    CycleDetected,
    /// The external solver returned nothing usable.
    SolverFailure,
}

/// The operator tag of an e-node. `Var` and `Num` carry their payload in
/// `Mdl::literal`; every other tag keeps its attributes as child nodes.
#[derive(Clone, Copy, PartialEq, Eq, Structural, Debug)]
pub enum OpKind {
    Var,
    Num,
    VecOp,
    Input,
    ConstantOp,
    ReshapeOp,
    ConcatenateOp,
    DotGeneralOp,
    TransposeOp,
    MulOp,
    AddOp,
    DivOp,
    SubtractOp,
    MinOp,
    MaxOp,
    NegOp,
    TanhOp,
    ExpOp,
    IotaOp,
    CompareOp,
    BroadcastInDimOp,
    ConvertOp,
    ReduceOp,
    GatherOp,
    SelectOp,
    PadOp,
    SliceOp,
    DynamicUpdateSliceOp,
    DynamicSliceOp,
    ScatterOp,
    BlackBox,
}

/// An e-node: an operator applied to e-class ids. `literal` is the number of
/// a `Num` node or the symbol-table index of a `Var` node, and zero elsewhere.
#[derive(Clone, Debug)]
pub struct Mdl {
    pub op: OpKind,
    pub literal: i32,
    pub children: Vec<usize>,
}

impl Mdl {
    /// Structural (not canonical) equality of two e-nodes.
    pub open spec fn is_same(self, other: Mdl) -> bool {
        self.op == other.op && self.literal == other.literal
            && self.children@ =~= other.children@
    }

    pub fn leaf(op: OpKind, literal: i32) -> (r: Mdl)
        ensures
            r.op == op,
            r.literal == literal,
            r.children@ =~= Seq::<usize>::empty(),
    {
        Mdl { op, literal, children: Vec::new() }
    }

    /// An exact copy of this e-node.
    pub fn clone_node(&self) -> (r: Mdl)
        ensures
            r.op == self.op,
            r.literal == self.literal,
            r.children@ == self.children@,
    {
        let mut children: Vec<usize> = Vec::new();
        let mut j: usize = 0;
        while j < self.children.len()
            invariant
                j <= self.children@.len(),
                children@ =~= self.children@.take(j as int),
            decreases self.children@.len() - j,
        {
            children.push(self.children[j]);
            j += 1;
        }
        proof {
            assert(children@ =~= self.children@);
        }
        Mdl { op: self.op, literal: self.literal, children }
    }

    pub fn node(op: OpKind, children: Vec<usize>) -> (r: Mdl)
        ensures
            r.op == op,
            r.literal == 0,
            r.children@ == children@,
    {
        Mdl { op, literal: 0, children }
    }
}

/// Exact equality test on child vectors.
pub fn ids_eq(a: &Vec<usize>, b: &Vec<usize>) -> (r: bool)
    ensures
        r <==> a@ =~= b@,
{
    if a.len() != b.len() {
        return false;
    }
    let mut i: usize = 0;
    while i < a.len()
        invariant
            i <= a.len(),
            a@.len() == b@.len(),
            forall|j: int| 0 <= j < i ==> a@[j] == b@[j],
        decreases a.len() - i,
    {
        if a[i] != b[i] {
            return false;
        }
        i += 1;
    }
    true
}

/// Structural equality of two e-nodes.
pub fn mdl_eq(a: &Mdl, b: &Mdl) -> (r: bool)
    ensures
        r <==> a.is_same(*b),
{
    a.op == b.op && a.literal == b.literal && ids_eq(&a.children, &b.children)
}

/// What an e-class denotes for the analysis: a scalar attribute, a symbolic
/// name, or a tensor with a shape.
#[derive(Clone, Copy, PartialEq, Eq, Structural, Debug)]
pub enum DataKind {
    Scalar,
    Name,
    Tnsr,
}

/// Analysis value of an e-class: the observable type shared by all of its
/// nodes. `shape` is zero-padded to `MAX_DIM` entries; `n_dim` many are real.
#[derive(Clone, Copy, Debug)]
pub struct TensorData {
    pub kind: DataKind,
    pub val: i32,
    pub shape: [i32; 8],
    pub n_dim: usize,
}

impl TensorData {
    /// Compatibility: merging two classes demands equal analyses.
    pub open spec fn agrees_with(self, other: TensorData) -> bool {
        self.kind == other.kind && self.val == other.val
            && self.shape@ =~= other.shape@ && self.n_dim == other.n_dim
    }

    pub fn scalar(val: i32) -> (r: TensorData)
        ensures
            r.kind == DataKind::Scalar,
            r.val == val,
            r.n_dim == 0,
            forall|j: int| 0 <= j < 8 ==> r.shape@[j] == 0i32,
    {
        let shape: [i32; 8] = [0; 8];
        TensorData { kind: DataKind::Scalar, val, shape, n_dim: 0 }
    }

    pub fn name() -> (r: TensorData)
        ensures
            r.kind == DataKind::Name,
            r.val == 0,
            r.n_dim == 0,
            forall|j: int| 0 <= j < 8 ==> r.shape@[j] == 0i32,
    {
        let shape: [i32; 8] = [0; 8];
        TensorData { kind: DataKind::Name, val: 0, shape, n_dim: 0 }
    }

    pub fn tensor(shape: [i32; 8], n_dim: usize) -> (r: TensorData)
        ensures
            r.kind == DataKind::Tnsr,
            r.shape == shape,
            r.n_dim == n_dim,
            r.val == 0,
    {
        TensorData { kind: DataKind::Tnsr, val: 0, shape, n_dim }
    }
}

/// Analysis agreement is transitive: merges can be chained without changing
/// any class's observable type.
pub proof fn lemma_agrees_transitive(a: TensorData, b: TensorData, c: TensorData)
    requires
        a.agrees_with(b),
        b.agrees_with(c),
    ensures
        a.agrees_with(c),
{
}

/// Exact equality test on two analysis values.
pub fn tensor_data_eq(a: &TensorData, b: &TensorData) -> (r: bool)
    ensures
        r <==> a.agrees_with(*b),
{
    if a.kind != b.kind || a.val != b.val || a.n_dim != b.n_dim {
        return false;
    }
    let mut i: usize = 0;
    while i < 8
        invariant
            i <= 8,
            forall|j: int| 0 <= j < i ==> a.shape@[j] == b.shape@[j],
        decreases 8 - i,
    {
        if a.shape[i] != b.shape[i] {
            return false;
        }
        i += 1;
    }
    true
}

/// The zero-padded shape that a dimension list denotes, when it fits.
pub open spec fn padded_shape_spec(dims: Seq<i32>) -> Seq<i32> {
    Seq::new(8, |i: int| if 0 <= i < dims.len() { dims[i] } else { 0i32 })
}

/// Builds the fixed-width shape for a dimension list.
///
/// Fails with `ShapeOverflow` exactly when more than `MAX_DIM` dimensions are
/// given.
pub fn shape_from_dim(dims: &[i32]) -> (r: Result<([i32; 8], usize), EggError>)
    ensures
        r is Err <==> dims@.len() > 8,
        r is Err ==> r->Err_0 == EggError::ShapeOverflow,
        r is Ok ==> r->Ok_0.1 == dims@.len() && r->Ok_0.0@ =~= padded_shape_spec(dims@),
{
    if dims.len() > MAX_DIM {
        return Err(EggError::ShapeOverflow);
    }
    let mut shape: [i32; 8] = [0; 8];
    let mut i: usize = 0;
    while i < dims.len()
        invariant
            i <= dims@.len() <= 8,
            forall|j: int| 0 <= j < i ==> shape@[j] == dims@[j],
            forall|j: int| i <= j < 8 ==> shape@[j] == 0i32,
        decreases dims.len() - i,
    {
        shape[i] = dims[i];
        i += 1;
    }
    Ok((shape, dims.len()))
}

/// A term as a flat sequence of e-nodes whose children are indices of
/// earlier entries: acyclic by construction. `Var` literals index `symbols`.
pub struct RecExpr {
    pub nodes: Vec<Mdl>,
    pub symbols: Vec<String>,
}

impl RecExpr {
    /// Every node's children point strictly backwards.
    pub open spec fn wf(self) -> bool {
        forall|k: int|
            0 <= k < self.nodes@.len() ==> node_backward(#[trigger] self.nodes@[k], k)
    }

    pub fn new() -> (r: RecExpr)
        ensures
            r.wf(),
            r.nodes@.len() == 0,
            r.symbols@.len() == 0,
    {
        RecExpr { nodes: Vec::new(), symbols: Vec::new() }
    }

    /// Appends a node whose children are already present; returns its index.
    pub fn add(&mut self, node: Mdl) -> (r: usize)
        requires
            old(self).wf(),
            node_backward(node, old(self).nodes@.len() as int),
        ensures
            final(self).wf(),
            final(self).nodes@ == old(self).nodes@.push(node),
            final(self).symbols@ == old(self).symbols@,
            r == old(self).nodes@.len(),
    {
        let r = self.nodes.len();
        self.nodes.push(node);
        r
    }
}

/// All children of `n` are smaller than `bound`.
pub open spec fn node_backward(n: Mdl, bound: int) -> bool {
    forall|j: int| 0 <= j < n.children@.len() ==> #[trigger] n.children@[j] < bound
}

/// Copies a dimension slice into a vector.
pub fn slice_to_vec_i32(s: &[i32]) -> (r: Vec<i32>)
    ensures
        r@ == s@,
{
    let mut r: Vec<i32> = Vec::new();
    let mut i: usize = 0;
    while i < s.len()
        invariant
            i <= s@.len(),
            r@ =~= s@.take(i as int),
        decreases s@.len() - i,
    {
        r.push(s[i]);
        i += 1;
    }
    proof {
        assert(r@ =~= s@);
    }
    r
}

/// An exact copy of a string.
pub fn clone_string(s: &String) -> (r: String)
    ensures
        r@ == s@,
{
    String::from_str(s.as_str())
}

/// An exact copy of a name table.
pub fn clone_strings(v: &Vec<String>) -> (r: Vec<String>)
    ensures
        r@.len() == v@.len(),
        forall|i: int| 0 <= i < v@.len() ==> (#[trigger] r@[i])@ == v@[i]@,
{
    let mut r: Vec<String> = Vec::new();
    let mut i: usize = 0;
    while i < v.len()
        invariant
            i <= v@.len(),
            r@.len() == i,
            forall|j: int| 0 <= j < i ==> (#[trigger] r@[j])@ == v@[j]@,
        decreases v@.len() - i,
    {
        r.push(clone_string(&v[i]));
        i += 1;
    }
    r
}

/// The decimal digits of `n`, most significant first.
pub open spec fn dec_rep(n: nat) -> Seq<char>
    decreases n,
{
    if n < 10 {
        seq![digit_char(n)]
    } else {
        dec_rep(n / 10).push(digit_char(n % 10))
    }
}

/// The character for one decimal digit.
pub open spec fn digit_char(d: nat) -> char {
    if d == 0 {
        '0'
    } else if d == 1 {
        '1'
    } else if d == 2 {
        '2'
    } else if d == 3 {
        '3'
    } else if d == 4 {
        '4'
    } else if d == 5 {
        '5'
    } else if d == 6 {
        '6'
    } else if d == 7 {
        '7'
    } else if d == 8 {
        '8'
    } else {
        '9'
    }
}

fn digit_str(d: u32) -> (r: &'static str)
    requires
        d < 10,
    ensures
        r@ =~= seq![digit_char(d as nat)],
{
    proof {
        reveal_strlit("0");
        reveal_strlit("1");
        reveal_strlit("2");
        reveal_strlit("3");
        reveal_strlit("4");
        reveal_strlit("5");
        reveal_strlit("6");
        reveal_strlit("7");
        reveal_strlit("8");
        reveal_strlit("9");
    }
    if d == 0 {
        "0"
    } else if d == 1 {
        "1"
    } else if d == 2 {
        "2"
    } else if d == 3 {
        "3"
    } else if d == 4 {
        "4"
    } else if d == 5 {
        "5"
    } else if d == 6 {
        "6"
    } else if d == 7 {
        "7"
    } else if d == 8 {
        "8"
    } else {
        "9"
    }
}

/// Appends the decimal representation of `n` to `s`.
pub fn push_dec(s: &mut String, n: u32)
    ensures
        final(s)@ == old(s)@ + dec_rep(n as nat),
    decreases n,
{
    if n < 10 {
        s.append(digit_str(n));
    } else {
        push_dec(s, n / 10);
        s.append(digit_str(n % 10));
        proof {
            assert(old(s)@ + dec_rep((n / 10) as nat) + seq![digit_char((n % 10) as nat)] =~= old(
                s,
            )@ + dec_rep(n as nat));
        }
    }
}

/// The decimal representation of a dimension, with a leading minus sign when
/// it is negative.
pub open spec fn dim_rep(d: int) -> Seq<char> {
    if d >= 0 {
        dec_rep(d as nat)
    } else {
        seq!['-'] + dec_rep((-d) as nat)
    }
}

/// Appends the decimal representation of dimension `d` to `s`.
pub fn push_dim(s: &mut String, d: i32)
    ensures
        final(s)@ == old(s)@ + dim_rep(d as int),
{
    if d >= 0 {
        push_dec(s, d as u32);
    } else {
        proof {
            reveal_strlit("-");
        }
        s.append("-");
        let m: u32 = if d == i32::MIN {
            2147483648u32
        } else {
            (-d) as u32
        };
        push_dec(s, m);
        proof {
            assert(old(s)@ + seq!['-'] + dec_rep(m as nat) =~= old(s)@ + dim_rep(d as int));
        }
    }
}

/// The symbolic name of an input tensor: the dimensions joined by `_`,
/// appended after an `@` separator.
pub open spec fn dims_suffix(dims: Seq<i32>, i: int) -> Seq<char>
    decreases dims.len() - i,
{
    if i < 0 || i >= dims.len() {
        Seq::empty()
    } else if i == dims.len() - 1 {
        dim_rep(dims[i] as int)
    } else {
        dim_rep(dims[i] as int) + seq!['_'] + dims_suffix(dims, i + 1)
    }
}

/// Appends `d0_d1_..._dn` for the dimension list to `s`.
pub fn push_dims_joined(s: &mut String, dims: &[i32])
    ensures
        final(s)@ == old(s)@ + dims_suffix(dims@, 0),
{
    proof {
        reveal_strlit("_");
    }
    if dims.len() == 0 {
        proof {
            assert(old(s)@ + dims_suffix(dims@, 0) =~= old(s)@);
        }
        return ;
    }
    let mut i: usize = 0;
    while i < dims.len() - 1
        invariant
            dims@.len() > 0,
            i < dims@.len(),
            old(s)@ + dims_suffix(dims@, 0) =~= s@ + dims_suffix(dims@, i as int),
        decreases dims@.len() - i,
    {
        let ghost pre = s@;
        push_dim(s, dims[i]);
        s.append("_");
        proof {
            reveal_strlit("_");
            assert(s@ =~= pre + dim_rep(dims@[i as int] as int) + seq!['_']);
            assert(pre + dims_suffix(dims@, i as int) =~= s@ + dims_suffix(dims@, i as int + 1));
        }
        i += 1;
    }
    push_dim(s, dims[i]);
    proof {
        assert(dims_suffix(dims@, i as int) =~= dim_rep(dims@[i as int] as int));
    }
}

} // verus!
