//! Tests of the builder API: shape inference per operator, name generation,
//! and the flat output records.
use tensat::input::{convert_to_node, new_converter, NameGen};
use tensat::model::EggError;

#[test]
fn name_gen_counts() {
    let mut gen = NameGen::new();
    assert_eq!(gen.new_weight_name(), "w_0");
    assert_eq!(gen.new_weight_name(), "w_1");
    assert_eq!(gen.new_input_name(), "input_0");
    assert_eq!(gen.new_weight_name(), "w_2");
}

#[test]
fn input_name_carries_shape_suffix() {
    let mut conv = new_converter();
    let a = conv.new_input(5, &[3, 4]).unwrap();
    assert_eq!(a.n_dim, 2);
    assert_eq!(&a.shape[..3], &[3, 4, 0]);
    assert_eq!(conv.rec_expr.symbols[0], "input_5@3_4");
}

#[test]
fn transpose_shape_in_builder() {
    let mut conv = new_converter();
    let a = conv.new_input(0, &[2, 3, 5]).unwrap();
    let t = conv.new_transpose_op(&a, &[2, 0, 1]);
    assert_eq!(&t.shape[..3], &[5, 2, 3]);
    assert_eq!(t.n_dim, 3);
}

#[test]
fn reshape_and_iota_take_literal_shape() {
    let mut conv = new_converter();
    let a = conv.new_input(0, &[6]).unwrap();
    let r = conv.new_reshape_op(&a, &[2, 3]).unwrap();
    assert_eq!(&r.shape[..2], &[2, 3]);
    assert_eq!(r.n_dim, 2);
    let io = conv.new_iota_op(0, &[4, 4]).unwrap();
    assert_eq!(&io.shape[..2], &[4, 4]);
    assert_eq!(conv.new_iota_op(0, &[1; 9]).err(), Some(EggError::ShapeOverflow));
}

#[test]
fn pad_shape_in_builder() {
    let mut conv = new_converter();
    let a = conv.new_input(0, &[3, 1]).unwrap();
    let p = conv
        .new_pad_op(&a, 0, &[1, 0], &[2, 0], &[4, 9])
        .unwrap();
    assert_eq!(&p.shape[..2], &[14, 1]);
}

#[test]
fn elementwise_ops_propagate_lhs_shape() {
    let mut conv = new_converter();
    let a = conv.new_input(0, &[2, 3]).unwrap();
    let b = conv.new_input(1, &[2, 3]).unwrap();
    for info in [
        *conv.new_add_op(&a, &b),
        *conv.new_mul_op(&a, &b),
        *conv.new_div_op(&a, &b),
        *conv.new_subtract_op(&a, &b),
        *conv.new_min_op(&a, &b),
        *conv.new_max_op(&a, &b),
        *conv.new_neg_op(&a),
        *conv.new_tanh_op(&a),
        *conv.new_exp_op(&a),
    ] {
        assert_eq!(&info.shape[..2], &[2, 3]);
        assert_eq!(info.n_dim, 2);
    }
}

#[test]
fn structural_ops_keep_operand_shape() {
    let mut conv = new_converter();
    let a = conv.new_input(0, &[4, 4]).unwrap();
    let b = conv.new_input(1, &[4, 4]).unwrap();
    let c = conv.new_input(2, &[4, 4]).unwrap();
    let cmp = conv.new_compare_op(&a, &b, 0, 1);
    assert_eq!(&cmp.shape[..2], &[4, 4]);
    let bc = conv.new_broadcast_in_dim(&a, &[2, 4, 4]).unwrap();
    assert_eq!(&bc.shape[..3], &[2, 4, 4]);
    assert_eq!(bc.n_dim, 3);
    let cv = conv.new_convert_op(&a, 1);
    assert_eq!(&cv.shape[..2], &[4, 4]);
    let rd = conv.new_reduce_op(&a, &[0]);
    assert_eq!(&rd.shape[..2], &[4, 4]);
    let sel = conv.new_select_op(&cmp, &a, &b);
    assert_eq!(&sel.shape[..2], &[4, 4]);
    let sl = conv.new_slice_op(&a, &[0, 0], &[2, 2], &[1, 1]);
    assert_eq!(&sl.shape[..2], &[4, 4]);
    let cat = conv.new_concatenate_op(&vec![*a, *b], 0);
    assert_eq!(&cat.shape[..2], &[8, 4]);
    assert_eq!(cat.n_dim, 2);
    let dus = conv.new_dynamic_update_slice_op(&a, &b, &c);
    assert_eq!(&dus.shape[..2], &[4, 4]);
    let ds = conv.new_dynamic_slice_op(&a, &b, 2);
    assert_eq!(&ds.shape[..2], &[4, 4]);
    let sc = conv.new_scatter_op(&a, &b, &c, 0);
    assert_eq!(&sc.shape[..2], &[4, 4]);
    // gather: batch dims [4] (start indices minus the index vector dim),
    // offset sizes [1] (slice sizes minus the collapsed position), offset
    // dim 0 first
    let gt = conv
        .new_gather_op(&a, &b, &[0], &[0], &[], &[], &[0], 0, &[1, 1], 0)
        .unwrap();
    assert_eq!(&gt.shape[..2], &[1, 4]);
    assert_eq!(gt.n_dim, 2);
    let bb = conv.new_blackbox_op(&vec![*a, *b], 7);
    assert_eq!(&bb.shape[..2], &[4, 4]);
    let k = conv.new_constant_op();
    assert_eq!(k.n_dim, 1);
    assert_eq!(k.shape[0], 1);
}

#[test]
fn scalar_attribute_nodes_are_shared() {
    let mut conv = new_converter();
    let a = conv.new_input(0, &[2, 2]).unwrap();
    let before = conv.rec_expr.nodes.len();
    let _c1 = conv.new_convert_op(&a, 7);
    let after_first = conv.rec_expr.nodes.len();
    let _c2 = conv.new_convert_op(&a, 7);
    let after_second = conv.rec_expr.nodes.len();
    // the first convert adds the attribute node and the operator; the second
    // reuses the attribute
    assert_eq!(after_first, before + 2);
    assert_eq!(after_second, after_first + 1);
}

#[test]
fn convert_to_node_flattens() {
    let mut conv = new_converter();
    let a = conv.new_input(0, &[2, 2]).unwrap();
    let b = conv.new_input(1, &[2, 2]).unwrap();
    let m = conv.new_mul_op(&a, &b);
    let nodes = convert_to_node(&conv.rec_expr);
    assert_eq!(nodes.len(), conv.rec_expr.nodes.len());
    let last = &nodes[m.id];
    assert_eq!(last.name, "MulOp");
    assert_eq!(last.operands, vec![a.id as i32, b.id as i32]);
    assert_eq!(nodes[0].name, "Var");
    assert_eq!(nodes[0].label, "input_0@2_2");
}
