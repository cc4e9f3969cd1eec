//! Unit tests of the e-graph core, the analysis rules, and the rule parser.
use tensat::analysis::{concat_shape, get_num, get_vec_of_nums, pad_shape, transpose_shape};
use tensat::egraph::EGraph;
use tensat::input::get_stats;
use tensat::model::{shape_from_dim, EggError, Mdl, OpKind, TensorData};
use tensat::optimize::{tensor_size, total_cost, CostModel};
use tensat::rewrites::{decreasing_perm, parse_rule, rules_from_str};

fn scalar_data() -> TensorData {
    TensorData::scalar(0)
}

fn leaf(op: OpKind, literal: i32) -> Mdl {
    Mdl { op, literal, children: vec![] }
}

fn node(op: OpKind, children: Vec<usize>) -> Mdl {
    Mdl { op, literal: 0, children }
}

#[test]
fn hashcons_same_node_same_class() {
    let mut g = EGraph::new();
    let a = g.add_with_data(leaf(OpKind::Num, 7), scalar_data());
    let b = g.add_with_data(leaf(OpKind::Num, 7), scalar_data());
    assert_eq!(a, b);
    let c = g.add_with_data(leaf(OpKind::Num, 8), scalar_data());
    assert_ne!(a, c);
    assert_eq!(g.uf.len(), 2);
}

#[test]
fn find_is_idempotent() {
    let mut g = EGraph::new();
    let a = g.add_with_data(leaf(OpKind::Num, 1), scalar_data());
    let b = g.add_with_data(leaf(OpKind::Num, 2), scalar_data());
    g.union(a, b).unwrap();
    let r = g.find(a);
    assert_eq!(g.find(r), r);
    assert_eq!(g.find(a), g.find(b));
}

#[test]
fn union_is_commutative_in_effect() {
    let mut g1 = EGraph::new();
    let a1 = g1.add_with_data(leaf(OpKind::Num, 1), scalar_data());
    let b1 = g1.add_with_data(leaf(OpKind::Num, 2), scalar_data());
    g1.union(a1, b1).unwrap();

    let mut g2 = EGraph::new();
    let a2 = g2.add_with_data(leaf(OpKind::Num, 1), scalar_data());
    let b2 = g2.add_with_data(leaf(OpKind::Num, 2), scalar_data());
    g2.union(b2, a2).unwrap();

    assert_eq!(g1.uf, g2.uf);
}

#[test]
fn union_conflicting_shapes_fails() {
    let mut g = EGraph::new();
    let (s1, n1) = shape_from_dim(&[2, 3]).unwrap();
    let (s2, n2) = shape_from_dim(&[4]).unwrap();
    let a = g.add_with_data(leaf(OpKind::Num, 1), TensorData::tensor(s1, n1));
    let b = g.add_with_data(leaf(OpKind::Num, 2), TensorData::tensor(s2, n2));
    assert_eq!(g.union(a, b), Err(EggError::AnalysisConflict));
}

#[test]
fn rebuild_closes_congruence() {
    let mut g = EGraph::new();
    let a = g.add_with_data(leaf(OpKind::Num, 1), scalar_data());
    let b = g.add_with_data(leaf(OpKind::Num, 2), scalar_data());
    let fa = g.add_with_data(node(OpKind::NegOp, vec![a]), scalar_data());
    let fb = g.add_with_data(node(OpKind::NegOp, vec![b]), scalar_data());
    assert_ne!(g.find(fa), g.find(fb));
    g.union(a, b).unwrap();
    g.rebuild().unwrap();
    // congruence closure: equal arguments make the applications equal
    assert_eq!(g.find(fa), g.find(fb));
    // and the duplicate application node was removed
    let negs = g.nodes.iter().filter(|n| matches!(n.op, OpKind::NegOp)).count();
    assert_eq!(negs, 1);
}

#[test]
fn rebuild_keeps_children_canonical() {
    let mut g = EGraph::new();
    let a = g.add_with_data(leaf(OpKind::Num, 1), scalar_data());
    let b = g.add_with_data(leaf(OpKind::Num, 2), scalar_data());
    let _f = g.add_with_data(node(OpKind::NegOp, vec![b]), scalar_data());
    g.union(a, b).unwrap();
    g.rebuild().unwrap();
    for k in 0..g.nodes.len() {
        for &c in g.nodes[k].children.iter() {
            assert_eq!(g.find(c), c, "child of node {k} is not a representative");
        }
        assert_eq!(g.find(g.owner[k]), g.owner[k]);
    }
}

#[test]
fn get_num_and_vec_of_nums() {
    let mut g = EGraph::new();
    let n1 = g.add_with_data(leaf(OpKind::Num, 3), TensorData::scalar(3));
    let n2 = g.add_with_data(leaf(OpKind::Num, 4), TensorData::scalar(4));
    let v = g.add_with_data(node(OpKind::VecOp, vec![n1, n2]), scalar_data());
    assert_eq!(get_num(&g, n1), Some(3));
    assert_eq!(get_num(&g, v), None);
    assert_eq!(get_vec_of_nums(&g, v), Some(vec![3, 4]));
}

#[test]
fn shape_from_dim_limits() {
    assert!(shape_from_dim(&[]).is_ok());
    let (s, n) = shape_from_dim(&[1, 2, 3, 4, 5, 6, 7, 8]).unwrap();
    assert_eq!(n, 8);
    assert_eq!(s, [1, 2, 3, 4, 5, 6, 7, 8]);
    assert_eq!(shape_from_dim(&[1; 9]), Err(EggError::ShapeOverflow));
}

#[test]
fn transpose_shape_permutes() {
    let (s, n) = shape_from_dim(&[3, 4]).unwrap();
    let data = TensorData::tensor(s, n);
    let (out, n_dim) = transpose_shape(&data, &vec![1, 0]).unwrap();
    assert_eq!(n_dim, 2);
    assert_eq!(&out[..2], &[4, 3]);
    assert!(transpose_shape(&data, &vec![0, 2]).is_none());
    assert!(transpose_shape(&data, &vec![0]).is_none());
}

#[test]
fn pad_shape_formula() {
    let (s, n) = shape_from_dim(&[3, 1]).unwrap();
    let data = TensorData::tensor(s, n);
    let (out, n_dim) = pad_shape(&data, &vec![1, 0], &vec![2, 0], &vec![4, 9]).unwrap();
    assert_eq!(n_dim, 2);
    // out[0] = 3 + 1 + 2 + (3-1)*4 = 14; out[1] = 1 + 0 + 0 + 0*9 = 1
    assert_eq!(&out[..2], &[14, 1]);
    let big = TensorData::tensor(shape_from_dim(&[i32::MAX]).unwrap().0, 1);
    assert_eq!(
        pad_shape(&big, &vec![1], &vec![1], &vec![0]),
        Err(EggError::ShapeOverflow)
    );
}

#[test]
fn concat_shape_sums_axis() {
    let (s, n) = shape_from_dim(&[3, 4]).unwrap();
    let first = TensorData::tensor(s, n);
    let (out, n_dim) = concat_shape(&first, 1, &vec![4, 6]).unwrap();
    assert_eq!(n_dim, 2);
    assert_eq!(&out[..2], &[3, 10]);
    assert!(concat_shape(&first, 2, &vec![4, 6]).is_none());
}

#[test]
fn tensor_size_counts_elements() {
    let (s, n) = shape_from_dim(&[3, 4, 2]).unwrap();
    assert_eq!(tensor_size(&TensorData::tensor(s, n)), 24);
    let scalar = TensorData::scalar(5);
    assert_eq!(tensor_size(&scalar), 1);
}

#[test]
fn cost_model_prices() {
    let mut g = EGraph::new();
    let (s, n) = shape_from_dim(&[3, 4]).unwrap();
    let a = g.add_with_data(leaf(OpKind::Num, 1), TensorData::tensor(s, n));
    let cm = CostModel::new();
    let add = node(OpKind::AddOp, vec![a, a]);
    assert_eq!(cm.get_self_cost(&g, &add), 12);
    let dot = node(OpKind::DotGeneralOp, vec![a, a]);
    assert_eq!(cm.get_self_cost(&g, &dot), 144);
    let num = leaf(OpKind::Num, 9);
    assert_eq!(cm.get_self_cost(&g, &num), 0);
    let pad = node(OpKind::PadOp, vec![a, a, a, a, a]);
    assert_eq!(cm.get_self_cost(&g, &pad), 100);
}

#[test]
fn total_cost_saturates() {
    let picks = vec![Some(0usize), None, Some(1usize)];
    let cost = vec![u64::MAX, 5];
    assert_eq!(total_cost(&picks, &cost), u64::MAX);
    let picks2 = vec![Some(0usize), Some(1usize)];
    let cost2 = vec![7u64, 5];
    assert_eq!(total_cost(&picks2, &cost2), 12);
}

#[test]
fn parse_rule_roundtrip() {
    let rule = parse_rule("ewadd-comm ; (AddOp ?x ?y) => (AddOp ?y ?x)").unwrap();
    assert_eq!(rule.lhs.n_vars, 2);
    assert_eq!(rule.lhs.nodes.len(), 3);
    assert_eq!(rule.rhs.nodes.len(), 3);
}

#[test]
fn parse_rule_rejects_malformed() {
    assert_eq!(
        parse_rule("no-arrow ; (AddOp ?x ?y)").err(),
        Some(EggError::MalformedRule)
    );
    assert_eq!(
        parse_rule("bad-op ; (FooOp ?x) => ?x").err(),
        Some(EggError::MalformedRule)
    );
    assert_eq!(
        parse_rule("free-var ; ?x => (AddOp ?x ?y)").err(),
        Some(EggError::MalformedRule)
    );
    assert_eq!(parse_rule("missing-semicolon").err(), Some(EggError::MalformedRule));
}

#[test]
fn rules_from_str_skips_blank_and_comment_lines() {
    let lines = vec![
        String::from(""),
        String::from("   "),
        String::from("# a comment"),
        String::from("r1 ; (MulOp ?x ?y) => (MulOp ?y ?x)"),
    ];
    let rules = rules_from_str(&lines, false).unwrap();
    assert_eq!(rules.len(), 1);
    let bad = vec![String::from("oops")];
    assert_eq!(rules_from_str(&bad, false).err(), Some(EggError::MalformedRule));
}

#[test]
fn decreasing_perm_checks_strictness() {
    let mut g = EGraph::new();
    let n1 = g.add_with_data(leaf(OpKind::Num, 1), TensorData::scalar(1));
    let n0 = g.add_with_data(leaf(OpKind::Num, 0), TensorData::scalar(0));
    let dec = g.add_with_data(node(OpKind::VecOp, vec![n1, n0]), scalar_data());
    let inc = g.add_with_data(node(OpKind::VecOp, vec![n0, n1]), scalar_data());
    assert!(decreasing_perm(&g, dec));
    assert!(!decreasing_perm(&g, inc));
}

#[test]
fn stats_count_nodes_classes_edges() {
    let mut g = EGraph::new();
    let a = g.add_with_data(leaf(OpKind::Num, 1), scalar_data());
    let b = g.add_with_data(leaf(OpKind::Num, 2), scalar_data());
    let _f = g.add_with_data(node(OpKind::AddOp, vec![a, b]), scalar_data());
    let (num_enodes, num_classes, num_edges) = get_stats(&g);
    assert_eq!(num_enodes, 3);
    assert_eq!(num_classes, 3);
    assert_eq!(num_edges, 2);
    g.union(a, b).unwrap();
    g.rebuild().unwrap();
    let (_, num_classes2, _) = get_stats(&g);
    assert_eq!(num_classes2, 2);
}

#[test]
fn offline_filter_blacklists_cyclic_nodes() {
    let mut g = EGraph::new();
    let zero = g.add_with_data(leaf(OpKind::Num, 0), scalar_data());
    let x = g.add_with_data(leaf(OpKind::Num, 1), TensorData::scalar(1));
    let grown = g.add_with_data(node(OpKind::AddOp, vec![x, zero]), TensorData::scalar(1));
    g.union(x, grown).unwrap();
    g.rebuild().unwrap();
    let _order = g.remove_cycle_by_order();
    // the self-referential application can no longer be extracted
    let mut found_blacklisted_add = false;
    for k in 0..g.nodes.len() {
        if matches!(g.nodes[k].op, OpKind::AddOp) {
            assert!(g.node_blacklist[k]);
            found_blacklisted_add = true;
        }
    }
    assert!(found_blacklisted_add);
}
