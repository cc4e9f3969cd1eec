//! End-to-end scenarios: building programs, saturating, and extracting.
use tensat::input::{
    convert_to_node, default_rules, egraph_from_expr, extract_nodes, finish_ilp, new_converter,
    Node, TensorInfo,
};
use tensat::model::{shape_from_dim, EggError, TensorData};
use tensat::optimize::{
    apply_ilp_solution, get_init_solution, greedy_picks, prep_ilp_data, total_cost, CostModel,
    SolvedResults,
};
use tensat::rewrites::{parse_multi_rule, rules_from_str};
use tensat::runner::{MultiPatterns, RunnerConfig, StopReason};

fn count_named(nodes: &[Node], name: &str) -> usize {
    nodes.iter().filter(|n| n.name == name).count()
}

fn default_config() -> RunnerConfig {
    let mut c = RunnerConfig::new();
    c.iter_limit = 20;
    c.node_limit = 100000;
    c
}

#[test]
fn identity_fold() {
    // Transpose(Transpose(Input, [1,0]), [1,0]) folds back to the input
    let mut conv = new_converter();
    let a = conv.new_input(0, &[3, 4]).unwrap();
    let t1 = conv.new_transpose_op(&a, &[1, 0]);
    let t2 = conv.new_transpose_op(&t1, &[1, 0]);
    assert_eq!(&t2.shape[..2], &[3, 4]);
    let out = conv.optimize(&vec![], &default_config()).unwrap();
    assert_eq!(count_named(&out.nodes, "TransposeOp"), 0);
    assert_eq!(count_named(&out.nodes, "Input"), 1);
    // the extracted program is the input itself: structural nodes only, cost zero
    assert_eq!(out.nodes.last().unwrap().name, "Input");
}

#[test]
fn transpose_pair_stays_when_perm_not_decreasing() {
    // the identity permutation is not strictly decreasing, so the
    // conditional rewrite must not fire
    let mut conv = new_converter();
    let a = conv.new_input(0, &[3, 4]).unwrap();
    let t1 = conv.new_transpose_op(&a, &[0, 1]);
    let _t2 = conv.new_transpose_op(&t1, &[0, 1]);
    let out = conv.optimize(&vec![], &default_config()).unwrap();
    assert_eq!(count_named(&out.nodes, "TransposeOp"), 2);
}

#[test]
fn empty_rule_set_reproduces_input() {
    let mut conv = new_converter();
    let a = conv.new_input(0, &[3, 4]).unwrap();
    let _t = conv.new_transpose_op(&a, &[1, 0]);
    let before = convert_to_node(&conv.rec_expr);
    let out = conv.optimize_with_rules(&vec![], &default_config()).unwrap();
    assert_eq!(out.stop_reason, StopReason::Saturated);
    assert_eq!(out.nodes.len(), before.len());
    for name in ["Input", "TransposeOp", "Var", "Num", "Vec"] {
        assert_eq!(count_named(&out.nodes, name), count_named(&before, name));
    }
}

#[test]
fn saturation_budget_iter_limit() {
    // ten adds, one allowed iteration: the driver reports the iteration cap
    let mut conv = new_converter();
    let mut cur = *conv.new_input(0, &[2, 2]).unwrap();
    for i in 1..=10 {
        let other = conv.new_input(i, &[2, 2]).unwrap();
        cur = *conv.new_add_op(&cur, &other);
    }
    let mut config = RunnerConfig::new();
    config.iter_limit = 1;
    config.node_limit = 5000000;
    let out = conv.optimize(&vec![], &config).unwrap();
    assert_eq!(out.stop_reason, StopReason::IterLimit);
    assert_eq!(out.iterations, 1);
    // and the extraction is still a valid program with ten adds
    assert_eq!(count_named(&out.nodes, "AddOp"), 10);
}

#[test]
fn cycle_prevention_online() {
    // a growing rule and the online filter: extraction stays finite
    let mut conv = new_converter();
    let a = conv.new_input(0, &[2, 2]).unwrap();
    let zero = conv.new_iota_op(0, &[2, 2]).unwrap();
    let seed = conv.new_add_op(&a, &zero);
    assert!(seed.id > 0);
    let rules = rules_from_str(
        &vec![String::from("grow ; (AddOp ?x ?y) => (AddOp (AddOp ?x ?y) ?y)")],
        false,
    )
    .unwrap();
    let mut config = RunnerConfig::new();
    config.iter_limit = 3;
    config.node_limit = 100000;
    config.no_cycle = true;
    let out = conv.optimize_with_rules(&rules, &config).unwrap();
    // the final program is finite and small
    assert!(out.nodes.len() <= 20);
}

#[test]
fn multi_pattern_fires_only_on_shared_factor() {
    // (Mul ?x ?y) and (Mul ?x ?z) fuse only when both share ?x
    let line = "fuse-mul ; (MulOp ?x ?y) , (MulOp ?x ?z) => (MulOp ?x (AddOp ?y ?z)) , (MulOp ?x (AddOp ?y ?z))";
    let _rule = parse_multi_rule(line, false).unwrap();

    // shared factor: both sites end up in one class with the fused form
    let mut conv = new_converter();
    let a = conv.new_input(0, &[2, 2]).unwrap();
    let b = conv.new_input(1, &[2, 2]).unwrap();
    let c = conv.new_input(2, &[2, 2]).unwrap();
    let m1 = conv.new_mul_op(&a, &b);
    let m2 = conv.new_mul_op(&a, &c);
    let _root = conv.new_add_op(&m1, &m2);
    let (mut egraph, map) = egraph_from_expr(&conv.rec_expr).unwrap();
    let c_m1 = map[m1.id];
    let c_m2 = map[m2.id];
    assert_ne!(egraph.find(c_m1), egraph.find(c_m2));
    let mut mp = MultiPatterns::with_rules(
        vec![(String::from(line), false)],
        false,
        2,
        false,
        30000,
        60,
    )
    .unwrap();
    let changed = mp.run_one(&mut egraph).unwrap();
    assert!(changed > 0);
    assert_eq!(egraph.find(c_m1), egraph.find(c_m2));

    // no shared factor: nothing fuses
    let mut conv2 = new_converter();
    let a2 = conv2.new_input(0, &[2, 2]).unwrap();
    let b2 = conv2.new_input(1, &[2, 2]).unwrap();
    let c2 = conv2.new_input(2, &[2, 2]).unwrap();
    let d2 = conv2.new_input(3, &[2, 2]).unwrap();
    let m1b = conv2.new_mul_op(&a2, &b2);
    let m2b = conv2.new_mul_op(&d2, &c2);
    let _root2 = conv2.new_add_op(&m1b, &m2b);
    let (mut egraph2, map2) = egraph_from_expr(&conv2.rec_expr).unwrap();
    let mut mp2 = MultiPatterns::with_rules(
        vec![(String::from(line), false)],
        false,
        2,
        false,
        30000,
        60,
    )
    .unwrap();
    mp2.run_one(&mut egraph2).unwrap();
    assert_ne!(egraph2.find(map2[m1b.id]), egraph2.find(map2[m2b.id]));
}

#[test]
fn shape_overflow_is_fatal() {
    let mut conv = new_converter();
    let a = conv.new_input(0, &[2, 2]).unwrap();
    assert_eq!(
        conv.new_reshape_op(&a, &[1; 9]).err(),
        Some(EggError::ShapeOverflow)
    );
    assert_eq!(conv.new_input(1, &[1; 9]).err(), Some(EggError::ShapeOverflow));
}

#[test]
fn dot_associativity_picks_cheaper_parenthesization() {
    // A:2x8, B:8x4, C:4x2 — (A(BC)) costs 256+256, ((AB)C) costs 512+64
    let mut conv = new_converter();
    let a = conv.new_input(0, &[2, 8]).unwrap();
    let b = conv.new_input(1, &[8, 4]).unwrap();
    let c = conv.new_input(2, &[4, 2]).unwrap();
    let no: [i32; 0] = [];
    let ab = conv
        .new_dot_general_op(&a, &b, &no, &no, &[1], &[0], &no, &[2, 4])
        .unwrap();
    let opt2 = conv
        .new_dot_general_op(&ab, &c, &no, &no, &[1], &[0], &no, &[2, 2])
        .unwrap();
    let bc = conv
        .new_dot_general_op(&b, &c, &no, &no, &[1], &[0], &no, &[8, 2])
        .unwrap();
    let opt1 = conv
        .new_dot_general_op(&a, &bc, &no, &no, &[1], &[0], &no, &[2, 2])
        .unwrap();
    let (mut egraph, map) = egraph_from_expr(&conv.rec_expr).unwrap();
    // the two parenthesizations compute the same product
    egraph.union(map[opt1.id], map[opt2.id]).unwrap();
    egraph.rebuild().unwrap();
    let cost_model = CostModel::new();
    let data = prep_ilp_data(&egraph, map[opt1.id], &cost_model);
    let picks = greedy_picks(&data);
    let symbols = egraph.symbols.clone();
    let (nodes, _) = extract_nodes(&data, &picks, &symbols).unwrap();
    assert_eq!(count_named(&nodes, "DotGeneralOp"), 2);
    // in the cheap pairing every dot has an Input as its left operand
    for n in nodes.iter() {
        if n.name == "DotGeneralOp" {
            let lhs = n.operands[0] as usize;
            assert_eq!(nodes[lhs].name, "Input", "expensive pairing was chosen");
        }
    }
}

#[test]
fn saturation_reports_saturated_on_fixpoint() {
    let mut conv = new_converter();
    let a = conv.new_input(0, &[2, 2]).unwrap();
    let b = conv.new_input(1, &[2, 2]).unwrap();
    let _m = conv.new_mul_op(&a, &b);
    let out = conv.optimize(&vec![], &default_config()).unwrap();
    assert_eq!(out.stop_reason, StopReason::Saturated);
    assert_eq!(count_named(&out.nodes, "MulOp"), 1);
}

#[test]
fn ilp_solution_roundtrip_prefers_cheaper() {
    let mut conv = new_converter();
    let a = conv.new_input(0, &[3, 4]).unwrap();
    let t1 = conv.new_transpose_op(&a, &[1, 0]);
    let _t2 = conv.new_transpose_op(&t1, &[1, 0]);
    let prepared = conv
        .prepare_with_rules(&default_rules(&vec![], false).unwrap(), &default_config())
        .unwrap();
    // a solver answer that picks nothing is unusable: the greedy fallback wins
    let solved = SolvedResults { solved_x: vec![0; prepared.data.i_to_nodes.len()] };
    let (nodes, duplicates) = finish_ilp(&prepared.data, &prepared.symbols, &solved).unwrap();
    assert_eq!(duplicates, 0);
    assert_eq!(count_named(&nodes, "TransposeOp"), 0);
    assert_eq!(count_named(&nodes, "Input"), 1);
}

#[test]
fn greedy_total_cost_matches_model() {
    // Dot(A, B) with A:2x8 (16 elements) and B:8x4 (32 elements): 512
    let mut conv = new_converter();
    let a = conv.new_input(0, &[2, 8]).unwrap();
    let b = conv.new_input(1, &[8, 4]).unwrap();
    let no: [i32; 0] = [];
    let d = conv
        .new_dot_general_op(&a, &b, &no, &no, &[1], &[0], &no, &[2, 4])
        .unwrap();
    let (egraph, map) = egraph_from_expr(&conv.rec_expr).unwrap();
    let cost_model = CostModel::new();
    let data = prep_ilp_data(&egraph, map[d.id], &cost_model);
    let picks = greedy_picks(&data);
    assert_eq!(total_cost(&picks, &data.cost_i), 512);
}

#[test]
fn greedy_solution_seeds_solver_lists() {
    let mut conv = new_converter();
    let a = conv.new_input(0, &[2, 2]).unwrap();
    let b = conv.new_input(1, &[2, 2]).unwrap();
    let m = conv.new_mul_op(&a, &b);
    let (egraph, map) = egraph_from_expr(&conv.rec_expr).unwrap();
    let cost_model = CostModel::new();
    let data = prep_ilp_data(&egraph, map[m.id], &cost_model);
    let picks = greedy_picks(&data);
    let (i_list, m_list) = get_init_solution(&data, &picks);
    assert_eq!(i_list.len(), m_list.len());
    assert_eq!(i_list.len(), data.m_id_map.len());
    for (i, m2) in i_list.iter().zip(m_list.iter()) {
        assert_eq!(data.g_i[*i], *m2);
    }
}

#[test]
fn cost_queries_use_nonzero_dims() {
    let (s, n) = shape_from_dim(&[3, 4]).unwrap();
    let cm = CostModel::new();
    let dims = cm.tensor_data_to_shape_vec(&TensorData::tensor(s, n));
    assert_eq!(dims, vec![3i64, 4]);
}

#[test]
fn duplicate_solver_picks_are_counted_not_kept() {
    // two inputs merged into one class: picking both counts one duplicate
    let mut conv = new_converter();
    let a = conv.new_input(0, &[2, 2]).unwrap();
    let b = conv.new_input(1, &[2, 2]).unwrap();
    let _m = conv.new_mul_op(&a, &b);
    let (mut egraph, map) = egraph_from_expr(&conv.rec_expr).unwrap();
    egraph.union(map[a.id], map[b.id]).unwrap();
    egraph.rebuild().unwrap();
    let cost_model = CostModel::new();
    let data = prep_ilp_data(&egraph, map[_m.id], &cost_model);
    let solved = SolvedResults { solved_x: vec![1; data.i_to_nodes.len()] };
    let (picks, duplicates) = apply_ilp_solution(&data, &solved);
    assert_eq!(duplicates, 1);
    // and every settled class kept its first pick in node order
    for (m, p) in picks.iter().enumerate() {
        if let Some(i) = p {
            assert_eq!(data.g_i[*i], m);
            for i2 in 0..*i {
                assert!(data.g_i[i2] != m);
            }
        }
    }
}

#[test]
fn broadcast_takes_literal_result_shape() {
    let mut conv = new_converter();
    let a = conv.new_input(0, &[4]).unwrap();
    let bc = conv.new_broadcast_in_dim(&a, &[2, 4]).unwrap();
    assert_eq!(&bc.shape[..2], &[2, 4]);
    assert_eq!(
        conv.new_broadcast_in_dim(&a, &[1; 9]).err(),
        Some(EggError::ShapeOverflow)
    );
}

#[test]
fn analysis_parses_input_shape_from_name() {
    // the e-graph's own analysis recovers the shape from the @-suffix
    let mut conv = new_converter();
    let a = conv.new_input(0, &[3, 4]).unwrap();
    let (egraph, map) = egraph_from_expr(&conv.rec_expr).unwrap();
    let data = egraph.class_data(map[a.id]);
    assert_eq!(data.n_dim, 2);
    assert_eq!(&data.shape[..2], &[3, 4]);
    let info: TensorInfo = *a;
    assert_eq!(&info.shape[..2], &[3, 4]);
}
