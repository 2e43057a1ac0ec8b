use autodiff::value::Graph;
use autodiff::weights::{Fanning, WeightInit};

fn b(x: f64) -> u64 {
    x.to_bits()
}

fn f(x: u64) -> f64 {
    f64::from_bits(x)
}

#[test]
fn add_rule_backward() {
    let mut g = Graph::new();
    let a = g.leaf(b(2.0), true);
    let bb = g.leaf(b(3.0), true);
    let c = g.add(a, bb);
    assert_eq!(f(g.data(c)), 5.0);
    g.backward(c);
    assert_eq!(f(g.grad(a)), 1.0);
    assert_eq!(f(g.grad(bb)), 1.0);
    assert_eq!(f(g.grad(c)), 1.0);
}

#[test]
fn mul_rule_backward() {
    let mut g = Graph::new();
    let a = g.leaf(b(2.0), true);
    let bb = g.leaf(b(3.0), true);
    let d = g.mul(a, bb);
    assert_eq!(f(g.data(d)), 6.0);
    g.backward(d);
    assert_eq!(f(g.grad(a)), 3.0);
    assert_eq!(f(g.grad(bb)), 2.0);
}

#[test]
fn sub_rule_backward() {
    let mut g = Graph::new();
    let a = g.leaf(b(7.0), true);
    let bb = g.leaf(b(3.0), true);
    let c = g.sub(a, bb);
    assert_eq!(f(g.data(c)), 4.0);
    g.backward(c);
    assert_eq!(f(g.grad(a)), 1.0);
    assert_eq!(f(g.grad(bb)), -1.0);
}

#[test]
fn div_rule_backward() {
    let mut g = Graph::new();
    let a = g.leaf(b(3.0), true);
    let bb = g.leaf(b(2.0), true);
    let c = g.div(a, bb);
    assert_eq!(f(g.data(c)), 1.5);
    g.backward(c);
    assert_eq!(f(g.grad(a)), 0.5);
    assert_eq!(f(g.grad(bb)), -0.75);
}

#[test]
fn accumulation_across_shared_paths() {
    // x feeds two independent products; backward from their sum accumulates
    // both contributions: x.grad = a.data + b.data.
    let mut g = Graph::new();
    let x = g.leaf(b(3.0), true);
    let a = g.leaf(b(4.0), true);
    let bb = g.leaf(b(5.0), true);
    let fx = g.mul(x, a);
    let gx = g.mul(x, bb);
    let r = g.add(fx, gx);
    g.backward(r);
    assert_eq!(f(g.grad(x)), 9.0);
}

#[test]
fn pow_rule_constant_exponent() {
    let mut g = Graph::new();
    let x = g.leaf(b(2.0), true);
    let y = g.powf(x, b(3.0));
    assert_eq!(f(g.data(y)), 8.0);
    g.backward(y);
    assert_eq!(f(g.grad(x)), 12.0);
}

#[test]
fn pow_node_exponent_backward() {
    let mut g = Graph::new();
    let x = g.leaf(b(2.0), true);
    let e = g.leaf(b(3.0), true);
    let y = g.pow(x, e);
    assert_eq!(f(g.data(y)), 8.0);
    g.backward(y);
    assert_eq!(f(g.grad(x)), 12.0);
    let expected_e = 2.0f64.ln() * 8.0;
    assert!((f(g.grad(e)) - expected_e).abs() < 1e-12);
}

#[test]
fn powf_edge_exponents() {
    let mut g = Graph::new();
    let x = g.leaf(b(5.0), true);
    let one = g.powf(x, b(0.0));
    assert_eq!(f(g.data(one)), 1.0);
    let same = g.powf(x, b(1.0));
    assert_eq!(f(g.data(same)), 5.0);
    let big = g.leaf(b(2.0), false);
    let p10 = g.powf(big, b(10.0));
    assert_eq!(f(g.data(p10)), 1024.0);
    let root = g.leaf(b(4.0), false);
    let half = g.powf(root, b(0.5));
    assert!((f(g.data(half)) - 2.0).abs() < 1e-12);
}

#[test]
fn relu_subgradient_cases() {
    // Negative input: zero propagates.
    let mut g = Graph::new();
    let x = g.leaf(b(-1.0), true);
    let r = g.relu(x);
    assert_eq!(f(g.data(r)), 0.0);
    g.backward(r);
    assert_eq!(f(g.grad(x)), 0.0);

    // Positive input: the upstream gradient passes through unchanged.
    let mut g2 = Graph::new();
    let x2 = g2.leaf(b(2.0), true);
    let r2 = g2.relu(x2);
    assert_eq!(f(g2.data(r2)), 2.0);
    g2.backward(r2);
    assert_eq!(f(g2.grad(x2)), 1.0);

    // The kink itself: zero propagates by convention.
    let mut g3 = Graph::new();
    let x3 = g3.leaf(b(0.0), true);
    let r3 = g3.relu(x3);
    assert_eq!(f(g3.data(r3)), 0.0);
    g3.backward(r3);
    assert_eq!(f(g3.grad(x3)), 0.0);
}

#[test]
fn tanh_forward_and_backward() {
    let mut g = Graph::new();
    let x = g.leaf(b(0.5), true);
    let t = g.tanh(x);
    let d = f(g.data(t));
    assert!((d - 0.5f64.tanh()).abs() < 1e-12);
    g.backward(t);
    // With a unit upstream gradient the contribution is exactly 1 - d*d as
    // rounded by the engine itself.
    assert_eq!(f(g.grad(x)), 1.0 - d * d);

    // Saturation far from zero.
    let mut g2 = Graph::new();
    let x2 = g2.leaf(b(25.0), false);
    let t2 = g2.tanh(x2);
    assert_eq!(f(g2.data(t2)), 1.0);
    let x3 = g2.leaf(b(-25.0), false);
    let t3 = g2.tanh(x3);
    assert_eq!(f(g2.data(t3)), -1.0);
}

#[test]
fn softmax_forward_matches_reference() {
    let mut g = Graph::new();
    let xs = vec![g.leaf(b(1.0), true), g.leaf(b(2.0), true), g.leaf(b(3.0), true)];
    let outs = g.softmax(&xs);
    assert_eq!(outs.len(), 3);
    let es: Vec<f64> = vec![1.0f64.exp(), 2.0f64.exp(), 3.0f64.exp()];
    let sum: f64 = es[0] + es[1] + es[2];
    let mut total = 0.0f64;
    for i in 0..3 {
        let v = f(g.data(outs[i]));
        assert!((v - es[i] / sum).abs() < 1e-12);
        assert!(0.0 < v && v < 1.0);
        total += v;
    }
    assert!((total - 1.0).abs() < 1e-12);
}

#[test]
fn softmax_jacobian_matches_finite_differences() {
    let inputs = [1.0f64, 2.0, 3.0];
    let h = 1e-6f64;
    for i in 0..3 {
        // Analytic row i out of one backward pass from output i.
        let mut g = Graph::new();
        let xs = vec![
            g.leaf(b(inputs[0]), true),
            g.leaf(b(inputs[1]), true),
            g.leaf(b(inputs[2]), true),
        ];
        let outs = g.softmax(&xs);
        g.backward(outs[i]);
        for j in 0..3 {
            let analytic = f(g.grad(xs[j]));
            // Central finite difference of the engine's own forward value.
            let mut dp = inputs;
            dp[j] += h;
            let mut dm = inputs;
            dm[j] -= h;
            let mut gp = Graph::new();
            let xp = vec![gp.leaf(b(dp[0]), true), gp.leaf(b(dp[1]), true), gp.leaf(b(dp[2]), true)];
            let op = gp.softmax(&xp);
            let mut gm = Graph::new();
            let xm = vec![gm.leaf(b(dm[0]), true), gm.leaf(b(dm[1]), true), gm.leaf(b(dm[2]), true)];
            let om = gm.softmax(&xm);
            let numeric = (f(gp.data(op[i])) - f(gm.data(om[i]))) / (2.0 * h);
            assert!(
                (analytic - numeric).abs() < 1e-5,
                "row {} col {}: analytic {} numeric {}",
                i,
                j,
                analytic,
                numeric
            );
        }
    }
}

#[test]
fn diamond_is_visited_once_and_in_order() {
    // x -> a -> c and x -> b -> c with c = a + b: the driver must list x
    // exactly once, and only after both a and b.
    let mut g = Graph::new();
    let x = g.leaf(b(1.0), true);
    let p = g.leaf(b(2.0), false);
    let q = g.leaf(b(3.0), false);
    let a = g.mul(x, p);
    let bb = g.mul(x, q);
    let c = g.add(a, bb);
    let order = g.topo_order(c);
    let count_x = order.iter().filter(|&&i| i == 0usize).count();
    assert_eq!(count_x, 1);
    let pos = |t: usize| order.iter().position(|&i| i == t).unwrap();
    assert_eq!(order[0], 5usize);
    assert!(pos(0) > pos(3));
    assert!(pos(0) > pos(4));
    g.backward(c);
    assert_eq!(f(g.grad(x)), 5.0);
}

#[test]
fn division_by_zero_is_non_finite_not_a_fault() {
    let mut g = Graph::new();
    let a = g.leaf(b(1.0), true);
    let z = g.leaf(b(0.0), true);
    let d = g.div(a, z);
    let v = f(g.data(d));
    assert!(v.is_infinite() || v.is_nan());
    g.backward(d);
    // The pass completes; the denominator's gradient is likewise non-finite.
    assert!(f(g.grad(z)).is_infinite() || f(g.grad(z)).is_nan());

    let mut g2 = Graph::new();
    let z1 = g2.leaf(b(0.0), false);
    let z2 = g2.leaf(b(0.0), false);
    let nn = g2.div(z1, z2);
    assert!(f(g2.data(nn)).is_nan());
}

#[test]
fn backward_twice_accumulates() {
    let mut g = Graph::new();
    let a = g.leaf(b(2.0), true);
    let bb = g.leaf(b(3.0), true);
    let c = g.add(a, bb);
    g.backward(c);
    g.backward(c);
    assert_eq!(f(g.grad(a)), 2.0);
    // An explicit reset gives a fresh pass.
    g.set_grad(a, b(0.0));
    g.set_grad(bb, b(0.0));
    g.backward(c);
    assert_eq!(f(g.grad(a)), 1.0);
}

#[test]
fn leaf_root_only_seeds_itself() {
    let mut g = Graph::new();
    let a = g.leaf(b(4.0), true);
    let other = g.leaf(b(5.0), true);
    g.backward(a);
    assert_eq!(f(g.grad(a)), 1.0);
    assert_eq!(f(g.grad(other)), 0.0);
}

#[test]
fn untracked_operand_receives_no_gradient() {
    let mut g = Graph::new();
    let a = g.leaf(b(2.0), false);
    let bb = g.leaf(b(3.0), true);
    let c = g.mul(a, bb);
    g.backward(c);
    assert_eq!(f(g.grad(a)), 0.0);
    assert_eq!(f(g.grad(bb)), 2.0);
}

#[test]
fn equation_lists_operands() {
    let mut g = Graph::new();
    let a = g.leaf(b(1.0), true);
    let bb = g.leaf(b(2.0), true);
    let c = g.add(a, bb);
    let ops = g.equation(c);
    assert_eq!(ops.len(), 2);
    assert_eq!(ops[0].idx, a.idx);
    assert_eq!(ops[1].idx, bb.idx);
    assert_eq!(g.equation(a).len(), 0);
}

#[test]
fn accessors_observe_one_cell() {
    let mut g = Graph::new();
    let a = g.leaf(b(1.25), true);
    assert_eq!(f(g.data(a)), 1.25);
    assert_eq!(f(g.grad(a)), 0.0);
    assert!(g.should_compute_grad(a));
    let k = g.leaf(b(7.0), false);
    assert!(!g.should_compute_grad(k));
    g.set_grad(a, b(2.5));
    assert_eq!(f(g.grad(a)), 2.5);
    assert_eq!(g.len(), 2);
}

#[test]
fn uniform_weight_draws_stay_in_their_limits() {
    let mut g = Graph::new();
    for _ in 0..50 {
        let v = WeightInit::GlorotUniform.sample(Fanning(3, 5), &mut g);
        let w = f(g.data(v));
        let limit = (6.0f64 / 8.0).sqrt();
        assert!(w.is_finite() && -limit - 1e-9 <= w && w <= limit + 1e-9);
        assert!(g.should_compute_grad(v));
        assert_eq!(f(g.grad(v)), 0.0);

        let v2 = WeightInit::HeUniform.sample(Fanning(4, 4), &mut g);
        let w2 = f(g.data(v2));
        let l2 = (6.0f64 / 4.0).sqrt();
        assert!(w2.is_finite() && -l2 - 1e-9 <= w2 && w2 <= l2 + 1e-9);

        let v3 = WeightInit::LecunUniform.sample(Fanning(12, 1), &mut g);
        let w3 = f(g.data(v3));
        let l3 = (3.0f64 / 12.0).sqrt();
        assert!(w3.is_finite() && -l3 - 1e-9 <= w3 && w3 <= l3 + 1e-9);
    }
}

#[test]
fn normal_weight_draws_are_finite_tracked_leaves() {
    let mut g = Graph::new();
    let before = g.len();
    for i in 0..50 {
        let v = WeightInit::GlorotNormal.sample(Fanning(3, 5), &mut g);
        assert!(f(g.data(v)).is_finite());
        assert!(g.should_compute_grad(v));
        assert_eq!(g.equation(v).len(), 0);
        let v2 = WeightInit::HeNormal.sample(Fanning(9, 9), &mut g);
        assert!(f(g.data(v2)).is_finite());
        let v3 = WeightInit::LecunNormal.sample(Fanning(16, 16), &mut g);
        assert!(f(g.data(v3)).is_finite());
        assert_eq!(g.len(), before + 3 * (i + 1));
    }
}

#[test]
fn weights_feed_the_graph_as_ordinary_leaves() {
    let mut g = Graph::new();
    let w = WeightInit::LecunNormal.sample(Fanning(4, 4), &mut g);
    let x = g.leaf(b(2.0), false);
    let y = g.mul(w, x);
    g.backward(y);
    assert_eq!(f(g.grad(w)), 2.0);
}

#[test]
fn fanning_from_arrays() {
    let mut g = Graph::new();
    let two = Fanning::from([3usize, 5usize]);
    assert_eq!(two.0, 3);
    assert_eq!(two.1, 5);
    let one = Fanning::from([4usize]);
    assert_eq!(one.0, 4);
    assert_eq!(one.1, 4);
    let v = WeightInit::GlorotUniform.sample(two, &mut g);
    assert!(f(g.data(v)).is_finite());
}
