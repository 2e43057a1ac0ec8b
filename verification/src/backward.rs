//! The backward driver: one complete gradient pass from a chosen root.
//!
//! The arena is append-only and every producer references only earlier
//! cells, so walking the indices from the root downward and keeping the
//! cells reachable from the root yields a reverse topological order: every
//! cell appears exactly once, and strictly after all of the cells it feeds
//! into within the reachable subgraph. The driver seeds the root's gradient
//! with 1.0 and applies each reachable cell's local backward rule exactly
//! once, in that order, so a cell's gradient is fully accumulated before it
//! propagates further. Gradients are only ever added to, never reset:
//! running two passes without clearing gradients accumulates both, and
//! clearing between steps is the caller's responsibility through `set_grad`.

use vstd::prelude::*;
use crate::fp::{
    fadd, fsub, fmul, fdiv, fpowf, fln, fneg, is_pos, add_bits, sub_bits, mul_bits, div_bits,
    powf_bits, ln_bits, neg_bits, is_pos_bits, ZERO_BITS, ONE_BITS,
};
use crate::value::{Value, Op, Cell, Graph, op_operands, cell_wf, graph_wf};

verus! {

/// The operand handles recorded in a cell's producer, empty for a leaf.
pub open spec fn operands_of(c: Cell) -> Seq<Value> {
    match c.producer {
        Option::None => Seq::empty(),
        Option::Some(op) => op_operands(op),
    }
}

/// The input handles of a softmax producer, empty for anything else.
pub open spec fn softmax_inputs(c: Cell) -> Seq<Value> {
    match c.producer {
        Option::Some(Op::Softmax(xs, _)) => xs@,
        _ => Seq::empty(),
    }
}

/// The Jacobian row of a softmax producer, empty for anything else.
pub open spec fn softmax_jac(c: Cell) -> Seq<u64> {
    match c.producer {
        Option::Some(Op::Softmax(_, jac)) => jac@,
        _ => Seq::empty(),
    }
}

/// The marks after setting the first `k` of the handles in `ops` to true.
pub open spec fn set_marks(m: Seq<bool>, ops: Seq<Value>, k: int) -> Seq<bool>
    decreases k,
{
    if k <= 0 {
        m
    } else {
        set_marks(m, ops, k - 1).update(ops[k - 1].idx as int, true)
    }
}

/// One marking step at index `i`: when `i` is marked, all operands of its
/// producer become marked.
pub open spec fn mark_step(cells: Seq<Cell>, m: Seq<bool>, i: int) -> Seq<bool> {
    if m[i] {
        set_marks(m, operands_of(cells[i]), operands_of(cells[i]).len() as int)
    } else {
        m
    }
}

/// The marks after the scan has processed the `k` indices `root`,
/// `root - 1`, ..., `root - k + 1`, starting from only the root marked.
pub open spec fn marks_down(cells: Seq<Cell>, root: int, k: nat) -> Seq<bool>
    decreases k,
{
    if k == 0 {
        Seq::new(cells.len(), |j: int| j == root)
    } else {
        mark_step(cells, marks_down(cells, root, (k - 1) as nat), root - k + 1)
    }
}

/// Whether cell `j` is reachable from the root along producer operand
/// edges: exactly the cells the finished downward scan has marked.
pub open spec fn reached(cells: Seq<Cell>, root: int, j: int) -> bool {
    marks_down(cells, root, (root + 1) as nat)[j]
}

/// The reachable indices strictly below `k`, in descending order.
pub open spec fn ord_upto(cells: Seq<Cell>, root: int, k: nat) -> Seq<int>
    decreases k,
{
    if k == 0 {
        Seq::empty()
    } else if reached(cells, root, k - 1) {
        seq![(k - 1) as int] + ord_upto(cells, root, (k - 1) as nat)
    } else {
        ord_upto(cells, root, (k - 1) as nat)
    }
}

/// The reverse topological order of one backward pass: all cells reachable
/// from the root, in descending index order, the root first.
pub open spec fn back_order(cells: Seq<Cell>, root: int) -> Seq<int> {
    ord_upto(cells, root, (root + 1) as nat)
}

/// Adds `amt` into the gradient accumulator of the cell behind `v`, when
/// that cell takes part in gradient computation.
pub open spec fn acc_grad(cells: Seq<Cell>, v: Value, amt: u64) -> Seq<Cell> {
    if cells[v.idx as int].requires_grad {
        cells.update(
            v.idx as int,
            Cell { grad: add_bits(cells[v.idx as int].grad, amt), ..cells[v.idx as int] },
        )
    } else {
        cells
    }
}

/// The first `k` softmax contributions: input `j` receives the node's
/// gradient times entry `j` of the stored Jacobian row.
pub open spec fn acc_softmax(
    cells: Seq<Cell>,
    xs: Seq<Value>,
    jac: Seq<u64>,
    g: u64,
    k: int,
) -> Seq<Cell>
    decreases k,
{
    if k <= 0 {
        cells
    } else {
        acc_grad(acc_softmax(cells, xs, jac, g, k - 1), xs[k - 1], mul_bits(g, jac[k - 1]))
    }
}

/// One application of the local backward rule of the cell at `i`: given its
/// own accumulated gradient `g` and forward data, each operand that takes
/// part in gradient computation receives its correctly scaled contribution,
/// by addition. Leaves propagate nothing.
pub open spec fn apply_node(cells: Seq<Cell>, i: int) -> Seq<Cell> {
    let c = cells[i];
    let g = c.grad;
    match c.producer {
        Option::None => cells,
        Option::Some(op) => match op {
            Op::Add(a, b) => acc_grad(acc_grad(cells, a, g), b, g),
            Op::Sub(a, b) => acc_grad(acc_grad(cells, a, g), b, neg_bits(g)),
            Op::Mul(a, b) => acc_grad(
                acc_grad(cells, a, mul_bits(g, cells[b.idx as int].data)),
                b,
                mul_bits(g, cells[a.idx as int].data),
            ),
            Op::Div(a, b) => acc_grad(
                acc_grad(cells, a, div_bits(g, cells[b.idx as int].data)),
                b,
                mul_bits(
                    g,
                    div_bits(
                        neg_bits(cells[a.idx as int].data),
                        mul_bits(cells[b.idx as int].data, cells[b.idx as int].data),
                    ),
                ),
            ),
            Op::Pow(a, e) => acc_grad(
                cells,
                a,
                mul_bits(
                    mul_bits(g, e),
                    powf_bits(cells[a.idx as int].data, sub_bits(e, ONE_BITS)),
                ),
            ),
            Op::PowV(a, e) => acc_grad(
                acc_grad(
                    cells,
                    a,
                    mul_bits(
                        mul_bits(g, cells[e.idx as int].data),
                        powf_bits(
                            cells[a.idx as int].data,
                            sub_bits(cells[e.idx as int].data, ONE_BITS),
                        ),
                    ),
                ),
                e,
                mul_bits(
                    mul_bits(g, ln_bits(cells[a.idx as int].data)),
                    powf_bits(cells[a.idx as int].data, cells[e.idx as int].data),
                ),
            ),
            Op::ReLu(a) => acc_grad(
                cells,
                a,
                mul_bits(
                    g,
                    if is_pos_bits(c.data) {
                        ONE_BITS
                    } else {
                        ZERO_BITS
                    },
                ),
            ),
            Op::Tanh(a) => acc_grad(cells, a, mul_bits(g, sub_bits(ONE_BITS, mul_bits(c.data, c.data)))),
            Op::Softmax(xs, jac) => acc_softmax(cells, xs@, jac@, g, xs@.len() as int),
        },
    }
}

/// The whole backward pass as a fold: the local rules of the first `k`
/// cells of `order`, applied in order.
pub open spec fn run_backward(cells: Seq<Cell>, order: Seq<int>, k: int) -> Seq<Cell>
    decreases k,
{
    if k <= 0 {
        cells
    } else {
        apply_node(run_backward(cells, order, k - 1), order[k - 1])
    }
}

/// The cells as they stand at the start of a pass from `root`: unchanged but
/// for the root's gradient, seeded to 1.0.
pub open spec fn seeded(cells: Seq<Cell>, root: int) -> Seq<Cell> {
    cells.update(root, Cell { grad: ONE_BITS, ..cells[root] })
}

/// Accumulation touches nothing but the one gradient accumulator.
proof fn lemma_acc_grad_structure(cells: Seq<Cell>, v: Value, amt: u64)
    requires
        v.idx < cells.len(),
    ensures
        acc_grad(cells, v, amt).len() == cells.len(),
        forall|j: int|
            0 <= j < cells.len() ==> {
                let c = #[trigger] acc_grad(cells, v, amt)[j];
                &&& c.data == cells[j].data
                &&& c.requires_grad == cells[j].requires_grad
                &&& c.producer == cells[j].producer
            },
{
}

/// Softmax accumulation touches nothing but gradient accumulators.
proof fn lemma_acc_softmax_structure(cells: Seq<Cell>, xs: Seq<Value>, jac: Seq<u64>, g: u64, k: int)
    requires
        forall|t: int| 0 <= t < k ==> (#[trigger] xs[t]).idx < cells.len(),
        k <= xs.len(),
    ensures
        acc_softmax(cells, xs, jac, g, k).len() == cells.len(),
        forall|j: int|
            0 <= j < cells.len() ==> {
                let c = #[trigger] acc_softmax(cells, xs, jac, g, k)[j];
                &&& c.data == cells[j].data
                &&& c.requires_grad == cells[j].requires_grad
                &&& c.producer == cells[j].producer
            },
    decreases k,
{
    if k > 0 {
        lemma_acc_softmax_structure(cells, xs, jac, g, k - 1);
        lemma_acc_grad_structure(acc_softmax(cells, xs, jac, g, k - 1), xs[k - 1], mul_bits(g, jac[k - 1]));
    }
}

/// One rule application touches nothing but gradient accumulators, and so
/// preserves well-formedness.
proof fn lemma_apply_node_structure(cells: Seq<Cell>, i: int)
    requires
        graph_wf(cells),
        0 <= i < cells.len(),
    ensures
        apply_node(cells, i).len() == cells.len(),
        forall|j: int|
            0 <= j < cells.len() ==> {
                let c = #[trigger] apply_node(cells, i)[j];
                &&& c.data == cells[j].data
                &&& c.requires_grad == cells[j].requires_grad
                &&& c.producer == cells[j].producer
            },
        graph_wf(apply_node(cells, i)),
{
    assert(cell_wf(cells[i], i));
    match cells[i].producer {
        Option::None => {},
        Option::Some(op) => {
            let ops = op_operands(op);
            assert(forall|k: int| 0 <= k < ops.len() ==> (#[trigger] ops[k]).idx < i);
            match op {
                Op::Add(a, b) => {
                    assert(ops[0] == a && ops[1] == b);
                    lemma_acc_grad_structure(cells, a, cells[i].grad);
                    lemma_acc_grad_structure(acc_grad(cells, a, cells[i].grad), b, cells[i].grad);
                },
                Op::Sub(a, b) => {
                    assert(ops[0] == a && ops[1] == b);
                    lemma_acc_grad_structure(cells, a, cells[i].grad);
                    lemma_acc_grad_structure(
                        acc_grad(cells, a, cells[i].grad),
                        b,
                        neg_bits(cells[i].grad),
                    );
                },
                Op::Mul(a, b) => {
                    assert(ops[0] == a && ops[1] == b);
                    lemma_acc_grad_structure(cells, a, mul_bits(cells[i].grad, cells[b.idx as int].data));
                    lemma_acc_grad_structure(
                        acc_grad(cells, a, mul_bits(cells[i].grad, cells[b.idx as int].data)),
                        b,
                        mul_bits(cells[i].grad, cells[a.idx as int].data),
                    );
                },
                Op::Div(a, b) => {
                    assert(ops[0] == a && ops[1] == b);
                    lemma_acc_grad_structure(cells, a, div_bits(cells[i].grad, cells[b.idx as int].data));
                    lemma_acc_grad_structure(
                        acc_grad(cells, a, div_bits(cells[i].grad, cells[b.idx as int].data)),
                        b,
                        mul_bits(
                            cells[i].grad,
                            div_bits(
                                neg_bits(cells[a.idx as int].data),
                                mul_bits(cells[b.idx as int].data, cells[b.idx as int].data),
                            ),
                        ),
                    );
                },
                Op::Pow(a, e) => {
                    assert(ops[0] == a);
                    lemma_acc_grad_structure(
                        cells,
                        a,
                        mul_bits(
                            mul_bits(cells[i].grad, e),
                            powf_bits(cells[a.idx as int].data, sub_bits(e, ONE_BITS)),
                        ),
                    );
                },
                Op::PowV(a, e) => {
                    assert(ops[0] == a && ops[1] == e);
                    let amt_a = mul_bits(
                        mul_bits(cells[i].grad, cells[e.idx as int].data),
                        powf_bits(
                            cells[a.idx as int].data,
                            sub_bits(cells[e.idx as int].data, ONE_BITS),
                        ),
                    );
                    lemma_acc_grad_structure(cells, a, amt_a);
                    lemma_acc_grad_structure(
                        acc_grad(cells, a, amt_a),
                        e,
                        mul_bits(
                            mul_bits(cells[i].grad, ln_bits(cells[a.idx as int].data)),
                            powf_bits(cells[a.idx as int].data, cells[e.idx as int].data),
                        ),
                    );
                },
                Op::ReLu(a) => {
                    assert(ops[0] == a);
                    lemma_acc_grad_structure(
                        cells,
                        a,
                        mul_bits(
                            cells[i].grad,
                            if is_pos_bits(cells[i].data) {
                                ONE_BITS
                            } else {
                                ZERO_BITS
                            },
                        ),
                    );
                },
                Op::Tanh(a) => {
                    assert(ops[0] == a);
                    lemma_acc_grad_structure(
                        cells,
                        a,
                        mul_bits(
                            cells[i].grad,
                            sub_bits(ONE_BITS, mul_bits(cells[i].data, cells[i].data)),
                        ),
                    );
                },
                Op::Softmax(xs, jac) => {
                    assert(forall|t: int| 0 <= t < xs@.len() ==> (#[trigger] xs@[t]).idx < cells.len());
                    lemma_acc_softmax_structure(cells, xs@, jac@, cells[i].grad, xs@.len() as int);
                },
            }
            assert(forall|j: int|
                0 <= j < cells.len() ==> cell_wf(#[trigger] apply_node(cells, i)[j], j)) by {
                assert(forall|j: int|
                    0 <= j < cells.len() ==> (#[trigger] apply_node(cells, i)[j]).producer
                        == cells[j].producer);
            }
        },
    }
}

/// A whole pass touches nothing but gradient accumulators, and preserves
/// well-formedness.
proof fn lemma_run_backward_structure(cells: Seq<Cell>, order: Seq<int>, k: int)
    requires
        graph_wf(cells),
        forall|p: int| 0 <= p < order.len() ==> 0 <= #[trigger] order[p] < cells.len(),
        k <= order.len(),
    ensures
        run_backward(cells, order, k).len() == cells.len(),
        forall|j: int|
            0 <= j < cells.len() ==> {
                let c = #[trigger] run_backward(cells, order, k)[j];
                &&& c.data == cells[j].data
                &&& c.requires_grad == cells[j].requires_grad
                &&& c.producer == cells[j].producer
            },
        graph_wf(run_backward(cells, order, k)),
    decreases k,
{
    if k > 0 {
        lemma_run_backward_structure(cells, order, k - 1);
        lemma_apply_node_structure(run_backward(cells, order, k - 1), order[k - 1]);
    }
}

/// Every index the order lists is reachable, in range, and the sequence is
/// strictly descending (so no index appears twice).
proof fn lemma_ord_upto_props(cells: Seq<Cell>, root: int, k: nat)
    ensures
        forall|p: int|
            0 <= p < ord_upto(cells, root, k).len() ==> 0 <= #[trigger] ord_upto(
                cells,
                root,
                k,
            )[p] < k,
        forall|p: int|
            0 <= p < ord_upto(cells, root, k).len() ==> reached(
                cells,
                root,
                #[trigger] ord_upto(cells, root, k)[p],
            ),
        forall|p: int, q: int|
            0 <= p < q < ord_upto(cells, root, k).len() ==> ord_upto(cells, root, k)[p]
                > ord_upto(cells, root, k)[q],
        forall|j: int| 0 <= j < k && reached(cells, root, j) ==> ord_upto(cells, root, k).contains(j),
    decreases k,
{
    if k > 0 {
        lemma_ord_upto_props(cells, root, (k - 1) as nat);
        let prev = ord_upto(cells, root, (k - 1) as nat);
        if reached(cells, root, k - 1) {
            let cur = ord_upto(cells, root, k);
            assert(cur == seq![(k - 1) as int] + prev);
            assert(forall|j: int|
                0 <= j < k && reached(cells, root, j) ==> cur.contains(j)) by {
                assert(cur[0] == k - 1);
                assert(forall|j: int|
                    0 <= j < k - 1 && reached(cells, root, j) ==> prev.contains(j));
                assert(forall|j: int| #[trigger]
                    prev.contains(j) ==> cur.contains(j)) by {
                    assert(forall|p: int|
                        0 <= p < prev.len() ==> cur[p + 1] == #[trigger] prev[p]);
                }
            }
        }
    }
}

/// Every operand handle a cell's producer records points strictly below the
/// cell's own index.
proof fn lemma_operands_bound(cells: Seq<Cell>, i: int)
    requires
        graph_wf(cells),
        0 <= i < cells.len(),
    ensures
        forall|t: int|
            0 <= t < operands_of(cells[i]).len() ==> (#[trigger] operands_of(cells[i])[t]).idx < i,
{
    assert(cell_wf(cells[i], i));
    match cells[i].producer {
        Option::None => {},
        Option::Some(op) => {
            assert(operands_of(cells[i]) == op_operands(op));
        },
    }
}

/// What `set_marks` leaves at one position: set when some processed handle
/// names it, untouched otherwise.
proof fn lemma_set_marks_char(m: Seq<bool>, ops: Seq<Value>, k: int, x: int)
    requires
        0 <= x < m.len(),
        forall|t: int| 0 <= t < k ==> 0 <= (#[trigger] ops[t]).idx < m.len(),
    ensures
        set_marks(m, ops, k).len() == m.len(),
        set_marks(m, ops, k)[x] == (m[x] || exists|t: int| 0 <= t < k && (#[trigger] ops[t]).idx == x),
    decreases k,
{
    if k > 0 {
        lemma_set_marks_char(m, ops, k - 1, x);
        if ops[k - 1].idx == x {
            assert(set_marks(m, ops, k)[x]);
        } else {
            assert(set_marks(m, ops, k)[x] == set_marks(m, ops, k - 1)[x]);
            if m[x] || exists|t: int| 0 <= t < k && (#[trigger] ops[t]).idx == x {
                if !m[x] {
                    let t = choose|t: int| 0 <= t < k && (#[trigger] ops[t]).idx == x;
                    assert(0 <= t < k - 1 && ops[t].idx == x);
                }
            }
        }
    }
}

/// The downward scan keeps one mark per cell.
proof fn lemma_marks_down_len(cells: Seq<Cell>, root: int, k: nat)
    requires
        graph_wf(cells),
        0 <= root < cells.len(),
        k <= root + 1,
    ensures
        marks_down(cells, root, k).len() == cells.len(),
    decreases k,
{
    if k > 0 {
        lemma_marks_down_len(cells, root, (k - 1) as nat);
        let m = marks_down(cells, root, (k - 1) as nat);
        let i = root - k + 1;
        lemma_operands_bound(cells, i);
        if m[i] {
            lemma_set_marks_char(m, operands_of(cells[i]), operands_of(cells[i]).len() as int, root);
        }
    }
}

/// Marks only ever get set as the scan proceeds.
proof fn lemma_marks_monotone(cells: Seq<Cell>, root: int, k1: nat, k2: nat, x: int)
    requires
        graph_wf(cells),
        0 <= root < cells.len(),
        k1 <= k2 <= root + 1,
        0 <= x < cells.len(),
        marks_down(cells, root, k1)[x],
    ensures
        marks_down(cells, root, k2)[x],
    decreases k2 - k1,
{
    if k2 > k1 {
        lemma_marks_monotone(cells, root, k1, (k2 - 1) as nat, x);
        let m = marks_down(cells, root, (k2 - 1) as nat);
        let i = root - k2 + 1;
        lemma_marks_down_len(cells, root, (k2 - 1) as nat);
        lemma_operands_bound(cells, i);
        if m[i] {
            lemma_set_marks_char(m, operands_of(cells[i]), operands_of(cells[i]).len() as int, x);
        }
    }
}

/// Once the scan has passed a cell, its mark never changes again: only steps
/// at strictly higher indices can set it.
proof fn lemma_marks_stable(cells: Seq<Cell>, root: int, j: int, k: nat)
    requires
        graph_wf(cells),
        0 <= root < cells.len(),
        0 <= j <= root,
        root - j + 1 <= k <= root + 1,
    ensures
        marks_down(cells, root, k)[j] == marks_down(cells, root, (root - j) as nat)[j],
    decreases k,
{
    let m = marks_down(cells, root, (k - 1) as nat);
    let i = root - k + 1;
    lemma_marks_down_len(cells, root, (k - 1) as nat);
    lemma_operands_bound(cells, i);
    if m[i] {
        lemma_set_marks_char(m, operands_of(cells[i]), operands_of(cells[i]).len() as int, j);
        assert(forall|t: int|
            0 <= t < operands_of(cells[i]).len() ==> (#[trigger] operands_of(cells[i])[t]).idx < i
                <= j);
    }
    assert(marks_down(cells, root, k)[j] == m[j]);
    if k > root - j + 1 {
        lemma_marks_stable(cells, root, j, (k - 1) as nat);
    }
}

/// Reachability is closed under producer operand edges.
proof fn lemma_reached_closed(cells: Seq<Cell>, root: int, j: int, t: int)
    requires
        graph_wf(cells),
        0 <= root < cells.len(),
        0 <= j <= root,
        reached(cells, root, j),
        0 <= t < operands_of(cells[j]).len(),
    ensures
        0 <= operands_of(cells[j])[t].idx < j,
        reached(cells, root, operands_of(cells[j])[t].idx as int),
{
    lemma_operands_bound(cells, j);
    let x = operands_of(cells[j])[t].idx as int;
    lemma_marks_down_len(cells, root, (root - j) as nat);
    lemma_marks_stable(cells, root, j, (root + 1) as nat);
    let m = marks_down(cells, root, (root - j) as nat);
    assert(m[j]);
    lemma_set_marks_char(m, operands_of(cells[j]), operands_of(cells[j]).len() as int, x);
    assert(marks_down(cells, root, (root - j + 1) as nat) == mark_step(cells, m, j));
    assert(marks_down(cells, root, (root - j + 1) as nat)[x]);
    lemma_marks_monotone(cells, root, (root - j + 1) as nat, (root + 1) as nat, x);
}

/// The root itself is reachable.
proof fn lemma_root_reached(cells: Seq<Cell>, root: int)
    requires
        graph_wf(cells),
        0 <= root < cells.len(),
    ensures
        reached(cells, root, root),
{
    assert(marks_down(cells, root, 0)[root]);
    lemma_marks_monotone(cells, root, 0, (root + 1) as nat, root);
}

/// Whether operand `t` of the cell listed at position `p` of `order` is
/// itself listed at some strictly later position.
pub open spec fn listed_after(cells: Seq<Cell>, order: Seq<int>, p: int, t: int) -> bool {
    exists|q: int|
        p < q < order.len() && #[trigger] order[q] == operands_of(cells[order[p]])[t].idx
}

/// Whether every operand of a cell listed in `order` stands strictly after
/// that cell in `order`.
pub open spec fn order_closed(cells: Seq<Cell>, order: Seq<int>) -> bool {
    forall|p: int, t: int|
        0 <= p < order.len() && 0 <= t < operands_of(cells[order[p]]).len()
            ==> #[trigger] listed_after(cells, order, p, t)
}

/// The backward order is topologically sound: it starts at the root, lists
/// exactly the cells reachable from the root, each exactly once (the indices
/// are strictly descending), and every operand of a listed cell stands
/// strictly after that cell, so a cell's own rule runs only after all of its
/// consumers in the subgraph have contributed to its gradient.
pub proof fn lemma_back_order_topological(cells: Seq<Cell>, root: int)
    requires
        graph_wf(cells),
        0 <= root < cells.len(),
    ensures
        back_order(cells, root).len() >= 1,
        back_order(cells, root)[0] == root,
        forall|p: int, q: int|
            0 <= p < q < back_order(cells, root).len() ==> back_order(cells, root)[p] > back_order(
                cells,
                root,
            )[q],
        forall|p: int|
            0 <= p < back_order(cells, root).len() ==> 0 <= #[trigger] back_order(cells, root)[p]
                <= root && reached(cells, root, back_order(cells, root)[p]),
        forall|j: int|
            0 <= j <= root && reached(cells, root, j) ==> back_order(cells, root).contains(j),
        order_closed(cells, back_order(cells, root)),
{
    let bo = back_order(cells, root);
    lemma_root_reached(cells, root);
    lemma_ord_upto_props(cells, root, (root + 1) as nat);
    assert(bo == seq![root] + ord_upto(cells, root, root as nat));
    assert(bo[0] == root);
    assert forall|p: int, t: int|
        0 <= p < bo.len() && 0 <= t < operands_of(cells[bo[p]]).len() implies listed_after(
        cells,
        bo,
        p,
        t,
    ) by {
        let j = bo[p];
        assert(0 <= j <= root && reached(cells, root, j));
        lemma_reached_closed(cells, root, j, t);
        let x = operands_of(cells[j])[t].idx as int;
        assert(bo.contains(x));
        let q = choose|q: int| 0 <= q < bo.len() && bo[q] == x;
        assert(q != p);
        if q < p {
            assert(bo[q] > bo[p]);
            assert(false);
        }
        assert(p < q < bo.len() && bo[q] == x);
        assert(listed_after(cells, bo, p, t));
    }
    assert(order_closed(cells, bo));
}

/// A rule application leaves every cell that is no operand of the applied
/// cell exactly as it was.
proof fn lemma_apply_node_untouched(cells: Seq<Cell>, i: int, j: int)
    requires
        graph_wf(cells),
        0 <= i < cells.len(),
        0 <= j < cells.len(),
        forall|t: int|
            0 <= t < operands_of(cells[i]).len() ==> (#[trigger] operands_of(cells[i])[t]).idx
                != j,
    ensures
        apply_node(cells, i)[j] == cells[j],
{
    lemma_operands_bound(cells, i);
    match cells[i].producer {
        Option::None => {},
        Option::Some(op) => {
            let ops = op_operands(op);
            assert(operands_of(cells[i]) == ops);
            assert(forall|t: int| 0 <= t < ops.len() ==> 0 <= (#[trigger] ops[t]).idx < cells.len());
            match op {
                Op::Softmax(xs, jac) => {
                    lemma_acc_softmax_untouched(cells, xs@, jac@, cells[i].grad, xs@.len() as int, j);
                },
                Op::Add(a, b) => {
                    assert(ops[0] == a && ops[1] == b);
                },
                Op::Sub(a, b) => {
                    assert(ops[0] == a && ops[1] == b);
                },
                Op::Mul(a, b) => {
                    assert(ops[0] == a && ops[1] == b);
                },
                Op::Div(a, b) => {
                    assert(ops[0] == a && ops[1] == b);
                },
                Op::Pow(a, _) => {
                    assert(ops[0] == a);
                },
                Op::PowV(a, e) => {
                    assert(ops[0] == a && ops[1] == e);
                },
                Op::ReLu(a) => {
                    assert(ops[0] == a);
                },
                Op::Tanh(a) => {
                    assert(ops[0] == a);
                },
            }
        },
    }
}

/// Softmax accumulation leaves every cell outside its input list as it was.
proof fn lemma_acc_softmax_untouched(
    cells: Seq<Cell>,
    xs: Seq<Value>,
    jac: Seq<u64>,
    g: u64,
    k: int,
    j: int,
)
    requires
        0 <= j < cells.len(),
        forall|t: int| 0 <= t < k ==> (#[trigger] xs[t]).idx != j,
        forall|t: int| 0 <= t < k ==> (#[trigger] xs[t]).idx < cells.len(),
    ensures
        acc_softmax(cells, xs, jac, g, k).len() == cells.len(),
        acc_softmax(cells, xs, jac, g, k)[j] == cells[j],
    decreases k,
{
    if k > 0 {
        lemma_acc_softmax_untouched(cells, xs, jac, g, k - 1, j);
    }
}

/// Misuse is silent: a backward pass writes only the root's seed and the
/// gradient accumulators of cells the root reaches, so every cell outside
/// that subgraph comes out exactly as it went in (in particular a still-zero
/// gradient stays zero).
pub proof fn lemma_unreached_cell_untouched(cells: Seq<Cell>, root: int, j: int)
    requires
        graph_wf(cells),
        0 <= root < cells.len(),
        0 <= j < cells.len(),
        !reached(cells, root, j),
    ensures
        run_backward(
            seeded(cells, root),
            back_order(cells, root),
            back_order(cells, root).len() as int,
        )[j] == cells[j],
{
    lemma_root_reached(cells, root);
    lemma_run_keeps_unreached(cells, root, back_order(cells, root).len() as int, j);
}

/// The inductive heart of the misuse law: after any prefix of the pass, an
/// unreached cell still holds its original state.
proof fn lemma_run_keeps_unreached(cells: Seq<Cell>, root: int, k: int, j: int)
    requires
        graph_wf(cells),
        0 <= root < cells.len(),
        0 <= j < cells.len(),
        !reached(cells, root, j),
        0 <= k <= back_order(cells, root).len(),
    ensures
        run_backward(seeded(cells, root), back_order(cells, root), k)[j] == cells[j],
    decreases k,
{
    lemma_root_reached(cells, root);
    let base = seeded(cells, root);
    let bo = back_order(cells, root);
    assert(graph_wf(base)) by {
        assert(forall|t: int|
            0 <= t < cells.len() ==> (#[trigger] base[t]).producer == cells[t].producer);
        assert(forall|t: int| 0 <= t < base.len() ==> cell_wf(#[trigger] base[t], t));
    }
    lemma_ord_upto_props(cells, root, (root + 1) as nat);
    if k > 0 {
        lemma_run_keeps_unreached(cells, root, k - 1, j);
        let prev = run_backward(base, bo, k - 1);
        let i = bo[k - 1];
        lemma_run_backward_structure(base, bo, k - 1);
        assert(prev[i].producer == cells[i].producer);
        assert(operands_of(prev[i]) == operands_of(cells[i]));
        assert(0 <= i <= root && reached(cells, root, i));
        assert(forall|t: int|
            0 <= t < operands_of(prev[i]).len() ==> (#[trigger] operands_of(prev[i])[t]).idx
                != j) by {
            assert forall|t: int|
                0 <= t < operands_of(prev[i]).len() implies (#[trigger] operands_of(
                prev[i],
            )[t]).idx != j by {
                lemma_reached_closed(cells, root, i, t);
            }
        }
        lemma_apply_node_untouched(prev, i, j);
    }
}

/// The root's own gradient stays at its seed: every rule application writes
/// only operands, and every operand of a processed cell lies strictly below
/// the root.
proof fn lemma_run_root_grad(cells: Seq<Cell>, root: int, k: int)
    requires
        graph_wf(cells),
        0 <= root < cells.len(),
        0 <= k <= back_order(cells, root).len(),
    ensures
        run_backward(seeded(cells, root), back_order(cells, root), k)[root].grad == ONE_BITS,
    decreases k,
{
    let base = seeded(cells, root);
    let bo = back_order(cells, root);
    assert(graph_wf(base)) by {
        assert(forall|t: int|
            0 <= t < cells.len() ==> (#[trigger] base[t]).producer == cells[t].producer);
        assert(forall|t: int| 0 <= t < base.len() ==> cell_wf(#[trigger] base[t], t));
    }
    lemma_ord_upto_props(cells, root, (root + 1) as nat);
    if k == 0 {
        assert(base[root].grad == ONE_BITS);
    } else {
        lemma_run_root_grad(cells, root, k - 1);
        let prev = run_backward(base, bo, k - 1);
        let i = bo[k - 1];
        lemma_run_backward_structure(base, bo, k - 1);
        lemma_operands_bound(prev, i);
        assert(forall|t: int|
            0 <= t < operands_of(prev[i]).len() ==> (#[trigger] operands_of(prev[i])[t]).idx
                != root);
        lemma_apply_node_untouched(prev, i, root);
    }
}

impl Graph {
    /// Adds `amt` into the gradient accumulator behind `v`, when that cell
    /// takes part in gradient computation.
    fn acc_into(&mut self, v: Value, amt: u64)
        requires
            old(self).wf(),
            v.idx < old(self)@.len(),
        ensures
            final(self).wf(),
            final(self).nodes@ == old(self).nodes@,
            final(self)@ =~= acc_grad(old(self)@, v, amt),
    {
        if self.nodes[v.idx].requires_grad {
            let ng = fadd(self.grads[v.idx], amt);
            let ghost pre = self@;
            self.grads.set(v.idx, ng);
            proof {
                assert(self@ =~= acc_grad(pre, v, amt));
                assert(forall|j: int|
                    0 <= j < self@.len() ==> (#[trigger] self@[j]).producer == pre[j].producer);
                assert(forall|j: int| 0 <= j < self@.len() ==> cell_wf(#[trigger] self@[j], j)) by {
                    assert(graph_wf(pre));
                }
            }
        }
    }

    /// Applies the local backward rule of the cell at `i` once, adding the
    /// scaled contributions into its operands' gradient accumulators.
    #[verifier::loop_isolation(false)]
    fn propagate_node(&mut self, i: usize)
        requires
            old(self).wf(),
            i < old(self)@.len(),
        ensures
            final(self).wf(),
            final(self)@ =~= apply_node(old(self)@, i as int),
    {
        let ghost cells0 = self@;
        proof {
            assert(cell_wf(cells0[i as int], i as int));
        }
        let g = self.grads[i];
        let d = self.nodes[i].data;
        let mut first: Option<(Value, u64)> = Option::None;
        let mut second: Option<(Value, u64)> = Option::None;
        let mut soft = false;
        match &self.nodes[i].producer {
            Option::None => {},
            Option::Some(Op::Add(a, b)) => {
                proof {
                    assert(op_operands(cells0[i as int].producer->Some_0)[0].idx < i);
                    assert(op_operands(cells0[i as int].producer->Some_0)[1].idx < i);
                }
                first = Option::Some((*a, g));
                second = Option::Some((*b, g));
            },
            Option::Some(Op::Sub(a, b)) => {
                proof {
                    assert(op_operands(cells0[i as int].producer->Some_0)[0].idx < i);
                    assert(op_operands(cells0[i as int].producer->Some_0)[1].idx < i);
                }
                first = Option::Some((*a, g));
                second = Option::Some((*b, fneg(g)));
            },
            Option::Some(Op::Mul(a, b)) => {
                proof {
                    assert(op_operands(cells0[i as int].producer->Some_0)[0].idx < i);
                    assert(op_operands(cells0[i as int].producer->Some_0)[1].idx < i);
                }
                let da = self.nodes[a.idx].data;
                let db = self.nodes[b.idx].data;
                first = Option::Some((*a, fmul(g, db)));
                second = Option::Some((*b, fmul(g, da)));
            },
            Option::Some(Op::Div(a, b)) => {
                proof {
                    assert(op_operands(cells0[i as int].producer->Some_0)[0].idx < i);
                    assert(op_operands(cells0[i as int].producer->Some_0)[1].idx < i);
                }
                let da = self.nodes[a.idx].data;
                let db = self.nodes[b.idx].data;
                first = Option::Some((*a, fdiv(g, db)));
                second = Option::Some((*b, fmul(g, fdiv(fneg(da), fmul(db, db)))));
            },
            Option::Some(Op::Pow(a, e)) => {
                proof {
                    assert(op_operands(cells0[i as int].producer->Some_0)[0].idx < i);
                }
                let da = self.nodes[a.idx].data;
                first = Option::Some((*a, fmul(fmul(g, *e), fpowf(da, fsub(*e, ONE_BITS)))));
            },
            Option::Some(Op::PowV(a, e)) => {
                proof {
                    assert(op_operands(cells0[i as int].producer->Some_0)[0].idx < i);
                    assert(op_operands(cells0[i as int].producer->Some_0)[1].idx < i);
                }
                let da = self.nodes[a.idx].data;
                let de = self.nodes[e.idx].data;
                first = Option::Some((*a, fmul(fmul(g, de), fpowf(da, fsub(de, ONE_BITS)))));
                second = Option::Some((*e, fmul(fmul(g, fln(da)), fpowf(da, de))));
            },
            Option::Some(Op::ReLu(a)) => {
                proof {
                    assert(op_operands(cells0[i as int].producer->Some_0)[0].idx < i);
                }
                let ind = if is_pos(d) {
                    ONE_BITS
                } else {
                    ZERO_BITS
                };
                first = Option::Some((*a, fmul(g, ind)));
            },
            Option::Some(Op::Tanh(a)) => {
                proof {
                    assert(op_operands(cells0[i as int].producer->Some_0)[0].idx < i);
                }
                first = Option::Some((*a, fmul(g, fsub(ONE_BITS, fmul(d, d)))));
            },
            Option::Some(Op::Softmax(_, _)) => {
                soft = true;
            },
        }
        if soft {
            let ghost xs_g = softmax_inputs(cells0[i as int]);
            let ghost jac_g = softmax_jac(cells0[i as int]);
            proof {
                assert(forall|t: int|
                    0 <= t < xs_g.len() ==> (#[trigger] xs_g[t]).idx < i) by {
                    assert(op_operands(cells0[i as int].producer->Some_0) == xs_g);
                }
                assert(jac_g.len() == xs_g.len());
            }
            let n = match &self.nodes[i].producer {
                Option::Some(Op::Softmax(xs, _)) => xs.len(),
                _ => 0,
            };
            let mut k: usize = 0;
            while k < n
                invariant
                    k <= n,
                    i < cells0.len(),
                    n == xs_g.len(),
                    jac_g.len() == n,
                    forall|t: int| 0 <= t < n ==> (#[trigger] xs_g[t]).idx < i,
                    self.wf(),
                    self@.len() == cells0.len(),
                    self.nodes@ == old(self).nodes@,
                    g == cells0[i as int].grad,
                    xs_g == softmax_inputs(cells0[i as int]),
                    jac_g == softmax_jac(cells0[i as int]),
                    self@ =~= acc_softmax(cells0, xs_g, jac_g, g, k as int),
                decreases n - k,
            {
                let (v, jk) = match &self.nodes[i].producer {
                    Option::Some(Op::Softmax(xs, jac)) => {
                        proof {
                            assert(cells0[i as int].producer == old(self).nodes@[i as int].producer);
                            assert(xs@ == softmax_inputs(cells0[i as int]));
                            assert(jac@ == softmax_jac(cells0[i as int]));
                        }
                        (xs[k], jac[k])
                    },
                    _ => (Value { idx: 0 }, 0u64),
                };
                proof {
                    assert(v == xs_g[k as int] && jk == jac_g[k as int]);
                    assert(v.idx < self@.len());
                }
                let ghost pre = self@;
                self.acc_into(v, fmul(g, jk));
                proof {
                    assert(self@ =~= acc_softmax(cells0, xs_g, jac_g, g, k as int + 1));
                    assert(self.nodes@ == old(self).nodes@);
                }
                k = k + 1;
            }
            proof {
                assert(self@ =~= apply_node(cells0, i as int));
            }
        } else {
            match first {
                Option::None => {},
                Option::Some((v, amt)) => {
                    proof {
                        assert(v.idx < self@.len());
                    }
                    self.acc_into(v, amt);
                },
            }
            match second {
                Option::None => {},
                Option::Some((v, amt)) => {
                    proof {
                        lemma_apply_node_structure(cells0, i as int);
                        assert(v.idx < self@.len());
                    }
                    self.acc_into(v, amt);
                },
            }
            proof {
                assert(self@ =~= apply_node(cells0, i as int));
            }
        }
    }

    /// The reverse topological order of the cells reachable backward from
    /// `root`: each exactly once, the root first, indices strictly
    /// descending, so every cell stands after all of its consumers.
    #[verifier::loop_isolation(false)]
    pub fn topo_order(&self, root: Value) -> (order: Vec<usize>)
        requires
            self.wf(),
            root.idx < self@.len(),
        ensures
            order@.map_values(|u: usize| u as int) == back_order(self@, root.idx as int),
            order@.len() >= 1,
            order@[0] == root.idx,
            forall|p: int, q: int| 0 <= p < q < order@.len() ==> order@[p] > order@[q],
            forall|p: int|
                0 <= p < order@.len() ==> (#[trigger] order@[p]) <= root.idx && reached(
                    self@,
                    root.idx as int,
                    order@[p] as int,
                ),
            forall|j: int|
                0 <= j <= root.idx && reached(self@, root.idx as int, j) ==> back_order(
                    self@,
                    root.idx as int,
                ).contains(j),
            order_closed(self@, order@.map_values(|u: usize| u as int)),
    {
        let n = self.nodes.len();
        let mut marked: Vec<bool> = Vec::new();
        let mut t: usize = 0;
        while t < n
            invariant
                t <= n,
                marked@.len() == t,
                forall|j: int| 0 <= j < t ==> !(#[trigger] marked@[j]),
            decreases n - t,
        {
            marked.push(false);
            t = t + 1;
        }
        marked.set(root.idx, true);
        proof {
            assert(marked@ =~= marks_down(self@, root.idx as int, 0));
        }
        let mut k: usize = 0;
        let root_i = root.idx;
        while k <= root_i
            invariant
                self.wf(),
                k <= root_i + 1,
                root_i == root.idx < self@.len(),
                n == self@.len(),
                marked@.len() == n,
                marked@ == marks_down(self@, root_i as int, k as nat),
            decreases root_i + 1 - k,
        {
            let i = root_i - k;
            let ghost pre = marked@;
            if marked[i] {
                let ops_v: Vec<Value> = match &self.nodes[i].producer {
                    Option::None => Vec::new(),
                    Option::Some(op) => op.equation(),
                };
                proof {
                    assert(ops_v@ == operands_of(self@[i as int]));
                    assert(cell_wf(self@[i as int], i as int));
                }
                let m = ops_v.len();
                let mut t2: usize = 0;
                while t2 < m
                    invariant
                        t2 <= m,
                        i < n,
                        marked@.len() == n,
                        m == ops_v@.len(),
                        forall|q: int| 0 <= q < m ==> (#[trigger] ops_v@[q]).idx < i,
                        marked@ == set_marks(pre, ops_v@, t2 as int),
                    decreases m - t2,
                {
                    marked.set(ops_v[t2].idx, true);
                    t2 = t2 + 1;
                }
                proof {
                    assert(marked@ == mark_step(self@, pre, i as int));
                }
            } else {
                proof {
                    assert(marked@ == mark_step(self@, pre, i as int));
                }
            }
            k = k + 1;
        }
        let ghost reach_marks = marks_down(self@, root_i as int, (root_i + 1) as nat);
        let mut order: Vec<usize> = Vec::new();
        let mut i: usize = root_i + 1;
        while i > 0
            invariant
                i <= root_i + 1,
                n == self@.len(),
                root_i < n,
                marked@.len() == n,
                marked@ == reach_marks,
                reach_marks == marks_down(self@, root_i as int, (root_i + 1) as nat),
                back_order(self@, root_i as int) == order@.map_values(|u: usize| u as int)
                    + ord_upto(self@, root_i as int, i as nat),
            decreases i,
        {
            i = i - 1;
            let ghost pre_order = order@;
            if marked[i] {
                order.push(i);
                proof {
                    assert(reached(self@, root_i as int, i as int));
                    assert(ord_upto(self@, root_i as int, (i + 1) as nat) == seq![i as int]
                        + ord_upto(self@, root_i as int, i as nat));
                    assert(order@.map_values(|u: usize| u as int) =~= pre_order.map_values(
                        |u: usize| u as int,
                    ) + seq![i as int]);
                    assert(pre_order.map_values(|u: usize| u as int) + (seq![i as int] + ord_upto(
                        self@,
                        root_i as int,
                        i as nat,
                    )) =~= (pre_order.map_values(|u: usize| u as int) + seq![i as int]) + ord_upto(
                        self@,
                        root_i as int,
                        i as nat,
                    ));
                }
            } else {
                proof {
                    assert(!reached(self@, root_i as int, i as int));
                    assert(ord_upto(self@, root_i as int, (i + 1) as nat) == ord_upto(
                        self@,
                        root_i as int,
                        i as nat,
                    ));
                }
            }
        }
        proof {
            assert(ord_upto(self@, root_i as int, 0) =~= Seq::<int>::empty());
            assert(order@.map_values(|u: usize| u as int) =~= order@.map_values(|u: usize| u as int)
                + Seq::<int>::empty());
            lemma_back_order_topological(self@, root_i as int);
            let mapped = order@.map_values(|u: usize| u as int);
            assert(forall|p: int| 0 <= p < order@.len() ==> mapped[p] == order@[p] as int);
            assert(order@[0] as int == mapped[0]);
            assert forall|p: int, q: int| 0 <= p < q < order@.len() implies order@[p]
                > order@[q] by {
                assert(mapped[p] == order@[p] as int);
                assert(mapped[q] == order@[q] as int);
                assert(mapped[p] > mapped[q]);
            }
            assert forall|p: int|
                0 <= p < order@.len() implies (#[trigger] order@[p]) <= root.idx && reached(
                self@,
                root_i as int,
                order@[p] as int,
            ) by {
                assert(mapped[p] == order@[p] as int);
                assert(0 <= mapped[p] <= root_i && reached(self@, root_i as int, mapped[p]));
            }
        }
        order
    }

    /// One complete backward pass from `root`: seeds the root's gradient
    /// with 1.0, then applies each reachable cell's local backward rule
    /// exactly once, in reverse topological order, so that every cell's
    /// gradient is fully accumulated before its own rule runs. Cells the
    /// root does not reach keep their gradients untouched, and nothing but
    /// gradient accumulators changes.
    #[verifier::loop_isolation(false)]
    pub fn backward(&mut self, root: Value)
        requires
            old(self).wf(),
            root.idx < old(self)@.len(),
        ensures
            final(self).wf(),
            final(self)@.len() == old(self)@.len(),
            final(self)@ =~= run_backward(
                seeded(old(self)@, root.idx as int),
                back_order(old(self)@, root.idx as int),
                back_order(old(self)@, root.idx as int).len() as int,
            ),
            final(self)@[root.idx as int].grad == ONE_BITS,
            forall|j: int|
                0 <= j < old(self)@.len() ==> {
                    let c = #[trigger] final(self)@[j];
                    &&& c.data == old(self)@[j].data
                    &&& c.requires_grad == old(self)@[j].requires_grad
                    &&& c.producer == old(self)@[j].producer
                },
    {
        let ghost cells0 = self@;
        let ghost bo = back_order(cells0, root.idx as int);
        let order = self.topo_order(root);
        self.set_grad(root, ONE_BITS);
        let ghost base = self@;
        proof {
            assert(base =~= seeded(cells0, root.idx as int));
            lemma_ord_upto_props(cells0, root.idx as int, (root.idx + 1) as nat);
            assert(forall|p: int| 0 <= p < bo.len() ==> 0 <= #[trigger] bo[p] < base.len());
            assert(graph_wf(base)) by {
                assert(forall|j: int|
                    0 <= j < base.len() ==> (#[trigger] base[j]).producer == cells0[j].producer);
            }
        }
        let mut p: usize = 0;
        let plen = order.len();
        proof {
            assert(order@.map_values(|u: usize| u as int) == bo);
            assert(bo.len() == plen);
        }
        while p < plen
            invariant
                p <= plen,
                plen == order@.len(),
                bo == order@.map_values(|u: usize| u as int),
                bo == back_order(cells0, root.idx as int),
                base == seeded(cells0, root.idx as int),
                base.len() == cells0.len(),
                graph_wf(base),
                forall|q: int| 0 <= q < bo.len() ==> 0 <= #[trigger] bo[q] < base.len(),
                self.wf(),
                self@ =~= run_backward(base, bo, p as int),
            decreases plen - p,
        {
            let i = order[p];
            proof {
                assert(bo[p as int] == i as int);
                lemma_run_backward_structure(base, bo, p as int);
                assert(i < self@.len());
            }
            self.propagate_node(i);
            proof {
                assert(self@ =~= run_backward(base, bo, p as int + 1));
            }
            p = p + 1;
        }
        proof {
            lemma_run_backward_structure(base, bo, bo.len() as int);
            assert(forall|j: int|
                0 <= j < cells0.len() ==> (#[trigger] base[j]).data == cells0[j].data
                    && base[j].requires_grad == cells0[j].requires_grad && base[j].producer
                    == cells0[j].producer);
            lemma_run_root_grad(cells0, root.idx as int, bo.len() as int);
        }
    }
}

} // verus!
