//! Scalar cells, value handles, and the graph arena they live in.
//!
//! A `Graph` owns every scalar cell in an append-only arena; a `Value` is a
//! cheap copyable handle (an index) to exactly one cell, and two handles with
//! the same index observe and mutate the same cell state. Every arithmetic
//! constructor computes its forward result, appends a fresh cell whose
//! producer records the operation and its operand handles, and never mutates
//! an existing cell, so the producer edges always point strictly backwards:
//! the graph is acyclic by construction.

use vstd::prelude::*;
use crate::fp;
use crate::fp::{
    fadd, fsub, fmul, fdiv, fpowf, frelu, ftanh, fexp, fneg, add_bits, sub_bits, mul_bits,
    div_bits, powf_bits, relu_fwd_bits, tanh_bits, exp_bits, neg_bits, ZERO_BITS, ONE_BITS,
};

verus! {

/// A shareable handle to one scalar cell: the cell's index in its graph.
#[derive(Clone, Copy, PartialEq, Eq, Structural, Debug)]
pub struct Value {
    pub idx: usize,
}

/// The recorded operation that produced a derived cell, carrying the operand
/// handles (and, for a power with constant exponent, the exponent's bit
/// pattern; for a softmax output, the whole input vector and that output's
/// Jacobian row).
pub enum Op {
    Add(Value, Value),
    Sub(Value, Value),
    Mul(Value, Value),
    Div(Value, Value),
    Pow(Value, u64),
    PowV(Value, Value),
    ReLu(Value),
    Tanh(Value),
    Softmax(Vec<Value>, Vec<u64>),
}

/// The mathematical model of one scalar cell: its forward value and
/// accumulated gradient (both binary64 bit patterns), whether it takes part
/// in gradient computation, and the operation that produced it (absent for
/// leaves).
pub struct Cell {
    pub data: u64,
    pub grad: u64,
    pub requires_grad: bool,
    pub producer: Option<Op>,
}

/// The operand handles of an operation, in rule order.
pub open spec fn op_operands(op: Op) -> Seq<Value> {
    match op {
        Op::Add(a, b) => seq![a, b],
        Op::Sub(a, b) => seq![a, b],
        Op::Mul(a, b) => seq![a, b],
        Op::Div(a, b) => seq![a, b],
        Op::Pow(a, _) => seq![a],
        Op::PowV(a, e) => seq![a, e],
        Op::ReLu(a) => seq![a],
        Op::Tanh(a) => seq![a],
        Op::Softmax(xs, _) => xs@,
    }
}

/// Well-formedness of the cell at position `i`: its producer (if any) only
/// references earlier cells, and a softmax producer carries one Jacobian
/// entry per input.
pub open spec fn cell_wf(c: Cell, i: int) -> bool {
    match c.producer {
        Option::None => true,
        Option::Some(op) => {
            &&& forall|k: int|
                0 <= k < op_operands(op).len() ==> (#[trigger] op_operands(op)[k]).idx < i
            &&& (op matches Op::Softmax(xs, jac) ==> jac@.len() == xs@.len())
        },
    }
}

/// Well-formedness of a whole arena: every cell's producer points strictly
/// backwards, so producer edges can form no cycle.
pub open spec fn graph_wf(cells: Seq<Cell>) -> bool {
    forall|i: int| 0 <= i < cells.len() ==> cell_wf(#[trigger] cells[i], i)
}

/// The exec storage of one cell, less its gradient: immutable once pushed.
pub struct Node {
    pub data: u64,
    pub requires_grad: bool,
    pub producer: Option<Op>,
}

/// The arena that owns every scalar cell of one computation graph.
pub struct Graph {
    pub nodes: Vec<Node>,
    pub grads: Vec<u64>,
}

impl View for Graph {
    type V = Seq<Cell>;

    open spec fn view(&self) -> Seq<Cell> {
        Seq::new(
            self.nodes@.len() as nat,
            |i: int|
                Cell {
                    data: self.nodes@[i].data,
                    grad: self.grads@[i],
                    requires_grad: self.nodes@[i].requires_grad,
                    producer: self.nodes@[i].producer,
                },
        )
    }
}

/// Whether any of the handles in `xs` points to a cell that takes part in
/// gradient computation, over the first `k` handles.
pub open spec fn any_requires_grad(cells: Seq<Cell>, xs: Seq<Value>, k: int) -> bool
    decreases k,
{
    if k <= 0 {
        false
    } else {
        any_requires_grad(cells, xs, k - 1) || cells[xs[k - 1].idx as int].requires_grad
    }
}

/// The forward data of the cells the handles point to.
pub open spec fn datas_of(cells: Seq<Cell>, xs: Seq<Value>) -> Seq<u64> {
    Seq::new(xs.len(), |j: int| cells[xs[j].idx as int].data)
}

/// The rounded left-to-right sum of the exponentials of the first `n`
/// entries, starting from +0.0.
pub open spec fn sum_exp(ds: Seq<u64>, n: int) -> u64
    decreases n,
{
    if n <= 0 {
        ZERO_BITS
    } else {
        add_bits(sum_exp(ds, n - 1), exp_bits(ds[n - 1]))
    }
}

/// The i-th component of the normalized exponential of `ds`.
pub open spec fn softmax_val(ds: Seq<u64>, i: int) -> u64 {
    div_bits(exp_bits(ds[i]), sum_exp(ds, ds.len() as int))
}

/// One entry of the softmax Jacobian: s_i * (delta_ij - s_j).
pub open spec fn jac_entry(ds: Seq<u64>, i: int, j: int) -> u64 {
    mul_bits(
        softmax_val(ds, i),
        if i == j {
            sub_bits(ONE_BITS, softmax_val(ds, j))
        } else {
            neg_bits(softmax_val(ds, j))
        },
    )
}

impl Graph {
    pub open spec fn wf(&self) -> bool {
        &&& self.nodes@.len() == self.grads@.len()
        &&& graph_wf(self@)
    }

    /// An empty arena.
    pub fn new() -> (g: Graph)
        ensures
            g.wf(),
            g@ =~= Seq::<Cell>::empty(),
    {
        Graph { nodes: Vec::new(), grads: Vec::new() }
    }

    pub fn len(&self) -> (n: usize)
        requires
            self.wf(),
        ensures
            n == self@.len(),
    {
        self.nodes.len()
    }

    /// Appends one fresh cell with zero gradient; the producer may only
    /// reference existing cells.
    fn push_node(&mut self, data: u64, requires_grad: bool, producer: Option<Op>) -> (v: Value)
        requires
            old(self).wf(),
            match producer {
                Option::None => true,
                Option::Some(op) => {
                    &&& forall|k: int|
                        0 <= k < op_operands(op).len() ==> (#[trigger] op_operands(
                            op,
                        )[k]).idx < old(self)@.len()
                    &&& (op matches Op::Softmax(xs, jac) ==> jac@.len() == xs@.len())
                },
            },
        ensures
            final(self).wf(),
            v.idx == old(self)@.len(),
            final(self)@ =~= old(self)@.push(
                (Cell { data, grad: ZERO_BITS, requires_grad, producer }),
            ),
    {
        let v = Value { idx: self.nodes.len() };
        self.nodes.push(Node { data, requires_grad, producer });
        self.grads.push(ZERO_BITS);
        proof {
            assert(self@ =~= old(self)@.push(
                Cell { data, grad: ZERO_BITS, requires_grad, producer },
            ));
        }
        v
    }

    /// A leaf cell holding a raw value, with no producer; `requires_grad`
    /// marks parameters as opposed to plain constants.
    pub fn leaf(&mut self, data: u64, requires_grad: bool) -> (v: Value)
        requires
            old(self).wf(),
        ensures
            final(self).wf(),
            v.idx == old(self)@.len(),
            final(self)@ =~= old(self)@.push(
                (Cell { data, grad: ZERO_BITS, requires_grad, producer: Option::None }),
            ),
    {
        self.push_node(data, requires_grad, Option::None)
    }

    /// The current forward value of the cell behind a handle.
    pub fn data(&self, v: Value) -> (d: u64)
        requires
            self.wf(),
            v.idx < self@.len(),
        ensures
            d == self@[v.idx as int].data,
    {
        self.nodes[v.idx].data
    }

    /// The currently accumulated gradient of the cell behind a handle; 0.0
    /// before any backward pass has reached it.
    pub fn grad(&self, v: Value) -> (g: u64)
        requires
            self.wf(),
            v.idx < self@.len(),
        ensures
            g == self@[v.idx as int].grad,
    {
        self.grads[v.idx]
    }

    /// Whether the cell behind a handle takes part in gradient computation.
    pub fn should_compute_grad(&self, v: Value) -> (b: bool)
        requires
            self.wf(),
            v.idx < self@.len(),
        ensures
            b == self@[v.idx as int].requires_grad,
    {
        self.nodes[v.idx].requires_grad
    }

    /// Overwrites the accumulated gradient of one cell: the mutable gradient
    /// accessor, used by callers to reset gradients between passes.
    pub fn set_grad(&mut self, v: Value, g: u64)
        requires
            old(self).wf(),
            v.idx < old(self)@.len(),
        ensures
            final(self).wf(),
            final(self)@ =~= old(self)@.update(
                v.idx as int,
                (Cell { grad: g, ..old(self)@[v.idx as int] }),
            ),
    {
        let ghost pre = self@;
        self.grads.set(v.idx, g);
        proof {
            assert(self@ =~= pre.update(v.idx as int, Cell { grad: g, ..pre[v.idx as int] }));
        }
    }

    /// Addition: a fresh cell holding the rounded sum, produced by `Add`.
    pub fn add(&mut self, a: Value, b: Value) -> (v: Value)
        requires
            old(self).wf(),
            a.idx < old(self)@.len(),
            b.idx < old(self)@.len(),
        ensures
            final(self).wf(),
            v.idx == old(self)@.len(),
            final(self)@ =~= old(self)@.push(
                (Cell {
                    data: add_bits(old(self)@[a.idx as int].data, old(self)@[b.idx as int].data),
                    grad: ZERO_BITS,
                    requires_grad: old(self)@[a.idx as int].requires_grad || old(
                        self,
                    )@[b.idx as int].requires_grad,
                    producer: Option::Some(Op::Add(a, b)),
                }),
            ),
    {
        let data = fadd(self.nodes[a.idx].data, self.nodes[b.idx].data);
        let rg = self.nodes[a.idx].requires_grad || self.nodes[b.idx].requires_grad;
        self.push_node(data, rg, Option::Some(Op::Add(a, b)))
    }

    /// Subtraction: a fresh cell holding the rounded difference, produced by
    /// `Sub`.
    pub fn sub(&mut self, a: Value, b: Value) -> (v: Value)
        requires
            old(self).wf(),
            a.idx < old(self)@.len(),
            b.idx < old(self)@.len(),
        ensures
            final(self).wf(),
            v.idx == old(self)@.len(),
            final(self)@ =~= old(self)@.push(
                (Cell {
                    data: sub_bits(old(self)@[a.idx as int].data, old(self)@[b.idx as int].data),
                    grad: ZERO_BITS,
                    requires_grad: old(self)@[a.idx as int].requires_grad || old(
                        self,
                    )@[b.idx as int].requires_grad,
                    producer: Option::Some(Op::Sub(a, b)),
                }),
            ),
    {
        let data = fsub(self.nodes[a.idx].data, self.nodes[b.idx].data);
        let rg = self.nodes[a.idx].requires_grad || self.nodes[b.idx].requires_grad;
        self.push_node(data, rg, Option::Some(Op::Sub(a, b)))
    }

    /// Multiplication: a fresh cell holding the rounded product, produced by
    /// `Mul`.
    pub fn mul(&mut self, a: Value, b: Value) -> (v: Value)
        requires
            old(self).wf(),
            a.idx < old(self)@.len(),
            b.idx < old(self)@.len(),
        ensures
            final(self).wf(),
            v.idx == old(self)@.len(),
            final(self)@ =~= old(self)@.push(
                (Cell {
                    data: mul_bits(old(self)@[a.idx as int].data, old(self)@[b.idx as int].data),
                    grad: ZERO_BITS,
                    requires_grad: old(self)@[a.idx as int].requires_grad || old(
                        self,
                    )@[b.idx as int].requires_grad,
                    producer: Option::Some(Op::Mul(a, b)),
                }),
            ),
    {
        let data = fmul(self.nodes[a.idx].data, self.nodes[b.idx].data);
        let rg = self.nodes[a.idx].requires_grad || self.nodes[b.idx].requires_grad;
        self.push_node(data, rg, Option::Some(Op::Mul(a, b)))
    }

    /// Division: a fresh cell holding the rounded quotient, produced by
    /// `Div`. Division by a zero denominator yields an IEEE-754 infinity or
    /// NaN forward value, never a fault.
    pub fn div(&mut self, a: Value, b: Value) -> (v: Value)
        requires
            old(self).wf(),
            a.idx < old(self)@.len(),
            b.idx < old(self)@.len(),
        ensures
            final(self).wf(),
            v.idx == old(self)@.len(),
            final(self)@ =~= old(self)@.push(
                (Cell {
                    data: div_bits(old(self)@[a.idx as int].data, old(self)@[b.idx as int].data),
                    grad: ZERO_BITS,
                    requires_grad: old(self)@[a.idx as int].requires_grad || old(
                        self,
                    )@[b.idx as int].requires_grad,
                    producer: Option::Some(Op::Div(a, b)),
                }),
            ),
    {
        let data = fdiv(self.nodes[a.idx].data, self.nodes[b.idx].data);
        let rg = self.nodes[a.idx].requires_grad || self.nodes[b.idx].requires_grad;
        self.push_node(data, rg, Option::Some(Op::Div(a, b)))
    }

    /// Power with a constant exponent (given as a binary64 bit pattern):
    /// produced by `Pow`, whose backward rule differs from the node-exponent
    /// form.
    pub fn powf(&mut self, a: Value, exponent: u64) -> (v: Value)
        requires
            old(self).wf(),
            a.idx < old(self)@.len(),
        ensures
            final(self).wf(),
            v.idx == old(self)@.len(),
            final(self)@ =~= old(self)@.push(
                (Cell {
                    data: powf_bits(old(self)@[a.idx as int].data, exponent),
                    grad: ZERO_BITS,
                    requires_grad: old(self)@[a.idx as int].requires_grad,
                    producer: Option::Some(Op::Pow(a, exponent)),
                }),
            ),
    {
        let data = fpowf(self.nodes[a.idx].data, exponent);
        let rg = self.nodes[a.idx].requires_grad;
        self.push_node(data, rg, Option::Some(Op::Pow(a, exponent)))
    }

    /// Power with another cell as exponent: produced by `PowV`, which also
    /// propagates gradient into the exponent.
    pub fn pow(&mut self, a: Value, exponent: Value) -> (v: Value)
        requires
            old(self).wf(),
            a.idx < old(self)@.len(),
            exponent.idx < old(self)@.len(),
        ensures
            final(self).wf(),
            v.idx == old(self)@.len(),
            final(self)@ =~= old(self)@.push(
                (Cell {
                    data: powf_bits(
                        old(self)@[a.idx as int].data,
                        old(self)@[exponent.idx as int].data,
                    ),
                    grad: ZERO_BITS,
                    requires_grad: old(self)@[a.idx as int].requires_grad || old(
                        self,
                    )@[exponent.idx as int].requires_grad,
                    producer: Option::Some(Op::PowV(a, exponent)),
                }),
            ),
    {
        let data = fpowf(self.nodes[a.idx].data, self.nodes[exponent.idx].data);
        let rg = self.nodes[a.idx].requires_grad || self.nodes[exponent.idx].requires_grad;
        self.push_node(data, rg, Option::Some(Op::PowV(a, exponent)))
    }

    /// The rectifier max(0, x): the input when strictly positive, +0.0
    /// otherwise; produced by `ReLu`.
    pub fn relu(&mut self, a: Value) -> (v: Value)
        requires
            old(self).wf(),
            a.idx < old(self)@.len(),
        ensures
            final(self).wf(),
            v.idx == old(self)@.len(),
            final(self)@ =~= old(self)@.push(
                (Cell {
                    data: relu_fwd_bits(old(self)@[a.idx as int].data),
                    grad: ZERO_BITS,
                    requires_grad: old(self)@[a.idx as int].requires_grad,
                    producer: Option::Some(Op::ReLu(a)),
                }),
            ),
    {
        let data = frelu(self.nodes[a.idx].data);
        let rg = self.nodes[a.idx].requires_grad;
        self.push_node(data, rg, Option::Some(Op::ReLu(a)))
    }

    /// The hyperbolic tangent; produced by `Tanh`.
    pub fn tanh(&mut self, a: Value) -> (v: Value)
        requires
            old(self).wf(),
            a.idx < old(self)@.len(),
        ensures
            final(self).wf(),
            v.idx == old(self)@.len(),
            final(self)@ =~= old(self)@.push(
                (Cell {
                    data: tanh_bits(old(self)@[a.idx as int].data),
                    grad: ZERO_BITS,
                    requires_grad: old(self)@[a.idx as int].requires_grad,
                    producer: Option::Some(Op::Tanh(a)),
                }),
            ),
    {
        let data = ftanh(self.nodes[a.idx].data);
        let rg = self.nodes[a.idx].requires_grad;
        self.push_node(data, rg, Option::Some(Op::Tanh(a)))
    }

    /// The softmax over a set of inputs: computes the normalized exponential
    /// vector once and appends one output cell per input position. Each
    /// output cell's producer stores the entire input vector together with
    /// that output's full Jacobian row, because every output depends on every
    /// input.
    pub fn softmax(&mut self, xs: &Vec<Value>) -> (outs: Vec<Value>)
        requires
            old(self).wf(),
            forall|k: int| 0 <= k < xs@.len() ==> (#[trigger] xs@[k]).idx < old(self)@.len(),
        ensures
            final(self).wf(),
            final(self)@.len() == old(self)@.len() + xs@.len(),
            forall|i: int| 0 <= i < old(self)@.len() ==> final(self)@[i] == old(self)@[i],
            outs@.len() == xs@.len(),
            forall|i: int|
                0 <= i < xs@.len() ==> (#[trigger] outs@[i]).idx == old(self)@.len() + i,
            forall|i: int|
                0 <= i < xs@.len() ==> {
                    let c = #[trigger] final(self)@[old(self)@.len() + i];
                    &&& c.data == softmax_val(datas_of(old(self)@, xs@), i)
                    &&& c.grad == ZERO_BITS
                    &&& c.requires_grad == any_requires_grad(old(self)@, xs@, xs@.len() as int)
                    &&& c.producer matches Option::Some(op)
                    &&& (c.producer matches Option::Some(Op::Softmax(inp, jac)) && inp@ == xs@
                        && jac@ =~= Seq::new(
                        xs@.len(),
                        |j: int| jac_entry(datas_of(old(self)@, xs@), i, j),
                    ))
                },
    {
        let ghost orig = self@;
        let ghost ds = datas_of(orig, xs@);
        let n = xs.len();
        let mut exps: Vec<u64> = Vec::new();
        let mut k: usize = 0;
        while k < n
            invariant
                self == old(self),
                self.wf(),
                k <= n,
                n == xs@.len(),
                forall|j: int| 0 <= j < n ==> (#[trigger] xs@[j]).idx < self@.len(),
                orig == self@,
                ds == datas_of(orig, xs@),
                exps@.len() == k,
                forall|j: int| 0 <= j < k ==> exps@[j] == fp::exp_bits(#[trigger] ds[j]),
            decreases n - k,
        {
            let e = fexp(self.nodes[xs[k].idx].data);
            exps.push(e);
            k = k + 1;
        }
        let mut sum: u64 = ZERO_BITS;
        k = 0;
        while k < n
            invariant
                k <= n,
                n == xs@.len(),
                exps@.len() == n,
                forall|j: int| 0 <= j < n ==> exps@[j] == fp::exp_bits(#[trigger] ds[j]),
                sum == sum_exp(ds, k as int),
            decreases n - k,
        {
            sum = fadd(sum, exps[k]);
            k = k + 1;
        }
        let mut rg = false;
        k = 0;
        while k < n
            invariant
                self == old(self),
                self.wf(),
                k <= n,
                n == xs@.len(),
                forall|j: int| 0 <= j < n ==> (#[trigger] xs@[j]).idx < self@.len(),
                orig == self@,
                rg == any_requires_grad(orig, xs@, k as int),
            decreases n - k,
        {
            rg = rg || self.nodes[xs[k].idx].requires_grad;
            k = k + 1;
        }
        let mut outs: Vec<Value> = Vec::new();
        let mut i: usize = 0;
        proof {
            assert(ds.len() == n);
        }
        while i < n
            invariant
                i <= n,
                n == xs@.len(),
                self.wf(),
                exps@.len() == n,
                forall|j: int| 0 <= j < n ==> exps@[j] == fp::exp_bits(#[trigger] ds[j]),
                sum == sum_exp(ds, n as int),
                ds == datas_of(orig, xs@),
                ds.len() == n,
                rg == any_requires_grad(orig, xs@, n as int),
                forall|j: int| 0 <= j < n ==> (#[trigger] xs@[j]).idx < orig.len(),
                self@.len() == orig.len() + i,
                forall|j: int| 0 <= j < orig.len() ==> self@[j] == orig[j],
                outs@.len() == i,
                forall|j: int| 0 <= j < i ==> (#[trigger] outs@[j]).idx == orig.len() + j,
                forall|j: int|
                    0 <= j < i ==> {
                        let c = #[trigger] self@[orig.len() + j];
                        &&& c.data == softmax_val(ds, j)
                        &&& c.grad == ZERO_BITS
                        &&& c.requires_grad == any_requires_grad(orig, xs@, n as int)
                        &&& (c.producer matches Option::Some(Op::Softmax(inp, jac)) && inp@ == xs@
                            && jac@ =~= Seq::new(n as nat, |jj: int| jac_entry(ds, j, jj)))
                    },
            decreases n - i,
        {
            let si = fdiv(exps[i], sum);
            proof {
                assert(si == softmax_val(ds, i as int));
            }
            let mut row: Vec<u64> = Vec::new();
            let mut j: usize = 0;
            while j < n
                invariant
                    j <= n,
                    i < n,
                    n == xs@.len(),
                    exps@.len() == n,
                    forall|jj: int| 0 <= jj < n ==> exps@[jj] == fp::exp_bits(#[trigger] ds[jj]),
                    sum == sum_exp(ds, n as int),
                    ds.len() == n,
                    si == softmax_val(ds, i as int),
                    row@.len() == j,
                    forall|jj: int| 0 <= jj < j ==> row@[jj] == jac_entry(ds, i as int, jj),
                decreases n - j,
            {
                let sj = fdiv(exps[j], sum);
                let entry = if i == j {
                    fmul(si, fsub(ONE_BITS, sj))
                } else {
                    fmul(si, fneg(sj))
                };
                row.push(entry);
                j = j + 1;
            }
            let mut inp: Vec<Value> = Vec::new();
            j = 0;
            while j < n
                invariant
                    j <= n,
                    n == xs@.len(),
                    inp@ == xs@.take(j as int),
                decreases n - j,
            {
                inp.push(xs[j]);
                j = j + 1;
            }
            proof {
                assert(inp@ =~= xs@);
                assert(row@ =~= Seq::new(n as nat, |jj: int| jac_entry(ds, i as int, jj)));
            }
            let v = self.push_node(si, rg, Option::Some(Op::Softmax(inp, row)));
            outs.push(v);
            i = i + 1;
        }
        outs
    }

    /// The producer's operand handles of one cell, empty for a leaf.
    pub fn equation(&self, v: Value) -> (ops: Vec<Value>)
        requires
            self.wf(),
            v.idx < self@.len(),
        ensures
            ops@ == match self@[v.idx as int].producer {
                Option::None => Seq::<Value>::empty(),
                Option::Some(op) => op_operands(op),
            },
    {
        match &self.nodes[v.idx].producer {
            Option::None => Vec::new(),
            Option::Some(op) => op.equation(),
        }
    }
}

impl Op {
    /// The operand handles of this operation, as `op_operands` lists them.
    pub fn equation(&self) -> (ops: Vec<Value>)
        ensures
            ops@ == op_operands(*self),
    {
        let mut out: Vec<Value> = Vec::new();
        match self {
            Op::Add(a, b) => {
                out.push(*a);
                out.push(*b);
            },
            Op::Sub(a, b) => {
                out.push(*a);
                out.push(*b);
            },
            Op::Mul(a, b) => {
                out.push(*a);
                out.push(*b);
            },
            Op::Div(a, b) => {
                out.push(*a);
                out.push(*b);
            },
            Op::Pow(a, _) => {
                out.push(*a);
            },
            Op::PowV(a, e) => {
                out.push(*a);
                out.push(*e);
            },
            Op::ReLu(a) => {
                out.push(*a);
            },
            Op::Tanh(a) => {
                out.push(*a);
            },
            Op::Softmax(xs, _) => {
                let n = xs.len();
                let mut j: usize = 0;
                while j < n
                    invariant
                        j <= n,
                        n == xs@.len(),
                        out@ == xs@.take(j as int),
                    decreases n - j,
                {
                    out.push(xs[j]);
                    j = j + 1;
                }
                proof {
                    assert(out@ =~= xs@);
                }
            },
        }
        proof {
            assert(out@ =~= op_operands(*self));
        }
        out
    }
}

} // verus!
