//! Laws of the backward pass, proved against the driver's own fold.
//!
//! Each lemma fixes one small graph shape, leaves the forward data fully
//! general, and pins the gradients the backward pass leaves behind: every
//! contribution the local rules owe is present, accumulated by addition onto
//! the zero start, with the root's gradient seeded to 1.0.

use vstd::prelude::*;
use crate::fp::{
    add_bits, sub_bits, mul_bits, powf_bits, is_pos_bits, relu_fwd_bits, ZERO_BITS, ONE_BITS,
};
use crate::value::{Value, Op, Cell};
use crate::backward::{back_order, run_backward, seeded, marks_down, set_marks, ord_upto, apply_node};

verus! {

/// A tracked leaf with the given data and a zero gradient accumulator.
pub open spec fn leaf_cell(data: u64) -> Cell {
    Cell { data, grad: ZERO_BITS, requires_grad: true, producer: Option::None }
}

/// A tracked derived cell with the given data, producer and a zero gradient
/// accumulator.
pub open spec fn derived_cell(data: u64, op: Op) -> Cell {
    Cell { data, grad: ZERO_BITS, requires_grad: true, producer: Option::Some(op) }
}

/// The add rule: backward from c = a + b hands the seeded unit gradient to
/// both operands unchanged — each ends at 0.0 + 1.0, one contribution each.
pub proof fn lemma_add_rule(da: u64, db: u64, dc: u64)
    ensures
        ({
            let cells = seq![
                leaf_cell(da),
                leaf_cell(db),
                derived_cell(dc, Op::Add(Value { idx: 0 }, Value { idx: 1 })),
            ];
            let out = run_backward(seeded(cells, 2), back_order(cells, 2), 3);
            &&& out[0].grad == add_bits(ZERO_BITS, ONE_BITS)
            &&& out[1].grad == add_bits(ZERO_BITS, ONE_BITS)
            &&& out[2].grad == ONE_BITS
        }),
{
    let cells = seq![
        leaf_cell(da),
        leaf_cell(db),
        derived_cell(dc, Op::Add(Value { idx: 0 }, Value { idx: 1 })),
    ];
    reveal_with_fuel(marks_down, 5);
    reveal_with_fuel(set_marks, 4);
    reveal_with_fuel(ord_upto, 5);
    reveal_with_fuel(run_backward, 5);
    assert(back_order(cells, 2) =~= seq![2int, 1int, 0int]);
    let s = seeded(cells, 2);
    let s1 = apply_node(s, 2);
    assert(s1 =~= s.update(0, Cell { grad: add_bits(ZERO_BITS, ONE_BITS), ..s[0] }).update(
        1,
        Cell { grad: add_bits(ZERO_BITS, ONE_BITS), ..s[1] },
    ));
    assert(apply_node(s1, 1) =~= s1);
    assert(apply_node(s1, 0) =~= s1);
    assert(run_backward(s, back_order(cells, 2), 3) =~= s1);
}

/// The mul rule: backward from d = a * b gives each operand the unit
/// gradient scaled by the other operand's forward data.
pub proof fn lemma_mul_rule(da: u64, db: u64, dd: u64)
    ensures
        ({
            let cells = seq![
                leaf_cell(da),
                leaf_cell(db),
                derived_cell(dd, Op::Mul(Value { idx: 0 }, Value { idx: 1 })),
            ];
            let out = run_backward(seeded(cells, 2), back_order(cells, 2), 3);
            &&& out[0].grad == add_bits(ZERO_BITS, mul_bits(ONE_BITS, db))
            &&& out[1].grad == add_bits(ZERO_BITS, mul_bits(ONE_BITS, da))
        }),
{
    let cells = seq![
        leaf_cell(da),
        leaf_cell(db),
        derived_cell(dd, Op::Mul(Value { idx: 0 }, Value { idx: 1 })),
    ];
    reveal_with_fuel(marks_down, 5);
    reveal_with_fuel(set_marks, 4);
    reveal_with_fuel(ord_upto, 5);
    reveal_with_fuel(run_backward, 5);
    assert(back_order(cells, 2) =~= seq![2int, 1int, 0int]);
    let s = seeded(cells, 2);
    let s1 = apply_node(s, 2);
    assert(s1 =~= s.update(
        0,
        Cell { grad: add_bits(ZERO_BITS, mul_bits(ONE_BITS, db)), ..s[0] },
    ).update(1, Cell { grad: add_bits(ZERO_BITS, mul_bits(ONE_BITS, da)), ..s[1] }));
    assert(apply_node(s1, 1) =~= s1);
    assert(apply_node(s1, 0) =~= s1);
    assert(run_backward(s, back_order(cells, 2), 3) =~= s1);
}

/// The power rule with a constant exponent: backward from y = x^c gives
/// x the unit gradient times c times x^(c-1).
pub proof fn lemma_pow_rule(dx: u64, c: u64, dy: u64)
    ensures
        ({
            let cells = seq![leaf_cell(dx), derived_cell(dy, Op::Pow(Value { idx: 0 }, c))];
            let out = run_backward(seeded(cells, 1), back_order(cells, 1), 2);
            out[0].grad == add_bits(
                ZERO_BITS,
                mul_bits(mul_bits(ONE_BITS, c), powf_bits(dx, sub_bits(c, ONE_BITS))),
            )
        }),
{
    let cells = seq![leaf_cell(dx), derived_cell(dy, Op::Pow(Value { idx: 0 }, c))];
    reveal_with_fuel(marks_down, 4);
    reveal_with_fuel(set_marks, 3);
    reveal_with_fuel(ord_upto, 4);
    reveal_with_fuel(run_backward, 4);
    assert(back_order(cells, 1) =~= seq![1int, 0int]);
    let s = seeded(cells, 1);
    let s1 = apply_node(s, 1);
    assert(s1 =~= s.update(
        0,
        Cell {
            grad: add_bits(
                ZERO_BITS,
                mul_bits(mul_bits(ONE_BITS, c), powf_bits(dx, sub_bits(c, ONE_BITS))),
            ),
            ..s[0]
        },
    ));
    assert(apply_node(s1, 0) =~= s1);
    assert(run_backward(s, back_order(cells, 1), 2) =~= s1);
}

/// The rectifier subgradient: backward from r = relu(x) hands the unit
/// gradient times 1.0 through when x is strictly positive, and times 0.0
/// when x is zero or negative (the kink itself propagates 0.0).
pub proof fn lemma_relu_rule(dx: u64)
    ensures
        ({
            let cells = seq![
                leaf_cell(dx),
                derived_cell(relu_fwd_bits(dx), Op::ReLu(Value { idx: 0 })),
            ];
            let out = run_backward(seeded(cells, 1), back_order(cells, 1), 2);
            out[0].grad == add_bits(
                ZERO_BITS,
                mul_bits(
                    ONE_BITS,
                    if is_pos_bits(dx) {
                        ONE_BITS
                    } else {
                        ZERO_BITS
                    },
                ),
            )
        }),
{
    let cells = seq![leaf_cell(dx), derived_cell(relu_fwd_bits(dx), Op::ReLu(Value { idx: 0 }))];
    reveal_with_fuel(marks_down, 4);
    reveal_with_fuel(set_marks, 3);
    reveal_with_fuel(ord_upto, 4);
    reveal_with_fuel(run_backward, 4);
    assert(back_order(cells, 1) =~= seq![1int, 0int]);
    let s = seeded(cells, 1);
    let s1 = apply_node(s, 1);
    assert(is_pos_bits(relu_fwd_bits(dx)) == is_pos_bits(dx));
    assert(s1 =~= s.update(
        0,
        Cell {
            grad: add_bits(
                ZERO_BITS,
                mul_bits(
                    ONE_BITS,
                    if is_pos_bits(dx) {
                        ONE_BITS
                    } else {
                        ZERO_BITS
                    },
                ),
            ),
            ..s[0]
        },
    ));
    assert(apply_node(s1, 0) =~= s1);
    assert(run_backward(s, back_order(cells, 1), 2) =~= s1);
}

/// Accumulation across shared subexpressions: with x used by both f = x * a
/// and g = x * b, backward from f + g leaves on x the sum of both paths'
/// contributions — first g's, then f's, each added onto what was there —
/// not just the last one.
pub proof fn lemma_accumulation(dx: u64, da: u64, db: u64, df: u64, dg: u64, dr: u64)
    ensures
        ({
            let cells = seq![
                leaf_cell(dx),
                leaf_cell(da),
                leaf_cell(db),
                derived_cell(df, Op::Mul(Value { idx: 0 }, Value { idx: 1 })),
                derived_cell(dg, Op::Mul(Value { idx: 0 }, Value { idx: 2 })),
                derived_cell(dr, Op::Add(Value { idx: 3 }, Value { idx: 4 })),
            ];
            let out = run_backward(seeded(cells, 5), back_order(cells, 5), 6);
            out[0].grad == add_bits(
                add_bits(ZERO_BITS, mul_bits(add_bits(ZERO_BITS, ONE_BITS), db)),
                mul_bits(add_bits(ZERO_BITS, ONE_BITS), da),
            )
        }),
{
    let cells = seq![
        leaf_cell(dx),
        leaf_cell(da),
        leaf_cell(db),
        derived_cell(df, Op::Mul(Value { idx: 0 }, Value { idx: 1 })),
        derived_cell(dg, Op::Mul(Value { idx: 0 }, Value { idx: 2 })),
        derived_cell(dr, Op::Add(Value { idx: 3 }, Value { idx: 4 })),
    ];
    reveal_with_fuel(marks_down, 8);
    reveal_with_fuel(set_marks, 4);
    reveal_with_fuel(ord_upto, 8);
    reveal_with_fuel(run_backward, 8);
    assert(back_order(cells, 5) =~= seq![5int, 4int, 3int, 2int, 1int, 0int]);
    let s = seeded(cells, 5);
    let gseed = add_bits(ZERO_BITS, ONE_BITS);
    let s1 = apply_node(s, 5);
    assert(s1 =~= s.update(3, Cell { grad: gseed, ..s[3] }).update(
        4,
        Cell { grad: gseed, ..s[4] },
    ));
    let s2 = apply_node(s1, 4);
    assert(s2 =~= s1.update(
        0,
        Cell { grad: add_bits(ZERO_BITS, mul_bits(gseed, db)), ..s1[0] },
    ).update(2, Cell { grad: add_bits(ZERO_BITS, mul_bits(gseed, dx)), ..s1[2] }));
    let s3 = apply_node(s2, 3);
    assert(s3 =~= s2.update(
        0,
        Cell {
            grad: add_bits(add_bits(ZERO_BITS, mul_bits(gseed, db)), mul_bits(gseed, da)),
            ..s2[0]
        },
    ).update(1, Cell { grad: add_bits(ZERO_BITS, mul_bits(gseed, dx)), ..s2[1] }));
    assert(apply_node(s3, 2) =~= s3);
    assert(apply_node(s3, 1) =~= s3);
    assert(apply_node(s3, 0) =~= s3);
    assert(run_backward(s, back_order(cells, 5), 6) =~= s3);
    assert(run_backward(s, back_order(cells, 5), 6)[0].grad == add_bits(
        add_bits(ZERO_BITS, mul_bits(gseed, db)),
        mul_bits(gseed, da),
    ));
}

} // verus!
