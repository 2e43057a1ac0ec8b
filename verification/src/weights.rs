//! Weight-initialization sampling strategies keyed by fan-in and fan-out.
//!
//! Each strategy draws one raw number and wraps it as a fresh gradient-
//! tracked leaf cell. The draw itself is random, so nothing is promised of
//! the value; what is promised is the shape of the graph afterwards: one new
//! leaf, tracked, with a zero gradient accumulator, and every older cell
//! untouched. Uniform draws scale 53 fresh random bits into the unit
//! interval; normal draws use the polar method over the verified square
//! root and logarithm routines.

use vstd::prelude::*;
use crate::fp::{
    fadd, fmul, fdiv, fneg, fsqrt, fln, flt, fp_of_u64, ZERO_BITS, ONE_BITS, TWO_BITS, THREE_BITS,
    SIX_BITS, TWO_POW_53_BITS,
};
use crate::value::{Value, Graph};

verus! {

/// Relies on rand::random::<u64>: 64 fresh random bits; nothing is promised
/// of their value.
#[verifier::external_body]
fn random_u64() -> u64 {
    rand::random::<u64>()
}

/// The fan-in and fan-out of the layer a weight belongs to; a single-fan
/// layer repeats its one count.
pub struct Fanning(pub usize, pub usize);

impl From<[usize; 2]> for Fanning {
    /// The two counts are fan-in and fan-out, in that order.
    fn from(v: [usize; 2]) -> (r: Fanning) {
        Fanning(v[0], v[1])
    }
}

impl vstd::std_specs::convert::FromSpecImpl<[usize; 2]> for Fanning {
    open spec fn obeys_from_spec() -> bool {
        true
    }

    open spec fn from_spec(v: [usize; 2]) -> Fanning {
        Fanning(v[0], v[1])
    }
}

impl From<[usize; 1]> for Fanning {
    /// A single-fan layer repeats its one count.
    fn from(v: [usize; 1]) -> (r: Fanning) {
        Fanning(v[0], v[0])
    }
}

impl vstd::std_specs::convert::FromSpecImpl<[usize; 1]> for Fanning {
    open spec fn obeys_from_spec() -> bool {
        true
    }

    open spec fn from_spec(v: [usize; 1]) -> Fanning {
        Fanning(v[0], v[0])
    }
}

/// The catalogue of weight-initialization strategies.
pub enum WeightInit {
    GlorotUniform,
    GlorotNormal,
    HeUniform,
    HeNormal,
    LecunUniform,
    LecunNormal,
}

/// A uniform draw in [0, 1): the top 53 of 64 random bits, scaled by 2^-53.
fn unit_uniform() -> u64 {
    fdiv(fp_of_u64(random_u64() >> 11), TWO_POW_53_BITS)
}

/// A uniform draw in [-limit, limit).
fn uniform_sym(limit: u64) -> u64 {
    fadd(fneg(limit), fmul(unit_uniform(), fmul(TWO_BITS, limit)))
}

/// A standard normal draw by the polar method: rejection rounds are bounded,
/// with a zero fallback that is reached only with negligible probability.
fn standard_normal() -> u64 {
    let mut tries: usize = 0;
    while tries < 64
        decreases 64 - tries,
    {
        let u = fadd(fneg(ONE_BITS), fmul(unit_uniform(), TWO_BITS));
        let v = fadd(fneg(ONE_BITS), fmul(unit_uniform(), TWO_BITS));
        let s = fadd(fmul(u, u), fmul(v, v));
        if flt(ZERO_BITS, s) && flt(s, ONE_BITS) {
            let f = fsqrt(fdiv(fmul(fneg(TWO_BITS), fln(s)), s));
            return fmul(u, f);
        }
        tries = tries + 1;
    }
    ZERO_BITS
}

impl WeightInit {
    /// Draws one weight by this strategy for the given fanning and wraps it
    /// as a fresh gradient-tracked leaf of the graph. The drawn value is
    /// random; the graph gains exactly one new tracked leaf cell with a zero
    /// gradient accumulator, and no older cell changes.
    pub fn sample(&self, fanning: Fanning, g: &mut Graph) -> (v: Value)
        requires
            old(g).wf(),
        ensures
            final(g).wf(),
            v.idx == old(g)@.len(),
            final(g)@.len() == old(g)@.len() + 1,
            forall|j: int| 0 <= j < old(g)@.len() ==> final(g)@[j] == old(g)@[j],
            final(g)@[v.idx as int].producer is None,
            final(g)@[v.idx as int].grad == ZERO_BITS,
            final(g)@[v.idx as int].requires_grad,
    {
        let Fanning(fan_in, fan_out) = fanning;
        match self {
            WeightInit::GlorotUniform => self.glorot_uniform(fan_in, fan_out, g),
            WeightInit::GlorotNormal => self.glorot_normal(fan_in, fan_out, g),
            WeightInit::HeUniform => self.he_uniform(fan_in, g),
            WeightInit::HeNormal => self.he_normal(fan_in, g),
            WeightInit::LecunUniform => self.lecun_uniform(fan_in, g),
            WeightInit::LecunNormal => self.lecun_normal(fan_in, g),
        }
    }

    /// Uniform in [-l, l) with l = sqrt(6 / (fan_in + fan_out)).
    fn glorot_uniform(&self, fan_in: usize, fan_out: usize, g: &mut Graph) -> (v: Value)
        requires
            old(g).wf(),
        ensures
            final(g).wf(),
            v.idx == old(g)@.len(),
            final(g)@.len() == old(g)@.len() + 1,
            forall|j: int| 0 <= j < old(g)@.len() ==> final(g)@[j] == old(g)@[j],
            final(g)@[v.idx as int].producer is None,
            final(g)@[v.idx as int].grad == ZERO_BITS,
            final(g)@[v.idx as int].requires_grad,
    {
        let fans = fadd(fp_of_u64(fan_in as u64), fp_of_u64(fan_out as u64));
        let limit = fsqrt(fdiv(SIX_BITS, fans));
        g.leaf(uniform_sym(limit), true)
    }

    /// Normal with standard deviation sqrt(2 / (fan_in + fan_out)).
    fn glorot_normal(&self, fan_in: usize, fan_out: usize, g: &mut Graph) -> (v: Value)
        requires
            old(g).wf(),
        ensures
            final(g).wf(),
            v.idx == old(g)@.len(),
            final(g)@.len() == old(g)@.len() + 1,
            forall|j: int| 0 <= j < old(g)@.len() ==> final(g)@[j] == old(g)@[j],
            final(g)@[v.idx as int].producer is None,
            final(g)@[v.idx as int].grad == ZERO_BITS,
            final(g)@[v.idx as int].requires_grad,
    {
        let fans = fadd(fp_of_u64(fan_in as u64), fp_of_u64(fan_out as u64));
        let stdev = fsqrt(fdiv(TWO_BITS, fans));
        g.leaf(fmul(standard_normal(), stdev), true)
    }

    /// Uniform in [-l, l) with l = sqrt(6 / fan_in).
    fn he_uniform(&self, fan_in: usize, g: &mut Graph) -> (v: Value)
        requires
            old(g).wf(),
        ensures
            final(g).wf(),
            v.idx == old(g)@.len(),
            final(g)@.len() == old(g)@.len() + 1,
            forall|j: int| 0 <= j < old(g)@.len() ==> final(g)@[j] == old(g)@[j],
            final(g)@[v.idx as int].producer is None,
            final(g)@[v.idx as int].grad == ZERO_BITS,
            final(g)@[v.idx as int].requires_grad,
    {
        let limit = fsqrt(fdiv(SIX_BITS, fp_of_u64(fan_in as u64)));
        g.leaf(uniform_sym(limit), true)
    }

    /// Normal with standard deviation sqrt(2 / fan_in).
    fn he_normal(&self, fan_in: usize, g: &mut Graph) -> (v: Value)
        requires
            old(g).wf(),
        ensures
            final(g).wf(),
            v.idx == old(g)@.len(),
            final(g)@.len() == old(g)@.len() + 1,
            forall|j: int| 0 <= j < old(g)@.len() ==> final(g)@[j] == old(g)@[j],
            final(g)@[v.idx as int].producer is None,
            final(g)@[v.idx as int].grad == ZERO_BITS,
            final(g)@[v.idx as int].requires_grad,
    {
        let stdev = fsqrt(fdiv(TWO_BITS, fp_of_u64(fan_in as u64)));
        g.leaf(fmul(standard_normal(), stdev), true)
    }

    /// Uniform in [-l, l) with l = sqrt(3 / fan_in).
    fn lecun_uniform(&self, fan_in: usize, g: &mut Graph) -> (v: Value)
        requires
            old(g).wf(),
        ensures
            final(g).wf(),
            v.idx == old(g)@.len(),
            final(g)@.len() == old(g)@.len() + 1,
            forall|j: int| 0 <= j < old(g)@.len() ==> final(g)@[j] == old(g)@[j],
            final(g)@[v.idx as int].producer is None,
            final(g)@[v.idx as int].grad == ZERO_BITS,
            final(g)@[v.idx as int].requires_grad,
    {
        let limit = fsqrt(fdiv(THREE_BITS, fp_of_u64(fan_in as u64)));
        g.leaf(uniform_sym(limit), true)
    }

    /// Normal with standard deviation sqrt(1 / fan_in).
    fn lecun_normal(&self, fan_in: usize, g: &mut Graph) -> (v: Value)
        requires
            old(g).wf(),
        ensures
            final(g).wf(),
            v.idx == old(g)@.len(),
            final(g)@.len() == old(g)@.len() + 1,
            forall|j: int| 0 <= j < old(g)@.len() ==> final(g)@[j] == old(g)@[j],
            final(g)@[v.idx as int].producer is None,
            final(g)@[v.idx as int].grad == ZERO_BITS,
            final(g)@[v.idx as int].requires_grad,
    {
        let stdev = fsqrt(fdiv(ONE_BITS, fp_of_u64(fan_in as u64)));
        g.leaf(fmul(standard_normal(), stdev), true)
    }
}

} // verus!
