use vstd::prelude::*;

use crate::bignat::{bn_add, bn_from, bn_lt, bn_scale, bn_val, is_norm};
use crate::label::{ChainError, Label};
use crate::ratio::TransitionMatrix;

verus! {

/// The White numerator of the step-`t` distribution, starting one-hot at
/// `init` and propagated through the matrix, over the common denominator
/// `(m.wb.den * m.bw.den)^t` (see `step_den`). One step multiplies the White
/// numerator by the scaled retention entry `(dw - a) * db` and the Black
/// numerator by the scaled jump entry `b * dw`, where `wb = a/dw` and
/// `bw = b/db`.
pub open spec fn num_white(m: TransitionMatrix, init: Label, t: nat) -> int
    decreases t, 0int,
{
    if t == 0 {
        if init == Label::White {
            1
        } else {
            0
        }
    } else {
        num_white(m, init, (t - 1) as nat) * (((m.wb.den - m.wb.num) as int) * m.bw.den)
            + num_black(m, init, (t - 1) as nat) * ((m.bw.num as int) * m.wb.den)
    }
}

/// The Black numerator of the step-`t` distribution, over the same common
/// denominator as `num_white`.
pub open spec fn num_black(m: TransitionMatrix, init: Label, t: nat) -> int
    decreases t, 1int,
{
    if t == 0 {
        if init == Label::Black {
            1
        } else {
            0
        }
    } else {
        num_white(m, init, (t - 1) as nat) * ((m.wb.num as int) * m.bw.den)
            + num_black(m, init, (t - 1) as nat) * (((m.bw.den - m.bw.num) as int) * m.wb.den)
    }
}

/// The common denominator of the step-`t` distribution: `(dw * db)^t`.
pub open spec fn step_den(m: TransitionMatrix, t: nat) -> int
    decreases t,
{
    if t == 0 {
        1
    } else {
        ((m.wb.den as int) * m.bw.den) * step_den(m, (t - 1) as nat)
    }
}

/// The label predicted at step `t`: Black exactly when the White probability
/// falls below the Black probability; ties resolve to White.
pub open spec fn predicted_label(m: TransitionMatrix, init: Label, t: nat) -> Label {
    if num_white(m, init, t) < num_black(m, init, t) {
        Label::Black
    } else {
        Label::White
    }
}

/// At every step the propagated pair is a probability distribution over the
/// exact common denominator `(dw * db)^t`: both numerators are non-negative
/// and they sum to exactly that power, the analog of the two components
/// summing to one.
pub proof fn lemma_distribution_total(m: TransitionMatrix, init: Label, t: nat)
    requires
        m.wf(),
    ensures
        num_white(m, init, t) >= 0,
        num_black(m, init, t) >= 0,
        num_white(m, init, t) + num_black(m, init, t) == step_den(m, t),
    decreases t,
{
    if t > 0 {
        lemma_distribution_total(m, init, (t - 1) as nat);
        let nw = num_white(m, init, (t - 1) as nat);
        let nb = num_black(m, init, (t - 1) as nat);
        let a = m.wb.num as int;
        let dw = m.wb.den as int;
        let b = m.bw.num as int;
        let db = m.bw.den as int;
        assert(nw * ((dw - a) * db) + nb * (b * dw) >= 0 && nw * (a * db) + nb * ((db - b) * dw)
            >= 0 && nw * ((dw - a) * db) + nb * (b * dw) + (nw * (a * db) + nb * ((db - b) * dw))
            == (dw * db) * (nw + nb)) by (nonlinear_arith)
            requires
                nw >= 0,
                nb >= 0,
                0 <= a <= dw,
                0 <= b <= db,
        ;
    }
}

/// Propagates a one-hot distribution at `initial` forward through the matrix
/// and emits, for each step `t` in `0..steps`, the majority label of the
/// step-`t` distribution (ties to White). The distributions are tracked as
/// exact big-integer numerators over the common denominator `(dw * db)^t`,
/// so every emitted label is exactly the sign of the true probability
/// difference; `steps == 0` yields an empty trace.
pub fn predict(m: &TransitionMatrix, initial: Label, steps: usize) -> (r: Vec<Label>)
    requires
        m.wf(),
        (m.wb.den as int) * (m.bw.den as int) <= u64::MAX as int,
    ensures
        r@.len() == steps,
        forall|t: int| 0 <= t < steps ==> r@[t] == predicted_label(*m, initial, t as nat),
{
    let mut results: Vec<Label> = Vec::new();
    if steps == 0 {
        return results;
    }
    let dw = m.wb.den;
    let a = m.wb.num;
    let db = m.bw.den;
    let b = m.bw.num;
    proof {
        assert(((dw - a) as int) * (db as int) <= (dw as int) * (db as int) && ((db - b) as int) * (
        dw as int) <= (dw as int) * (db as int) && (a as int) * (db as int) <= (dw as int) * (
        db as int) && (b as int) * (dw as int) <= (dw as int) * (db as int)) by (nonlinear_arith)
            requires
                0 < dw,
                0 < db,
                a <= dw,
                b <= db,
        ;
    }
    // the four matrix entries, scaled to the shared per-step denominator dw * db
    let m_ww: u64 = (dw - a) * db;
    let m_bw: u64 = b * dw;
    let m_wb: u64 = a * db;
    let m_bb: u64 = (db - b) * dw;
    let mut nw: Vec<u64> = bn_from(
        if initial == Label::White {
            1
        } else {
            0
        },
    );
    let mut nb: Vec<u64> = bn_from(
        if initial == Label::White {
            0
        } else {
            1
        },
    );
    let mut t: usize = 0;
    while t < steps
        invariant
            0 <= t <= steps,
            results@.len() == t,
            m_ww as int == ((m.wb.den - m.wb.num) as int) * m.bw.den,
            m_bw as int == (m.bw.num as int) * m.wb.den,
            m_wb as int == (m.wb.num as int) * m.bw.den,
            m_bb as int == ((m.bw.den - m.bw.num) as int) * m.wb.den,
            bn_val(nw@) == num_white(*m, initial, t as nat),
            bn_val(nb@) == num_black(*m, initial, t as nat),
            is_norm(nw@),
            is_norm(nb@),
            forall|j: int| 0 <= j < t ==> results@[j] == predicted_label(*m, initial, j as nat),
        decreases steps - t,
    {
        if bn_lt(&nw, &nb) {
            results.push(Label::Black);
        } else {
            results.push(Label::White);
        }
        let nw2 = bn_add(&bn_scale(&nw, m_ww), &bn_scale(&nb, m_bw));
        let nb2 = bn_add(&bn_scale(&nw, m_wb), &bn_scale(&nb, m_bb));
        nw = nw2;
        nb = nb2;
        t = t + 1;
    }
    results
}

/// The stationary distribution of a two-state chain, as two exact fractions
/// over one shared denominator. Well-formed values are probability
/// distributions: the two numerators add up to the (positive) denominator.
#[derive(Clone, Copy, PartialEq, Eq, Structural, Debug)]
pub struct SteadyState {
    pub white_num: u128,
    pub black_num: u128,
    pub den: u128,
}

impl SteadyState {
    pub open spec fn wf(self) -> bool {
        0 < self.den && self.white_num + self.black_num == self.den
    }
}

/// The closed-form stationary distribution of the chain: with retention
/// probabilities `alpha = P(W->W)` and `beta = P(B->B)`, it is
/// `x = (1 - beta) / (2 - alpha - beta)` for White and
/// `y = (1 - alpha) / (2 - alpha - beta)` for Black. Over the stored jump
/// fractions `wb = a/dw` and `bw = b/db` that is exactly
/// `x = b*dw / (a*db + b*dw)` and `y = a*db / (a*db + b*dw)`.
///
/// The chain is absorbing exactly when `alpha = beta = 1`, that is when both
/// jump numerators are zero; then the denominator vanishes and the call fails
/// with `InvalidState` instead of dividing by zero.
pub fn steady_state(m: &TransitionMatrix) -> (r: Result<SteadyState, ChainError>)
    requires
        m.wf(),
        2 * (m.wb.den as int) * (m.bw.den as int) <= u128::MAX as int,
    ensures
        r is Err <==> m.wb.num == 0 && m.bw.num == 0,
        r is Err ==> r == Err::<SteadyState, ChainError>(ChainError::InvalidState),
        r is Ok ==> {
            let ss = r->Ok_0;
            &&& ss.white_num == m.bw.num * m.wb.den
            &&& ss.black_num == m.wb.num * m.bw.den
            &&& ss.den == m.wb.num * m.bw.den + m.bw.num * m.wb.den
            &&& ss.wf()
        },
{
    if m.wb.num == 0 && m.bw.num == 0 {
        return Err(ChainError::InvalidState);
    }
    proof {
        let ai = m.wb.num as int;
        let dwi = m.wb.den as int;
        let bi = m.bw.num as int;
        let dbi = m.bw.den as int;
        assert(bi * dwi <= 2 * dwi * dbi && ai * dbi <= 2 * dwi * dbi && bi * dwi + ai * dbi <= 2
            * dwi * dbi) by (nonlinear_arith)
            requires
                0 <= bi <= dbi,
                0 <= ai <= dwi,
        ;
        assert(ai >= 1 ==> ai * dbi >= 1) by (nonlinear_arith)
            requires
                dbi >= 1,
        ;
        assert(bi >= 1 ==> bi * dwi >= 1) by (nonlinear_arith)
            requires
                dwi >= 1,
        ;
    }
    let white_num: u128 = (m.bw.num as u128) * (m.wb.den as u128);
    let black_num: u128 = (m.wb.num as u128) * (m.bw.den as u128);
    let den: u128 = black_num + white_num;
    Ok(SteadyState { white_num, black_num, den })
}

} // verus!
