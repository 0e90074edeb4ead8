use vstd::prelude::*;

use crate::label::{ChainError, Label, is_jump};
use crate::ratio::{Ratio, TransitionMatrix};

verus! {

/// Number of White-to-Black jumps among the transitions `(s[i-1], s[i])` for
/// `2 <= i < n`. The scan starts at index 2: element 0 is the fixed seed and
/// element 1 is the first, structurally predetermined, draw.
pub open spec fn wb_jumps_upto(s: Seq<Label>, n: int) -> int
    decreases n,
{
    if n <= 2 {
        0
    } else {
        wb_jumps_upto(s, n - 1) + if s[n - 2] == Label::White && s[n - 1] == Label::Black {
            1int
        } else {
            0int
        }
    }
}

/// Number of Black-to-White jumps among the transitions `(s[i-1], s[i])` for
/// `2 <= i < n`.
pub open spec fn bw_jumps_upto(s: Seq<Label>, n: int) -> int
    decreases n,
{
    if n <= 2 {
        0
    } else {
        bw_jumps_upto(s, n - 1) + if s[n - 2] == Label::Black && s[n - 1] == Label::White {
            1int
        } else {
            0int
        }
    }
}

/// Number of counted transitions that originate in White: the indices
/// `2 <= i < n` with `s[i-1] == White`.
pub open spec fn from_white_upto(s: Seq<Label>, n: int) -> int
    decreases n,
{
    if n <= 2 {
        0
    } else {
        from_white_upto(s, n - 1) + if s[n - 2] == Label::White {
            1int
        } else {
            0int
        }
    }
}

/// Number of counted transitions that originate in Black.
pub open spec fn from_black_upto(s: Seq<Label>, n: int) -> int
    decreases n,
{
    if n <= 2 {
        0
    } else {
        from_black_upto(s, n - 1) + if s[n - 2] == Label::Black {
            1int
        } else {
            0int
        }
    }
}

/// White-to-Black jump count over the whole sequence.
pub open spec fn wb_jumps(s: Seq<Label>) -> int {
    wb_jumps_upto(s, s.len() as int)
}

/// Black-to-White jump count over the whole sequence.
pub open spec fn bw_jumps(s: Seq<Label>) -> int {
    bw_jumps_upto(s, s.len() as int)
}

/// Count of counted transitions originating in White over the whole sequence.
pub open spec fn from_white(s: Seq<Label>) -> int {
    from_white_upto(s, s.len() as int)
}

/// Count of counted transitions originating in Black over the whole sequence.
pub open spec fn from_black(s: Seq<Label>) -> int {
    from_black_upto(s, s.len() as int)
}

/// The four counters are consistent: jumps never outnumber the draws they are
/// taken from, and every counted transition originates in exactly one state,
/// so the two origin counts partition the `n - 2` counted transitions.
pub proof fn lemma_count_bounds(s: Seq<Label>, n: int)
    requires
        2 <= n,
    ensures
        0 <= wb_jumps_upto(s, n) <= from_white_upto(s, n),
        0 <= bw_jumps_upto(s, n) <= from_black_upto(s, n),
        from_white_upto(s, n) + from_black_upto(s, n) == n - 2,
    decreases n,
{
    if n > 2 {
        lemma_count_bounds(s, n - 1);
    }
}

/// Maximum-likelihood estimation of the transition matrix from one observed
/// sequence: scan the transitions from index 2 on, count the jumps out of
/// each state and the draws taken from each state, and return
/// `P(White -> Black) = wb_jumps / from_white` and
/// `P(Black -> White) = bw_jumps / from_black` as exact fractions.
///
/// Fails with `InsufficientData` when the sequence is shorter than 3, and
/// also when some state is never observed as a transition origin (the
/// division would otherwise be undefined).
pub fn estimate(seq: &Vec<Label>) -> (r: Result<TransitionMatrix, ChainError>)
    ensures
        r is Ok <==> seq@.len() >= 3 && from_white(seq@) > 0 && from_black(seq@) > 0,
        r is Err ==> r == Err::<TransitionMatrix, ChainError>(ChainError::InsufficientData),
        r is Ok ==> {
            let m = r->Ok_0;
            &&& m.wf()
            &&& m.wb.num == wb_jumps(seq@)
            &&& m.wb.den == from_white(seq@)
            &&& m.bw.num == bw_jumps(seq@)
            &&& m.bw.den == from_black(seq@)
        },
{
    if seq.len() < 3 {
        return Err(ChainError::InsufficientData);
    }
    let ghost s = seq@;
    let mut w_wb: u64 = 0;
    let mut draws_from_white: u64 = 0;
    let mut b_bw: u64 = 0;
    let mut draws_from_black: u64 = 0;
    let mut prev: Label = seq[1];
    let mut i: usize = 2;
    while i < seq.len()
        invariant
            seq@ == s,
            3 <= s.len(),
            2 <= i <= s.len(),
            prev == s[i - 1],
            w_wb == wb_jumps_upto(s, i as int),
            b_bw == bw_jumps_upto(s, i as int),
            draws_from_white == from_white_upto(s, i as int),
            draws_from_black == from_black_upto(s, i as int),
            draws_from_white + draws_from_black == i - 2,
        decreases s.len() - i,
    {
        proof {
            lemma_count_bounds(s, i as int);
            lemma_count_bounds(s, i as int + 1);
        }
        let curr: Label = seq[i];
        if let Some((jump, colour)) = is_jump(prev, curr) {
            if jump {
                if colour == Label::White {
                    w_wb = w_wb + 1;
                } else {
                    b_bw = b_bw + 1;
                }
            }
        }
        if prev == Label::White {
            draws_from_white = draws_from_white + 1;
        } else {
            draws_from_black = draws_from_black + 1;
        }
        prev = curr;
        i = i + 1;
    }
    if draws_from_white == 0 || draws_from_black == 0 {
        return Err(ChainError::InsufficientData);
    }
    proof {
        lemma_count_bounds(s, s.len() as int);
    }
    let wb = Ratio::new(w_wb, draws_from_white);
    let bw = Ratio::new(b_bw, draws_from_black);
    Ok(TransitionMatrix::new(wb, bw))
}

} // verus!
