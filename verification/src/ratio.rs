use vstd::prelude::*;

verus! {

/// An exact probability as a fraction `num / den`. Well-formed ratios have a
/// positive denominator and a value in `[0, 1]` (`num <= den`), so no entry
/// can leave the unit interval.
#[derive(Clone, Copy, PartialEq, Eq, Structural, Debug)]
pub struct Ratio {
    pub num: u64,
    pub den: u64,
}

impl Ratio {
    /// A well-formed ratio is a probability: `0 <= num/den <= 1`.
    pub open spec fn wf(self) -> bool {
        0 < self.den && self.num <= self.den
    }

    pub fn new(num: u64, den: u64) -> (r: Ratio)
        requires
            0 < den,
            num <= den,
        ensures
            r.num == num,
            r.den == den,
            r.wf(),
    {
        Ratio { num, den }
    }

    /// The complementary probability `1 - num/den`, over the same denominator.
    pub fn complement(&self) -> (r: Ratio)
        requires
            self.wf(),
        ensures
            r.num == self.den - self.num,
            r.den == self.den,
            r.wf(),
    {
        Ratio { num: self.den - self.num, den: self.den }
    }
}

/// The transition matrix of a two-state chain. Only the two jump
/// probabilities are stored; each retention probability is the complement of
/// the jump probability in its row, so every row sums to one by construction.
#[derive(Clone, Copy, PartialEq, Eq, Structural, Debug)]
pub struct TransitionMatrix {
    /// `P(White -> Black)`: the White row's jump probability.
    pub wb: Ratio,
    /// `P(Black -> White)`: the Black row's jump probability.
    pub bw: Ratio,
}

impl TransitionMatrix {
    pub open spec fn wf(self) -> bool {
        self.wb.wf() && self.bw.wf()
    }

    pub fn new(wb: Ratio, bw: Ratio) -> (m: TransitionMatrix)
        requires
            wb.wf(),
            bw.wf(),
        ensures
            m.wb == wb,
            m.bw == bw,
            m.wf(),
    {
        TransitionMatrix { wb, bw }
    }

    /// `P(White -> White)`, the White row's retention probability.
    pub fn p_ww(&self) -> (r: Ratio)
        requires
            self.wf(),
        ensures
            r.num == self.wb.den - self.wb.num,
            r.den == self.wb.den,
            r.wf(),
    {
        self.wb.complement()
    }

    /// `P(White -> Black)`.
    pub fn p_wb(&self) -> (r: Ratio)
        requires
            self.wf(),
        ensures
            r == self.wb,
            r.wf(),
    {
        self.wb
    }

    /// `P(Black -> White)`.
    pub fn p_bw(&self) -> (r: Ratio)
        requires
            self.wf(),
        ensures
            r == self.bw,
            r.wf(),
    {
        self.bw
    }

    /// `P(Black -> Black)`, the Black row's retention probability.
    pub fn p_bb(&self) -> (r: Ratio)
        requires
            self.wf(),
        ensures
            r.num == self.bw.den - self.bw.num,
            r.den == self.bw.den,
            r.wf(),
    {
        self.bw.complement()
    }
}

/// Each row of a well-formed transition matrix is a probability distribution:
/// its two entries lie in `[0, 1]` and sum to exactly one. The White row's
/// entries are `(den - num) / den` and `num / den` over the shared denominator
/// `m.wb.den`, so their numerators add up to that denominator; likewise for
/// the Black row over `m.bw.den`.
pub proof fn lemma_rows_sum_to_one(m: TransitionMatrix)
    requires
        m.wf(),
    ensures
        (m.wb.den - m.wb.num) + m.wb.num == m.wb.den,
        (m.bw.den - m.bw.num) + m.bw.num == m.bw.den,
        m.wb.num <= m.wb.den && m.wb.den - m.wb.num <= m.wb.den,
        m.bw.num <= m.bw.den && m.bw.den - m.bw.num <= m.bw.den,
{
}

} // verus!
