use vstd::prelude::*;

use rand::seq::SliceRandom;

use crate::label::{ChainError, Label};

verus! {

#[verifier::external_type_specification]
#[verifier::external_body]
pub struct ExStdRng(rand::rngs::StdRng);

/// Relies on rand's `SliceRandom::shuffle` (Fisher-Yates): it permutes the
/// slice in place, so the length and the multiset of elements are unchanged;
/// which permutation comes out depends on the random source.
#[verifier::external_body]
fn shuffle_labels(v: &mut Vec<Label>, rng: &mut rand::rngs::StdRng)
    ensures
        final(v)@.len() == old(v)@.len(),
        final(v)@.to_multiset() == old(v)@.to_multiset(),
{
    v.shuffle(rng);
}

/// A jar of White and Black tokens with a fixed composition. A draw reshuffles
/// the tokens and reads the first one, so the order changes but the counts of
/// each token never do: draws sample with replacement from the composition.
pub struct Jar {
    pub balls: Vec<Label>,
}

impl Jar {
    pub fn new(balls: Vec<Label>) -> (r: Jar)
        ensures
            r.balls@ == balls@,
    {
        Jar { balls }
    }

    /// Uniformly reshuffles the jar and returns the token now in the first
    /// position. The composition (the multiset of tokens) is preserved, and
    /// the result is always a token present in the composition. Drawing from
    /// an empty jar fails with `InvalidState` and leaves the jar untouched.
    pub fn draw(&mut self, rng: &mut rand::rngs::StdRng) -> (r: Result<Label, ChainError>)
        ensures
            final(self).balls@.len() == old(self).balls@.len(),
            final(self).balls@.to_multiset() == old(self).balls@.to_multiset(),
            r is Ok <==> old(self).balls@.len() > 0,
            r is Err ==> r == Err::<Label, ChainError>(ChainError::InvalidState)
                && final(self).balls@ == old(self).balls@,
            r is Ok ==> old(self).balls@.contains(r->Ok_0),
    {
        if self.balls.len() == 0 {
            return Err(ChainError::InvalidState);
        }
        let ghost before = self.balls@;
        shuffle_labels(&mut self.balls, rng);
        let l = self.balls[0];
        proof {
            broadcast use vstd::seq_lib::group_to_multiset_ensures;

            assert(self.balls@.contains(l));
            assert(self.balls@.to_multiset().count(l) > 0);
            assert(before.to_multiset().count(l) > 0);
        }
        Ok(l)
    }
}

/// Turns a composition written with the characters `W` and `B` into tokens:
/// `W` becomes White and `B` becomes Black. Any other character makes the
/// whole composition invalid and yields `None`.
pub fn parse_labels(chars: &Vec<char>) -> (r: Option<Vec<Label>>)
    ensures
        r is Some <==> forall|i: int| 0 <= i < chars@.len() ==> chars@[i] == 'W' || chars@[i] == 'B',
        r is Some ==> {
            let l = r->Some_0;
            &&& l@.len() == chars@.len()
            &&& forall|i: int|
                0 <= i < chars@.len() ==> l@[i] == (if chars@[i] == 'W' {
                    Label::White
                } else {
                    Label::Black
                })
        },
{
    let mut out: Vec<Label> = Vec::new();
    let mut i: usize = 0;
    while i < chars.len()
        invariant
            0 <= i <= chars@.len(),
            out@.len() == i,
            forall|j: int| 0 <= j < i ==> chars@[j] == 'W' || chars@[j] == 'B',
            forall|j: int|
                0 <= j < i ==> out@[j] == (if chars@[j] == 'W' {
                    Label::White
                } else {
                    Label::Black
                }),
        decreases chars@.len() - i,
    {
        let c = chars[i];
        if c == 'W' {
            out.push(Label::White);
        } else if c == 'B' {
            out.push(Label::Black);
        } else {
            return None;
        }
        i = i + 1;
    }
    Some(out)
}

} // verus!
