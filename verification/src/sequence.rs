use vstd::prelude::*;

use crate::jar::Jar;
use crate::label::{ChainError, Label};

verus! {

/// Generates the observed state sequence. Element 0 is the fixed seed
/// `White`; the first draw always comes from the White jar (a fixed rule,
/// independent of the seed); every later draw comes from the jar named by the
/// previously emitted label. The result holds the seed plus `num_draws`
/// draws, so its length is `num_draws + 1`, and both jars keep their
/// composition. Drawing from an empty jar fails with `InvalidState`; with
/// `num_draws == 0` no jar is consulted and the sequence is just the seed.
pub fn derive_sequence(
    jar_w: &mut Jar,
    jar_b: &mut Jar,
    num_draws: usize,
    rng: &mut rand::rngs::StdRng,
) -> (r: Result<Vec<Label>, ChainError>)
    requires
        num_draws < usize::MAX,
    ensures
        final(jar_w).balls@.to_multiset() == old(jar_w).balls@.to_multiset(),
        final(jar_b).balls@.to_multiset() == old(jar_b).balls@.to_multiset(),
        num_draws == 0 ==> r is Ok && r->Ok_0@ == seq![Label::White],
        num_draws > 0 && old(jar_w).balls@.len() == 0 ==> r is Err,
        r is Err ==> r == Err::<Vec<Label>, ChainError>(ChainError::InvalidState) && num_draws > 0
            && (old(jar_w).balls@.len() == 0 || old(jar_b).balls@.len() == 0),
        r is Ok ==> {
            let s = r->Ok_0@;
            &&& s.len() == num_draws + 1
            &&& s[0] == Label::White
            &&& forall|i: int|
                1 <= i < s.len() ==> (s[i - 1] == Label::White ==> old(
                    jar_w,
                ).balls@.contains(#[trigger] s[i])) && (s[i - 1] == Label::Black ==> old(
                    jar_b,
                ).balls@.contains(s[i]))
        },
{
    let mut sequence: Vec<Label> = Vec::new();
    sequence.push(Label::White);
    if num_draws == 0 {
        proof {
            assert(sequence@ =~= seq![Label::White]);
        }
        return Ok(sequence);
    }
    // the first draw always consults the White jar
    let mut a: Label;
    let ghost w_before = jar_w.balls@;
    match jar_w.draw(rng) {
        Ok(x) => {
            a = x;
        },
        Err(e) => {
            return Err(e);
        },
    }
    sequence.push(a);
    let mut d: usize = 1;
    while d < num_draws
        invariant
            1 <= d <= num_draws,
            num_draws >= 1,
            jar_w.balls@.to_multiset() == old(jar_w).balls@.to_multiset(),
            jar_b.balls@.to_multiset() == old(jar_b).balls@.to_multiset(),
            jar_w.balls@.len() == old(jar_w).balls@.len(),
            jar_b.balls@.len() == old(jar_b).balls@.len(),
            old(jar_w).balls@.len() > 0,
            sequence@.len() == d + 1,
            sequence@[0] == Label::White,
            a == sequence@[sequence@.len() - 1],
            forall|i: int|
                1 <= i < sequence@.len() ==> (sequence@[i - 1] == Label::White ==> old(
                    jar_w,
                ).balls@.contains(#[trigger] sequence@[i])) && (sequence@[i - 1] == Label::Black
                    ==> old(jar_b).balls@.contains(sequence@[i])),
        decreases num_draws - d,
    {
        let l: Label;
        if a == Label::White {
            let ghost before = jar_w.balls@;
            match jar_w.draw(rng) {
                Ok(x) => {
                    proof {
                        broadcast use vstd::seq_lib::group_to_multiset_ensures;

                        assert(before.to_multiset().count(x) > 0);
                        assert(old(jar_w).balls@.contains(x));
                    }
                    l = x;
                },
                Err(e) => {
                    return Err(e);
                },
            }
        } else {
            let ghost before = jar_b.balls@;
            match jar_b.draw(rng) {
                Ok(x) => {
                    proof {
                        broadcast use vstd::seq_lib::group_to_multiset_ensures;

                        assert(before.to_multiset().count(x) > 0);
                        assert(old(jar_b).balls@.contains(x));
                    }
                    l = x;
                },
                Err(e) => {
                    return Err(e);
                },
            }
        }
        sequence.push(l);
        a = l;
        d = d + 1;
    }
    Ok(sequence)
}

} // verus!
