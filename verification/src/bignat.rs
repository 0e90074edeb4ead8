//! Arbitrary-precision natural numbers as little-endian `u64` limb vectors,
//! with the exact operations the chain analyzer needs: multiply by a word,
//! add, and compare. The propagated distribution numerators grow without
//! bound in the step count, so no fixed-width integer could hold them.

use vstd::prelude::*;

verus! {

/// The value of a little-endian sequence of 64-bit limbs.
pub open spec fn bn_val(s: Seq<u64>) -> nat
    decreases s.len(),
{
    if s.len() == 0 {
        0
    } else {
        s[0] as nat + 0x1_0000_0000_0000_0000 * bn_val(s.skip(1))
    }
}

/// `(2^64)^n`, the weight of the limb at index `n`.
pub open spec fn pow_b(n: nat) -> nat
    decreases n,
{
    if n == 0 {
        1
    } else {
        0x1_0000_0000_0000_0000 * pow_b((n - 1) as nat)
    }
}

/// A normalized limb sequence has no leading (most-significant) zero limb.
pub open spec fn is_norm(s: Seq<u64>) -> bool {
    s.len() == 0 || s[s.len() - 1] != 0
}

pub proof fn lemma_pow_b_pos(n: nat)
    ensures
        pow_b(n) >= 1,
    decreases n,
{
    if n > 0 {
        lemma_pow_b_pos((n - 1) as nat);
    }
}

pub proof fn lemma_pow_b_mono(a: nat, b: nat)
    requires
        a <= b,
    ensures
        pow_b(a) <= pow_b(b),
    decreases b,
{
    if a < b {
        lemma_pow_b_mono(a, (b - 1) as nat);
        lemma_pow_b_pos((b - 1) as nat);
    }
}

/// Appending a limb adds its value at the weight of the old length.
pub proof fn lemma_bn_val_push(s: Seq<u64>, v: u64)
    ensures
        bn_val(s.push(v)) == bn_val(s) + (v as nat) * pow_b(s.len()),
    decreases s.len(),
{
    reveal_with_fuel(bn_val, 2);
    let t = s.push(v);
    if s.len() == 0 {
        assert(t.skip(1) =~= Seq::<u64>::empty());
        assert(t[0] == v);
        assert(bn_val(t.skip(1)) == 0);
        assert(bn_val(t) == v as nat + 0x1_0000_0000_0000_0000 * bn_val(t.skip(1)));
        assert(bn_val(t) == v as nat);
        assert(pow_b(s.len()) == 1);
        assert(bn_val(s) == 0);
    } else {
        assert(t.skip(1) =~= s.skip(1).push(v));
        lemma_bn_val_push(s.skip(1), v);
        assert(t[0] == s[0]);
        assert(bn_val(t) == s[0] as nat + 0x1_0000_0000_0000_0000 * bn_val(t.skip(1)));
        assert(bn_val(t.skip(1)) == bn_val(s.skip(1)) + (v as nat) * pow_b((s.len() - 1) as nat));
        assert(0x1_0000_0000_0000_0000 * ((v as nat) * pow_b((s.len() - 1) as nat)) == (v as nat)
            * (0x1_0000_0000_0000_0000 * pow_b((s.len() - 1) as nat))) by (nonlinear_arith);
        assert(pow_b(s.len()) == 0x1_0000_0000_0000_0000 * pow_b((s.len() - 1) as nat));
        assert(bn_val(s) == s[0] as nat + 0x1_0000_0000_0000_0000 * bn_val(s.skip(1)));
    }
}

/// A sequence of `n` limbs has value below `(2^64)^n`.
pub proof fn lemma_bn_val_bound(s: Seq<u64>)
    ensures
        bn_val(s) < pow_b(s.len()),
    decreases s.len(),
{
    if s.len() > 0 {
        lemma_bn_val_bound(s.skip(1));
    }
}

/// The value splits at any index into a low part and a weighted high part.
pub proof fn lemma_bn_val_split(s: Seq<u64>, i: int)
    requires
        0 <= i <= s.len(),
    ensures
        bn_val(s) == bn_val(s.take(i)) + pow_b(i as nat) * bn_val(s.skip(i)),
    decreases i,
{
    reveal_with_fuel(bn_val, 2);
    if i == 0 {
        assert(s.take(0) =~= Seq::<u64>::empty());
        assert(s.skip(0) =~= s);
        assert(bn_val(s.take(0)) == 0);
        assert(pow_b(0) * bn_val(s.skip(0)) == bn_val(s)) by (nonlinear_arith)
            requires
                pow_b(0) == 1,
                bn_val(s.skip(0)) == bn_val(s),
        ;
    } else {
        lemma_bn_val_split(s.skip(1), i - 1);
        assert(s.skip(1).take(i - 1) =~= s.take(i).skip(1));
        assert(s.skip(1).skip(i - 1) =~= s.skip(i));
        assert(s.take(i)[0] == s[0]);
        assert(bn_val(s) == s[0] as nat + 0x1_0000_0000_0000_0000 * bn_val(s.skip(1)));
        assert(bn_val(s.take(i)) == s[0] as nat + 0x1_0000_0000_0000_0000 * bn_val(
            s.take(i).skip(1),
        ));
        assert(bn_val(s.skip(1)) == bn_val(s.take(i).skip(1)) + pow_b((i - 1) as nat) * bn_val(
            s.skip(i),
        ));
        assert(pow_b(i as nat) == 0x1_0000_0000_0000_0000 * pow_b((i - 1) as nat));
        assert(0x1_0000_0000_0000_0000 * (bn_val(s.take(i).skip(1)) + pow_b((i - 1) as nat)
            * bn_val(s.skip(i))) == 0x1_0000_0000_0000_0000 * bn_val(s.take(i).skip(1)) + (
        0x1_0000_0000_0000_0000 * pow_b((i - 1) as nat)) * bn_val(s.skip(i)))
            by (nonlinear_arith);
    }
}

/// Removing a trailing limb removes its weighted value.
pub proof fn lemma_bn_val_drop_last(s: Seq<u64>)
    requires
        s.len() > 0,
    ensures
        bn_val(s) == bn_val(s.drop_last()) + (s.last() as nat) * pow_b((s.len() - 1) as nat),
{
    assert(s =~= s.drop_last().push(s.last()));
    lemma_bn_val_push(s.drop_last(), s.last());
}

/// A normalized, non-empty sequence is at least the weight of its top limb.
pub proof fn lemma_bn_norm_lower(s: Seq<u64>)
    requires
        s.len() > 0,
        s[s.len() - 1] != 0,
    ensures
        bn_val(s) >= pow_b((s.len() - 1) as nat),
{
    lemma_bn_val_drop_last(s);
    assert((s.last() as nat) * pow_b((s.len() - 1) as nat) >= pow_b((s.len() - 1) as nat))
        by (nonlinear_arith)
        requires
            s.last() >= 1,
            pow_b((s.len() - 1) as nat) >= 0,
    ;
}

/// Of two normalized sequences, the one with fewer limbs is smaller.
pub proof fn lemma_bn_lt_lens(x: Seq<u64>, y: Seq<u64>)
    requires
        is_norm(y),
        x.len() < y.len(),
    ensures
        bn_val(x) < bn_val(y),
{
    lemma_bn_val_bound(x);
    lemma_pow_b_mono(x.len(), (y.len() - 1) as nat);
    lemma_bn_norm_lower(y);
}

/// If two equally long sequences agree above index `i` and differ at `i`,
/// the one with the smaller limb at `i` is smaller.
pub proof fn lemma_bn_lt_at(x: Seq<u64>, y: Seq<u64>, i: int)
    requires
        x.len() == y.len(),
        0 <= i < x.len(),
        x.skip(i + 1) == y.skip(i + 1),
        x[i] < y[i],
    ensures
        bn_val(x) < bn_val(y),
{
    lemma_bn_val_split(x, i);
    lemma_bn_val_split(y, i);
    assert(x.skip(i).skip(1) =~= x.skip(i + 1));
    assert(y.skip(i).skip(1) =~= y.skip(i + 1));
    assert(x.skip(i)[0] == x[i]);
    assert(y.skip(i)[0] == y[i]);
    lemma_bn_val_bound(x.take(i));
    let u = bn_val(x.skip(i + 1));
    assert(bn_val(x.skip(i)) == x[i] as nat + 0x1_0000_0000_0000_0000 * u);
    assert(bn_val(y.skip(i)) == y[i] as nat + 0x1_0000_0000_0000_0000 * u);
    assert(pow_b(i as nat) * bn_val(y.skip(i)) >= pow_b(i as nat) * bn_val(x.skip(i)) + pow_b(
        i as nat,
    )) by (nonlinear_arith)
        requires
            bn_val(y.skip(i)) >= bn_val(x.skip(i)) + 1,
            pow_b(i as nat) >= 1,
    ;
    lemma_pow_b_pos(i as nat);
}

/// The shared carry-step fact behind `bn_scale` and `bn_add`: if the result
/// so far and the carry account for the prefix scaled by `a`, and the digit
/// step satisfies `low + 2^64 * nc == xi * a + carry`, then the extended
/// result and new carry account for the extended prefix.
proof fn lemma_carry_step(rv: int, rv2: int, xv: int, xv2: int, p: int, low: int, nc: int, carry: int, xi: int, a: int)
    requires
        rv2 == rv + low * p,
        rv + p * carry == xv * a,
        xv2 == xv + xi * p,
        low + 0x1_0000_0000_0000_0000 * nc == xi * a + carry,
        p >= 0,
    ensures
        rv2 + (0x1_0000_0000_0000_0000 * p) * nc == xv2 * a,
{
    assert(rv2 + (0x1_0000_0000_0000_0000 * p) * nc == xv2 * a) by (nonlinear_arith)
        requires
            rv2 == rv + low * p,
            rv + p * carry == xv * a,
            xv2 == xv + xi * p,
            low + 0x1_0000_0000_0000_0000 * nc == xi * a + carry,
    ;
}

/// Strips leading zero limbs; the value is unchanged.
fn bn_norm(v: &mut Vec<u64>)
    ensures
        bn_val(final(v)@) == bn_val(old(v)@),
        is_norm(final(v)@),
{
    while v.len() > 0 && v[v.len() - 1] == 0
        invariant
            bn_val(v@) == bn_val(old(v)@),
        decreases v.len(),
    {
        proof {
            lemma_bn_val_drop_last(v@);
            assert((v@.last() as nat) * pow_b((v@.len() - 1) as nat) == 0) by (nonlinear_arith)
                requires
                    v@.last() == 0,
            ;
        }
        let ghost prev = v@;
        v.pop();
        proof {
            assert(v@ =~= prev.drop_last());
        }
    }
}

/// A single-limb (or empty) big natural with the given value.
pub fn bn_from(x: u64) -> (r: Vec<u64>)
    ensures
        bn_val(r@) == x,
        is_norm(r@),
{
    let mut r: Vec<u64> = Vec::new();
    proof {
        reveal_with_fuel(bn_val, 2);
        assert(r@ =~= Seq::<u64>::empty());
    }
    if x > 0 {
        r.push(x);
        proof {
            reveal_with_fuel(bn_val, 2);
            assert(r@.skip(1) =~= Seq::<u64>::empty());
        }
    }
    r
}

/// Multiplies a big natural by a 64-bit word, exactly.
pub fn bn_scale(x: &Vec<u64>, a: u64) -> (r: Vec<u64>)
    ensures
        bn_val(r@) == bn_val(x@) * a,
        is_norm(r@),
{
    let mut r: Vec<u64> = Vec::new();
    let mut carry: u64 = 0;
    let mut i: usize = 0;
    proof {
        assert(r@ =~= Seq::<u64>::empty());
        assert(x@.take(0) =~= Seq::<u64>::empty());
        assert(bn_val(Seq::<u64>::empty()) == 0);
    }
    while i < x.len()
        invariant
            0 <= i <= x@.len(),
            r@.len() == i,
            bn_val(r@) + pow_b(i as nat) * (carry as nat) == bn_val(x@.take(i as int)) * (
            a as nat),
        decreases x@.len() - i,
    {
        let xi = x[i];
        proof {
            assert((xi as int) * (a as int) <= 0xFFFF_FFFF_FFFF_FFFF * 0xFFFF_FFFF_FFFF_FFFF)
                by (nonlinear_arith)
                requires
                    0 <= xi <= 0xFFFF_FFFF_FFFF_FFFFu64,
                    0 <= a <= 0xFFFF_FFFF_FFFF_FFFFu64,
            ;
        }
        let t: u128 = (xi as u128) * (a as u128) + (carry as u128);
        proof {
            assert((t as int) / 0x1_0000_0000_0000_0000 < 0x1_0000_0000_0000_0000)
                by (nonlinear_arith)
                requires
                    0 <= (t as int) && (t as int) < 0x1_0000_0000_0000_0000 * 0x1_0000_0000_0000_0000,
            ;
        }
        let low: u64 = (t % 0x1_0000_0000_0000_0000) as u64;
        let nc: u64 = (t / 0x1_0000_0000_0000_0000) as u64;
        proof {
            let ghost rv = bn_val(r@);
            let ghost xv = bn_val(x@.take(i as int));
            lemma_bn_val_push(r@, low);
            assert(x@.take(i as int + 1) =~= x@.take(i as int).push(xi));
            lemma_bn_val_push(x@.take(i as int), xi);
            lemma_carry_step(
                rv as int,
                bn_val(r@.push(low)) as int,
                xv as int,
                bn_val(x@.take(i as int + 1)) as int,
                pow_b(i as nat) as int,
                low as int,
                nc as int,
                carry as int,
                xi as int,
                a as int,
            );
        }
        r.push(low);
        carry = nc;
        i = i + 1;
    }
    proof {
        assert(x@.take(x@.len() as int) =~= x@);
    }
    if carry > 0 {
        proof {
            lemma_bn_val_push(r@, carry);
            assert((carry as nat) * pow_b(r@.len()) == pow_b(r@.len()) * (carry as nat))
                by (nonlinear_arith);
        }
        r.push(carry);
    }
    bn_norm(&mut r);
    r
}

/// Adds two big naturals, exactly.
pub fn bn_add(x: &Vec<u64>, y: &Vec<u64>) -> (r: Vec<u64>)
    ensures
        bn_val(r@) == bn_val(x@) + bn_val(y@),
        is_norm(r@),
{
    let n = if x.len() > y.len() {
        x.len()
    } else {
        y.len()
    };
    let mut r: Vec<u64> = Vec::new();
    let mut carry: u64 = 0;
    let mut i: usize = 0;
    proof {
        assert(r@ =~= Seq::<u64>::empty());
        assert(x@.take(0) =~= Seq::<u64>::empty());
        assert(y@.take(0) =~= Seq::<u64>::empty());
        assert(bn_val(Seq::<u64>::empty()) == 0);
    }
    while i < n
        invariant
            0 <= i <= n,
            x@.len() <= n,
            y@.len() <= n,
            r@.len() == i,
            bn_val(r@) + pow_b(i as nat) * (carry as nat) == prefix_val(x@, i as int) + prefix_val(
                y@,
                i as int,
            ),
        decreases n - i,
    {
        let xi: u64 = if i < x.len() {
            x[i]
        } else {
            0
        };
        let yi: u64 = if i < y.len() {
            y[i]
        } else {
            0
        };
        let t: u128 = xi as u128 + yi as u128 + carry as u128;
        proof {
            assert((t as int) / 0x1_0000_0000_0000_0000 < 0x1_0000_0000_0000_0000)
                by (nonlinear_arith)
                requires
                    0 <= (t as int) && (t as int) < 0x1_0000_0000_0000_0000 * 0x1_0000_0000_0000_0000,
            ;
        }
        let low: u64 = (t % 0x1_0000_0000_0000_0000) as u64;
        let nc: u64 = (t / 0x1_0000_0000_0000_0000) as u64;
        proof {
            let ghost rv = bn_val(r@);
            let ghost xv = prefix_val(x@, i as int);
            let ghost yv = prefix_val(y@, i as int);
            lemma_bn_val_push(r@, low);
            lemma_prefix_val_step(x@, i as int, xi);
            lemma_prefix_val_step(y@, i as int, yi);
            assert((xi as int + yi as int) * (pow_b(i as nat) as int) == (xi as int) * (pow_b(
                i as nat,
            ) as int) + (yi as int) * (pow_b(i as nat) as int)) by (nonlinear_arith);
            lemma_carry_step(
                rv as int,
                bn_val(r@.push(low)) as int,
                (xv + yv) as int,
                (prefix_val(x@, i as int + 1) + prefix_val(y@, i as int + 1)) as int,
                pow_b(i as nat) as int,
                low as int,
                nc as int,
                carry as int,
                (xi + yi) as int,
                1int,
            );
        }
        r.push(low);
        carry = nc;
        i = i + 1;
    }
    proof {
        lemma_prefix_val_full(x@, n as int);
        lemma_prefix_val_full(y@, n as int);
    }
    if carry > 0 {
        proof {
            lemma_bn_val_push(r@, carry);
            assert((carry as nat) * pow_b(r@.len()) == pow_b(r@.len()) * (carry as nat))
                by (nonlinear_arith);
        }
        r.push(carry);
    }
    bn_norm(&mut r);
    r
}

/// The value of the first `i` limbs; beyond the length, the whole value.
pub open spec fn prefix_val(s: Seq<u64>, i: int) -> nat {
    if i <= s.len() {
        bn_val(s.take(i))
    } else {
        bn_val(s)
    }
}

/// One padded-limb step of the prefix value: the limb read at index `i`
/// (zero beyond the length) adds its weighted value.
proof fn lemma_prefix_val_step(s: Seq<u64>, i: int, xi: u64)
    requires
        0 <= i,
        xi == if i < s.len() {
            s[i]
        } else {
            0u64
        },
    ensures
        prefix_val(s, i + 1) == prefix_val(s, i) + (xi as nat) * pow_b(i as nat),
{
    if i < s.len() {
        assert(s.take(i + 1) =~= s.take(i).push(xi));
        lemma_bn_val_push(s.take(i), xi);
    } else {
        if i == s.len() {
            assert(s.take(i) =~= s);
        }
        assert((0 as nat) * pow_b(i as nat) == 0) by (nonlinear_arith);
    }
}

proof fn lemma_prefix_val_full(s: Seq<u64>, n: int)
    requires
        s.len() <= n,
    ensures
        prefix_val(s, n) == bn_val(s),
{
    if n == s.len() {
        assert(s.take(n) =~= s);
    }
}

/// Exact comparison of two normalized big naturals.
pub fn bn_lt(x: &Vec<u64>, y: &Vec<u64>) -> (r: bool)
    requires
        is_norm(x@),
        is_norm(y@),
    ensures
        r == (bn_val(x@) < bn_val(y@)),
{
    if x.len() < y.len() {
        proof {
            lemma_bn_lt_lens(x@, y@);
        }
        return true;
    }
    if y.len() < x.len() {
        proof {
            lemma_bn_lt_lens(y@, x@);
        }
        return false;
    }
    let mut i: usize = x.len();
    proof {
        assert(x@.skip(i as int) =~= y@.skip(i as int));
    }
    while i > 0
        invariant
            x@.len() == y@.len(),
            0 <= i <= x@.len(),
            x@.skip(i as int) == y@.skip(i as int),
        decreases i,
    {
        i = i - 1;
        if x[i] < y[i] {
            proof {
                lemma_bn_lt_at(x@, y@, i as int);
            }
            return true;
        }
        if y[i] < x[i] {
            proof {
                lemma_bn_lt_at(y@, x@, i as int);
            }
            return false;
        }
        proof {
            assert forall|j: int| 0 <= j < x@.len() - i implies x@.skip(i as int)[j] == y@.skip(
                i as int,
            )[j] by {
                if j > 0 {
                    assert(x@.skip(i as int + 1)[j - 1] == y@.skip(i as int + 1)[j - 1]);
                }
            }
            assert(x@.skip(i as int) =~= y@.skip(i as int));
        }
    }
    proof {
        assert(x@.skip(0) =~= x@);
        assert(y@.skip(0) =~= y@);
    }
    false
}

} // verus!
