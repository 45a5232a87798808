//! The mathematics of the N-bit counter: the value of a bit pattern read as a
//! binary number, and the facts that make the counter a faithful enumeration
//! of all 2^N patterns.

use vstd::prelude::*;

verus! {

/// 2^n as a mathematical integer.
pub open spec fn pow2(n: nat) -> nat
    decreases n,
{
    if n == 0 {
        1
    } else {
        2 * pow2((n - 1) as nat)
    }
}

/// The value of a bit pattern read as an unsigned binary number, bit 0 least
/// significant.
pub open spec fn value_of(bits: Seq<bool>) -> nat
    decreases bits.len(),
{
    if bits.len() == 0 {
        0
    } else {
        (if bits[0] {
            1nat
        } else {
            0nat
        }) + 2 * value_of(bits.drop_first())
    }
}

/// Every bit of the pattern is set: the counter's terminal state.
pub open spec fn all_set(bits: Seq<bool>) -> bool {
    forall|i: int| 0 <= i < bits.len() ==> bits[i]
}

/// No bit of the pattern is set: the counter's starting state.
pub open spec fn none_set(bits: Seq<bool>) -> bool {
    forall|i: int| 0 <= i < bits.len() ==> !bits[i]
}

/// The n-bit pattern whose value is v, for v below 2^n; bit 0 least
/// significant.
pub open spec fn pattern_of(v: nat, n: nat) -> Seq<bool>
    decreases n,
{
    if n == 0 {
        Seq::empty()
    } else {
        seq![v % 2 == 1] + pattern_of(v / 2, (n - 1) as nat)
    }
}

pub proof fn lemma_pow2_pos(n: nat)
    ensures
        pow2(n) >= 1,
    decreases n,
{
    if n > 0 {
        lemma_pow2_pos((n - 1) as nat);
    }
}

/// An n-bit pattern's value is below 2^n.
pub proof fn lemma_value_below_pow2(bits: Seq<bool>)
    ensures
        value_of(bits) < pow2(bits.len()),
    decreases bits.len(),
{
    if bits.len() > 0 {
        lemma_value_below_pow2(bits.drop_first());
    }
}

/// Writing one bit moves the value by exactly that bit's weight.
pub proof fn lemma_value_update(bits: Seq<bool>, i: int, b: bool)
    requires
        0 <= i < bits.len(),
    ensures
        value_of(bits.update(i, b)) + (if bits[i] {
            pow2(i as nat)
        } else {
            0nat
        }) == value_of(bits) + (if b {
            pow2(i as nat)
        } else {
            0nat
        }),
    decreases i,
{
    let u = bits.update(i, b);
    if i == 0 {
        assert(u.drop_first() =~= bits.drop_first());
    } else {
        assert(u.drop_first() =~= bits.drop_first().update(i - 1, b));
        lemma_value_update(bits.drop_first(), i - 1, b);
        assert(pow2(i as nat) == 2 * pow2((i - 1) as nat));
    }
}

/// The counter is saturated exactly when its value is 2^n - 1.
pub proof fn lemma_all_set_value(bits: Seq<bool>)
    ensures
        all_set(bits) <==> value_of(bits) + 1 == pow2(bits.len()),
    decreases bits.len(),
{
    if bits.len() == 0 {
    } else {
        let rest = bits.drop_first();
        lemma_all_set_value(rest);
        lemma_value_below_pow2(rest);
        if all_set(bits) {
            assert forall|j: int| 0 <= j < rest.len() implies rest[j] by {
                assert(bits[j + 1]);
            }
        }
        if value_of(bits) + 1 == pow2(bits.len()) {
            assert(pow2(bits.len()) == 2 * pow2(rest.len()));
            assert(bits[0]);
            assert forall|i: int| 0 <= i < bits.len() implies bits[i] by {
                if i > 0 {
                    assert(rest[i - 1]);
                }
            }
        }
    }
}

/// The counter is all zero exactly when its value is 0.
pub proof fn lemma_none_set_value(bits: Seq<bool>)
    ensures
        none_set(bits) <==> value_of(bits) == 0,
    decreases bits.len(),
{
    if bits.len() == 0 {
    } else {
        let rest = bits.drop_first();
        lemma_none_set_value(rest);
        if none_set(bits) {
            assert forall|j: int| 0 <= j < rest.len() implies !rest[j] by {
                assert(!bits[j + 1]);
            }
        }
        if value_of(bits) == 0 {
            assert(!bits[0]);
            assert forall|i: int| 0 <= i < bits.len() implies !bits[i] by {
                if i > 0 {
                    assert(!rest[i - 1]);
                }
            }
        }
    }
}

/// Two patterns of the same width with the same value are the same pattern.
pub proof fn lemma_value_injective(a: Seq<bool>, b: Seq<bool>)
    requires
        a.len() == b.len(),
        value_of(a) == value_of(b),
    ensures
        a == b,
    decreases a.len(),
{
    if a.len() == 0 {
        assert(a =~= b);
    } else {
        assert(a[0] == b[0]);
        lemma_value_injective(a.drop_first(), b.drop_first());
        assert forall|i: int| 0 <= i < a.len() implies a[i] == b[i] by {
            if i > 0 {
                assert(a.drop_first()[i - 1] == b.drop_first()[i - 1]);
            }
        }
        assert(a =~= b);
    }
}

/// `pattern_of` really is the n-bit pattern with the given value.
pub proof fn lemma_pattern_of(v: nat, n: nat)
    requires
        v < pow2(n),
    ensures
        pattern_of(v, n).len() == n,
        value_of(pattern_of(v, n)) == v,
    decreases n,
{
    if n > 0 {
        assert(pow2(n) == 2 * pow2((n - 1) as nat));
        assert(v == 2 * (v / 2) + v % 2);
        lemma_pattern_of(v / 2, (n - 1) as nat);
        let p = pattern_of(v, n);
        assert(p.drop_first() =~= pattern_of(v / 2, (n - 1) as nat));
        assert(p[0] == (v % 2 == 1));
    }
}

} // verus!
