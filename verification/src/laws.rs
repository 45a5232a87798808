//! The enumeration laws of a full session, stated over the counter model
//! that the contracts of `SubsetIter::next` use: a session that starts at
//! value 0 and increments once per report steps through the patterns
//! `pattern_of(1, n), ..., pattern_of(2^n - 1, n)`, with `pattern_of(0, n)`
//! standing for the empty subset reported first when it is included.

use vstd::prelude::*;
use crate::counter::{
    all_set, lemma_all_set_value, lemma_none_set_value, lemma_pattern_of, lemma_pow2_pos,
    lemma_value_below_pow2, lemma_value_injective, none_set, pattern_of, pow2, value_of,
};
use crate::generator::project;

verus! {

/// The indices of the set bits of a pattern, in ascending order.
pub open spec fn selected_indices(bits: Seq<bool>) -> Seq<int>
    decreases bits.len(),
{
    if bits.len() == 0 {
        Seq::empty()
    } else if bits.last() {
        selected_indices(bits.drop_last()).push(bits.len() - 1)
    } else {
        selected_indices(bits.drop_last())
    }
}

/// Law: a reported subset lists its items in ascending original-index order,
/// whatever the pattern: `project(data, bits)` reads `data` at
/// `selected_indices(bits)`, which are strictly increasing and are exactly
/// the set bits of the pattern.
pub proof fn lemma_subset_keeps_index_order<T>(data: Seq<T>, bits: Seq<bool>)
    ensures
        project(data, bits).len() == selected_indices(bits).len(),
        forall|k: int|
            0 <= k < selected_indices(bits).len() ==> 0 <= #[trigger] selected_indices(bits)[k]
                < bits.len() && bits[selected_indices(bits)[k]] && project(data, bits)[k] == data[selected_indices(bits)[k]],
        forall|k1: int, k2: int|
            0 <= k1 < k2 < selected_indices(bits).len() ==> #[trigger] selected_indices(bits)[k1]
                < #[trigger] selected_indices(bits)[k2],
        forall|i: int|
            0 <= i < bits.len() && #[trigger] bits[i] ==> exists|k: int|
                0 <= k < selected_indices(bits).len() && #[trigger] selected_indices(bits)[k] == i,
    decreases bits.len(),
{
    if bits.len() > 0 {
        let pre = bits.drop_last();
        lemma_subset_keeps_index_order(data, pre);
        assert(forall|j: int| 0 <= j < pre.len() ==> pre[j] == bits[j]);
        assert forall|i: int|
            0 <= i < bits.len() && #[trigger] bits[i] implies exists|k: int|
            0 <= k < selected_indices(bits).len() && #[trigger] selected_indices(bits)[k]
                == i by {
            if i < pre.len() {
                let k0 = choose|k: int|
                    0 <= k < selected_indices(pre).len() && selected_indices(pre)[k] == i;
                assert(selected_indices(bits)[k0] == i);
            } else {
                assert(selected_indices(bits)[selected_indices(bits).len() - 1] == i);
            }
        }
    }
}

/// Law: a full session that skips the empty subset reports the patterns of
/// the counter values 1 through 2^n - 1, so it reports exactly 2^n - 1
/// subsets; each is a non-empty selection of the n indices, they are
/// pairwise distinct, and every non-empty selection is reported exactly
/// once, namely as the pattern of its own value.
pub proof fn lemma_full_session_without_empty(n: nat)
    ensures
        forall|k: nat|
            1 <= k < pow2(n) ==> (#[trigger] pattern_of(k, n)).len() == n && !none_set(
                pattern_of(k, n),
            ),
        forall|j: nat, k: nat|
            1 <= j < k < pow2(n) ==> pattern_of(j, n) != pattern_of(k, n),
        forall|bits: Seq<bool>|
            bits.len() == n && !none_set(bits) ==> 1 <= #[trigger] value_of(bits) < pow2(n)
                && pattern_of(value_of(bits), n) == bits,
        all_set(pattern_of((pow2(n) - 1) as nat, n)),
{
    assert(all_set(pattern_of((pow2(n) - 1) as nat, n))) by {
        lemma_pow2_pos(n);
        lemma_pattern_of((pow2(n) - 1) as nat, n);
        lemma_all_set_value(pattern_of((pow2(n) - 1) as nat, n));
    }
    assert forall|k: nat|
        1 <= k < pow2(n) implies (#[trigger] pattern_of(k, n)).len() == n && !none_set(
        pattern_of(k, n),
    ) by {
        lemma_pattern_of(k, n);
        lemma_none_set_value(pattern_of(k, n));
    }
    assert forall|j: nat, k: nat|
        1 <= j < k < pow2(n) implies pattern_of(j, n) != pattern_of(k, n) by {
        lemma_pattern_of(j, n);
        lemma_pattern_of(k, n);
    }
    assert forall|bits: Seq<bool>|
        bits.len() == n && !none_set(bits) implies 1 <= #[trigger] value_of(bits) < pow2(n)
        && pattern_of(value_of(bits), n) == bits by {
        lemma_value_below_pow2(bits);
        lemma_none_set_value(bits);
        lemma_pattern_of(value_of(bits), n);
        lemma_value_injective(pattern_of(value_of(bits), n), bits);
    }
}

/// Law: a full session that includes the empty subset reports the patterns
/// of the counter values 0 through 2^n - 1, so it reports exactly 2^n
/// subsets; the first is the empty selection, they are pairwise distinct,
/// and every selection of the n indices is reported exactly once, namely as
/// the pattern of its own value.
pub proof fn lemma_full_session_with_empty(n: nat)
    ensures
        forall|k: nat| k < pow2(n) ==> (#[trigger] pattern_of(k, n)).len() == n,
        none_set(pattern_of(0, n)),
        forall|j: nat, k: nat| j < k < pow2(n) ==> pattern_of(j, n) != pattern_of(k, n),
        forall|bits: Seq<bool>|
            bits.len() == n ==> #[trigger] value_of(bits) < pow2(n) && pattern_of(
                value_of(bits),
                n,
            ) == bits,
        all_set(pattern_of((pow2(n) - 1) as nat, n)),
{
    assert(all_set(pattern_of((pow2(n) - 1) as nat, n))) by {
        lemma_pow2_pos(n);
        lemma_pattern_of((pow2(n) - 1) as nat, n);
        lemma_all_set_value(pattern_of((pow2(n) - 1) as nat, n));
    }
    assert forall|k: nat| k < pow2(n) implies (#[trigger] pattern_of(k, n)).len() == n by {
        lemma_pattern_of(k, n);
    }
    assert(none_set(pattern_of(0, n))) by {
        lemma_pow2_pos(n);
        lemma_pattern_of(0, n);
        lemma_none_set_value(pattern_of(0, n));
    }
    assert forall|j: nat, k: nat| j < k < pow2(n) implies pattern_of(j, n) != pattern_of(
        k,
        n,
    ) by {
        lemma_pattern_of(j, n);
        lemma_pattern_of(k, n);
    }
    assert forall|bits: Seq<bool>|
        bits.len() == n implies #[trigger] value_of(bits) < pow2(n) && pattern_of(
        value_of(bits),
        n,
    ) == bits by {
        lemma_value_below_pow2(bits);
        lemma_pattern_of(value_of(bits), n);
        lemma_value_injective(pattern_of(value_of(bits), n), bits);
    }
}

} // verus!
