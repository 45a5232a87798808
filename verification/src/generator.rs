//! The subset generator and its iteration session: an N-bit counter that is
//! incremented once per advance and projected onto the borrowed items.

use vstd::prelude::*;
use bit_vec::BitVec;
use crate::bits::{bits_get, bits_len, bits_new, bits_of, bits_set};
use crate::counter::{
    all_set, lemma_all_set_value, lemma_none_set_value, lemma_pattern_of, lemma_value_below_pow2,
    lemma_value_injective, lemma_value_update, none_set, pattern_of, pow2, value_of,
};

verus! {

/// The items of `data` selected by the set bits of `bits`, in ascending index
/// order.
pub open spec fn project<T>(data: Seq<T>, bits: Seq<bool>) -> Seq<T>
    decreases bits.len(),
{
    if bits.len() == 0 {
        Seq::empty()
    } else if bits.last() {
        project(data, bits.drop_last()).push(data[bits.len() - 1])
    } else {
        project(data, bits.drop_last())
    }
}

/// The values behind a sequence of references.
pub open spec fn deref_all<T>(s: Seq<&T>) -> Seq<T> {
    s.map_values(|x: &T| *x)
}

/// A configured subset generator: a borrow of the items and the choice
/// whether the empty subset is reported too.
pub struct SubsetGenerator<'a, T> {
    data: &'a Vec<T>,
    with_emptyset: bool,
}

/// One traversal of the power set: a borrow of the items, the bit counter
/// whose set bits name the indices of the current subset, and the one-shot
/// flag for the pending empty-subset report.
pub struct SubsetIter<'a, T> {
    data: &'a Vec<T>,
    set: BitVec,
    with_emptyset: bool,
}

impl<'a, T> SubsetGenerator<'a, T> {
    /// The borrowed items.
    pub closed spec fn items(self) -> Seq<T> {
        self.data@
    }

    /// Whether sessions report the empty subset.
    pub closed spec fn includes_empty(self) -> bool {
        self.with_emptyset
    }

    /// Constructs a new generator over the (linearized) data set. If
    /// `with_emptyset` is true, its sessions also report the empty subset;
    /// otherwise only subsets with at least one element are reported.
    pub fn new(data: &'a Vec<T>, with_emptyset: bool) -> (r: SubsetGenerator<'a, T>)
        ensures
            r.items() == data@,
            r.includes_empty() == with_emptyset,
    {
        SubsetGenerator { data, with_emptyset }
    }

    /// Consumes the generator and returns a session over all the subsets. The
    /// underlying data set is only borrowed, so the subsets still hold
    /// references. The session reports the empty subset if (and only if) the
    /// generator was configured to include it.
    pub fn into_iter(self) -> (r: SubsetIter<'a, T>)
        ensures
            r.wf(),
            r.items() == self.items(),
            r.empty_pending() == self.includes_empty(),
            none_set(r.pattern()),
            value_of(r.pattern()) == 0,
    {
        let len: usize = self.data.len();
        let set = bits_new(len, false);
        proof {
            lemma_none_set_value(bits_of(set));
        }
        SubsetIter { data: self.data, set, with_emptyset: self.with_emptyset }
    }

    /// Returns a session over all the subsets of the data set, leaving the
    /// generator usable. The session reports the empty subset if (and only
    /// if) the generator was configured to include it.
    pub fn iter(&self) -> (r: SubsetIter<'a, T>)
        ensures
            r.wf(),
            r.items() == self.items(),
            r.empty_pending() == self.includes_empty(),
            none_set(r.pattern()),
            value_of(r.pattern()) == 0,
    {
        let len: usize = self.data.len();
        let set = bits_new(len, false);
        proof {
            lemma_none_set_value(bits_of(set));
        }
        SubsetIter { data: self.data, set, with_emptyset: self.with_emptyset }
    }
}

impl<'a, T> SubsetIter<'a, T> {
    /// The borrowed items.
    pub closed spec fn items(self) -> Seq<T> {
        self.data@
    }

    /// The counter's current bit pattern, bit i selecting item i.
    pub closed spec fn pattern(self) -> Seq<bool> {
        bits_of(self.set)
    }

    /// Whether the one-shot empty-subset report is still pending.
    pub closed spec fn empty_pending(self) -> bool {
        self.with_emptyset
    }

    /// The session's counter is exactly one bit wide per item.
    pub open spec fn wf(self) -> bool {
        self.pattern().len() == self.items().len()
    }

    /// Terminal state: nothing is pending and the counter is saturated, so no
    /// further subset will be reported.
    pub open spec fn exhausted(self) -> bool {
        !self.empty_pending() && all_set(self.pattern())
    }

    /// Adds 1 to the bit counter, which selects the next subset. Returns
    /// false without touching the counter if all bits were already set, that
    /// is, if the subsets are exhausted.
    fn next_set(&mut self) -> (r: bool)
        requires
            old(self).wf(),
        ensures
            final(self).wf(),
            final(self).items() == old(self).items(),
            final(self).empty_pending() == old(self).empty_pending(),
            final(self).pattern().len() == old(self).pattern().len(),
            r == !all_set(old(self).pattern()),
            !r ==> final(self).pattern() == old(self).pattern(),
            r ==> value_of(final(self).pattern()) == value_of(old(self).pattern()) + 1,
    {
        let n: usize = bits_len(&self.set);
        let mut all: bool = true;
        let mut i: usize = 0;
        while i < n
            invariant
                n == bits_of(self.set).len(),
                i <= n,
                all ==> forall|j: int| 0 <= j < i ==> bits_of(self.set)[j],
                !all ==> !all_set(bits_of(self.set)),
            decreases n - i,
        {
            let b = bits_get(&self.set, i).unwrap();
            proof {
                if all && b {
                    assert forall|j: int| 0 <= j < i + 1 implies bits_of(self.set)[j] by {}
                } else if all {
                    assert(!bits_of(self.set)[i as int]);
                }
            }
            all = all && b;
            i = i + 1;
        }
        if all {
            return false;
        }
        let ghost orig = bits_of(self.set);
        let mut k: usize = 0;
        while k < n
            invariant_except_break
                n == bits_of(self.set).len(),
                n == orig.len(),
                self.data == old(self).data,
                self.with_emptyset == old(self).with_emptyset,
                k <= n,
                !all_set(orig),
                forall|j: int| k <= j < n ==> bits_of(self.set)[j] == orig[j],
                forall|j: int| 0 <= j < k ==> orig[j] && !bits_of(self.set)[j],
                value_of(bits_of(self.set)) + pow2(k as nat) == value_of(orig) + 1,
            ensures
                n == bits_of(self.set).len(),
                self.data == old(self).data,
                self.with_emptyset == old(self).with_emptyset,
                value_of(bits_of(self.set)) == value_of(orig) + 1,
            decreases n - k,
        {
            let b = bits_get(&self.set, k).unwrap();
            let ghost before = bits_of(self.set);
            if b {
                bits_set(&mut self.set, k, false);
                proof {
                    lemma_value_update(before, k as int, false);
                    assert(pow2((k + 1) as nat) == 2 * pow2(k as nat));
                }
                k = k + 1;
            } else {
                bits_set(&mut self.set, k, true);
                proof {
                    lemma_value_update(before, k as int, true);
                }
                break;
            }
        }
        true
    }

    /// Reports the next subset, or `None` once the subsets are exhausted;
    /// after that every further call keeps returning `None`. The pending
    /// empty subset comes first and consumes no counter increment; every
    /// other report increments the counter by one and lists the items of its
    /// set bits in ascending index order.
    pub fn next(&mut self) -> (r: Option<Vec<&'a T>>)
        requires
            old(self).wf(),
        ensures
            final(self).wf(),
            final(self).items() == old(self).items(),
            final(self).pattern().len() == old(self).pattern().len(),
            old(self).empty_pending() ==> (r matches Some(v) && v@.len() == 0
                && !final(self).empty_pending() && final(self).pattern() == old(self).pattern()),
            !old(self).empty_pending() ==> final(self).empty_pending() == old(
                self,
            ).empty_pending(),
            old(self).exhausted() ==> (r is None && final(self).pattern() == old(self).pattern()
                && final(self).exhausted()),
            !old(self).empty_pending() && !all_set(old(self).pattern()) ==> (r matches Some(v)
                && value_of(final(self).pattern()) == value_of(old(self).pattern()) + 1
                && final(self).pattern() == pattern_of(
                value_of(old(self).pattern()) + 1,
                old(self).pattern().len(),
            ) && deref_all(v@) == project(old(self).items(), final(self).pattern())),
    {
        if self.with_emptyset {
            self.with_emptyset = false;
            return Some(Vec::new());
        }
        let ghost orig = bits_of(self.set);
        if self.next_set() {
            proof {
                let cur = bits_of(self.set);
                lemma_value_below_pow2(cur);
                lemma_pattern_of(value_of(cur), cur.len());
                lemma_value_injective(cur, pattern_of(value_of(cur), cur.len()));
            }
            let d: &'a Vec<T> = self.data;
            let n: usize = bits_len(&self.set);
            let mut result: Vec<&'a T> = Vec::new();
            let mut i: usize = 0;
            while i < n
                invariant
                    n == bits_of(self.set).len(),
                    n == d@.len(),
                    i <= n,
                    deref_all(result@) == project(d@, bits_of(self.set).take(i as int)),
                decreases n - i,
            {
                let b = bits_get(&self.set, i).unwrap();
                let ghost prev = result@;
                let ghost t = bits_of(self.set).take(i + 1);
                if b {
                    result.push(&d[i]);
                }
                proof {
                    assert(t.drop_last() =~= bits_of(self.set).take(i as int));
                    assert(t.last() == bits_of(self.set)[i as int]);
                    if b {
                        assert(deref_all(result@) =~= deref_all(prev).push(d@[i as int]));
                    }
                }
                i = i + 1;
            }
            proof {
                assert(bits_of(self.set).take(n as int) =~= bits_of(self.set));
            }
            Some(result)
        } else {
            None
        }
    }

    /// Drives the session to exhaustion, consuming it, and returns how many
    /// subsets it still reports: one per counter value left below 2^n - 1,
    /// plus the pending empty subset if there is one. On a fresh session that
    /// is 2^n - 1 subsets, or 2^n with the empty subset included.
    pub fn count(self) -> (r: usize)
        requires
            self.wf(),
            pow2(self.items().len()) <= usize::MAX,
        ensures
            r + value_of(self.pattern()) == pow2(self.items().len()) - 1 + (if self
                .empty_pending() {
                1int
            } else {
                0int
            }),
    {
        let ghost n0: nat = self.items().len();
        let ghost v0: nat = value_of(self.pattern());
        let ghost p0: bool = self.empty_pending();
        proof {
            lemma_value_below_pow2(self.pattern());
        }
        let mut it = self;
        let mut c: usize = 0;
        loop
            invariant_except_break
                it.wf(),
                it.items().len() == n0,
                value_of(it.pattern()) < pow2(n0),
                pow2(n0) <= usize::MAX,
                c + (pow2(n0) - 1 - value_of(it.pattern())) + (if it.empty_pending() {
                    1int
                } else {
                    0int
                }) == (pow2(n0) - 1 - v0) + (if p0 {
                    1int
                } else {
                    0int
                }),
            ensures
                it.wf(),
                it.items().len() == n0,
                value_of(it.pattern()) < pow2(n0),
                !it.empty_pending(),
                all_set(it.pattern()),
                c + (pow2(n0) - 1 - value_of(it.pattern())) == (pow2(n0) - 1 - v0) + (if p0 {
                    1int
                } else {
                    0int
                }),
            decreases (pow2(n0) - value_of(it.pattern())) + (if it.empty_pending() {
                1int
            } else {
                0int
            }),
        {
            let ghost prev = it.pattern();
            let step = it.next();
            if step.is_some() {
                proof {
                    lemma_all_set_value(prev);
                    lemma_value_below_pow2(it.pattern());
                }
                c = c + 1;
            } else {
                break;
            }
        }
        proof {
            lemma_all_set_value(it.pattern());
        }
        c
    }
}

} // verus!
