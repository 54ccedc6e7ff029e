//! Small sets of account or application identifiers, kept as vectors
//! without duplicates.
//!
//! The admin set, the pending-review queue and the featured list all use
//! this shape. Removal swaps the last entry into the removed slot and
//! shrinks by one, so the order of the remaining entries is not
//! preserved; no caller may rely on it.

use vstd::prelude::*;

verus! {

/// No identifier occurs twice.
pub open spec fn nodup(s: Seq<u64>) -> bool {
    forall|i: int, j: int| 0 <= i < j < s.len() ==> s[i] != s[j]
}

/// Linear membership scan.
pub fn roster_contains(v: &Vec<u64>, x: u64) -> (r: bool)
    ensures
        r == v@.contains(x),
{
    let mut i: usize = 0;
    while i < v.len()
        invariant
            i <= v@.len(),
            forall|j: int| 0 <= j < i ==> v@[j] != x,
        decreases v@.len() - i,
    {
        if v[i] == x {
            return true;
        }
        i += 1;
    }
    false
}

/// Appends `x` unless it is already present; the set grows by at most one.
pub fn roster_add(v: &mut Vec<u64>, x: u64)
    requires
        nodup(old(v)@),
    ensures
        nodup(final(v)@),
        final(v)@ == (if old(v)@.contains(x) {
            old(v)@
        } else {
            old(v)@.push(x)
        }),
        final(v)@.contains(x),
        forall|y: u64| y != x ==> final(v)@.contains(y) == old(v)@.contains(y),
{
    if !roster_contains(v, x) {
        v.push(x);
        proof {
            assert(v@[v@.len() - 1] == x);
            assert forall|y: u64| y != x implies v@.contains(y) == old(v)@.contains(y) by {
                if old(v)@.contains(y) {
                    let k = choose|k: int| 0 <= k < old(v)@.len() && old(v)@[k] == y;
                    assert(v@[k] == y);
                } else if v@.contains(y) {
                    let k = choose|k: int| 0 <= k < v@.len() && v@[k] == y;
                    assert(k < old(v)@.len());
                    assert(old(v)@[k] == y);
                }
            }
        }
    }
}

/// Removes `x` if present, by swapping the last entry into its slot.
pub fn roster_remove(v: &mut Vec<u64>, x: u64)
    requires
        nodup(old(v)@),
    ensures
        nodup(final(v)@),
        !final(v)@.contains(x),
        forall|y: u64| y != x ==> final(v)@.contains(y) == old(v)@.contains(y),
        final(v)@.len() == (if old(v)@.contains(x) {
            old(v)@.len() - 1
        } else {
            old(v)@.len() as int
        }),
{
    let ghost orig = v@;
    let mut i: usize = 0;
    while i < v.len()
        invariant
            v@ == orig,
            orig == old(v)@,
            nodup(orig),
            i <= orig.len(),
            forall|j: int| 0 <= j < i ==> orig[j] != x,
        decreases orig.len() - i,
    {
        if v[i] == x {
            let last = v.len() - 1;
            v.swap_remove(i);
            proof {
                let after = v@;
                assert(after == orig.update(i as int, orig.last()).drop_last());
                assert(after.len() == last);
                assert forall|y: u64| y != x implies after.contains(y) == orig.contains(y) by {
                    if orig.contains(y) {
                        let k = choose|k: int| 0 <= k < orig.len() && orig[k] == y;
                        assert(k != i);
                        if k < last {
                            assert(after[k] == y);
                        } else {
                            // y sat in the last slot, which moved into slot i.
                            assert(orig[i as int] == x);
                            assert(i < last);
                            assert(after[i as int] == y);
                        }
                    } else if after.contains(y) {
                        let k = choose|k: int| 0 <= k < after.len() && after[k] == y;
                        if k == i {
                            assert(orig[last as int] == y);
                        } else {
                            assert(orig[k] == y);
                        }
                    }
                }
                assert(!after.contains(x)) by {
                    if after.contains(x) {
                        let k = choose|k: int| 0 <= k < after.len() && after[k] == x;
                        assert(0 <= k < last);
                        assert(orig[i as int] == x);
                        if k == i {
                            assert(after[k] == orig[last as int]);
                            assert(orig[last as int] == x);
                            assert(i < last);
                            if (i as int) < last as int {
                                assert(orig[i as int] != orig[last as int]);
                            }
                            assert(false);
                        } else {
                            assert(after[k] == orig[k]);
                            assert(orig[k] == x);
                            if k < i as int {
                                assert(orig[k] != orig[i as int]);
                            } else {
                                assert(orig[i as int] != orig[k]);
                            }
                            assert(false);
                        }
                    }
                }
                assert(nodup(after)) by {
                    assert forall|p: int, q: int| 0 <= p < q < after.len() implies after[p]
                        != after[q] by {
                        if p == i {
                            assert(after[p] == orig[last as int]);
                            assert(after[q] == orig[q]);
                        } else if q == i {
                            assert(after[q] == orig[last as int]);
                            assert(after[p] == orig[p]);
                        } else {
                            assert(after[p] == orig[p]);
                            assert(after[q] == orig[q]);
                        }
                    }
                }
            }
            return ;
        }
        i += 1;
    }
}

} // verus!
