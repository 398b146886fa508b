//! Pairing helpers over slices.

use vstd::prelude::*;

verus! {

/// How many pairs `pairs` makes of `n` items.
pub open spec fn pair_count(n: nat, wraps: bool) -> nat {
    if wraps {
        n
    } else if n >= 1 {
        (n - 1) as nat
    } else {
        0
    }
}

/// Consecutive pairs of `s`; `wraps` adds the last-to-first one, closing a circuit.
pub fn pairs<T: Copy>(s: &[T], wraps: bool) -> (v: Vec<(T, T)>)
    ensures
        v@.len() == pair_count(s@.len(), wraps),
        forall|i: int|
            0 <= i < v@.len() ==> #[trigger] v@[i] == (s@[i], s@[(i + 1) % (s@.len() as int)]),
{
    let n = s.len();
    let count = if wraps {
        n
    } else if n >= 1 {
        n - 1
    } else {
        0
    };
    let mut v: Vec<(T, T)> = Vec::new();
    let mut i: usize = 0;
    while i < count
        invariant
            count == pair_count(n as nat, wraps),
            n == s@.len(),
            count <= n,
            i <= count,
            v@.len() == i,
            forall|k: int|
                0 <= k < i ==> #[trigger] v@[k] == (s@[k], s@[(k + 1) % (n as int)]),
        decreases count - i,
    {
        let j = if i + 1 == n {
            0
        } else {
            i + 1
        };
        proof {
            if i + 1 == n {
                assert((i + 1) as int % (n as int) == 0) by {
                    vstd::arithmetic::div_mod::lemma_mod_self_0(n as int);
                }
            } else {
                vstd::arithmetic::div_mod::lemma_small_mod((i + 1) as nat, n as nat);
            }
        }
        v.push((s[i], s[j]));
        i = i + 1;
    }
    v
}

} // verus!
