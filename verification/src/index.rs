//! Positions in a ring whose size is a power of two.
//!
//! A ring of `n` slots is addressed by positions that only ever grow. Where `n` is a power of
//! two, the slot of a position is found with one bitwise AND, and stays right when the position
//! wraps around at the end of the `usize` range, because `n` divides the size of that range.

use vstd::arithmetic::div_mod::*;
use vstd::arithmetic::mul::*;
use vstd::arithmetic::power::*;
use vstd::arithmetic::power2::*;
use vstd::bits::*;
use vstd::prelude::*;

verus! {

/// `p` is the smallest power of two that is at least `n`.
pub open spec fn is_next_power_of_two(n: int, p: int) -> bool {
    &&& is_pow2(p)
    &&& n <= p
    &&& forall|q: int| #[trigger] is_pow2(q) && n <= q ==> p <= q
}

/// The number of values of a `usize`: the position after the last one is 0 again.
pub open spec fn word() -> int {
    usize::MAX + 1
}

/// The exponent of a power of two.
proof fn lemma_exponent(n: int) -> (k: nat)
    requires
        is_pow2(n),
    ensures
        pow2(k) == n,
{
    is_pow2_equiv(n);
    let k = choose|k: nat| pow(2, k) == n;
    lemma_pow2(k);
    k
}

/// Powers of two are positive.
pub(crate) proof fn lemma_pow2_positive(n: int)
    requires
        is_pow2(n),
    ensures
        n > 0,
{
    reveal_with_fuel(is_pow2, 1);
}

/// Powers of two that differ, differ by a factor of two at least.
proof fn lemma_pow2_gap(p: int, q: int)
    requires
        is_pow2(p),
        is_pow2(q),
        p < q,
    ensures
        2 * p <= q,
{
    let a = lemma_exponent(p);
    let b = lemma_exponent(q);
    if b < a {
        lemma_pow2_strictly_increases(b, a);
    }
    lemma_pow2_unfold((a + 1) as nat);
    if a + 1 < b {
        lemma_pow2_strictly_increases((a + 1) as nat, b);
    }
}

/// The exponent of a power of two that fits in a `usize`.
proof fn lemma_usize_exponent(n: usize) -> (k: nat)
    requires
        is_pow2(n as int),
    ensures
        pow2(k) == n,
        n > 0,
        k < usize::BITS,
{
    lemma_word();
    let k = lemma_exponent(n as int);
    lemma_pow2_pos(k);
    if k > usize::BITS {
        lemma_pow2_strictly_increases(usize::BITS as nat, k);
    }
    k
}

proof fn lemma_word()
    ensures
        pow2(usize::BITS as nat) == word(),
{
    vstd::layout::unsigned_int_max_values();
    lemma2_to64();
    lemma2_to64_rest();
}

/// A wrapped position has the slot of the position that it stands for: whether a position is
/// counted on without end or taken modulo the `usize` range makes no difference to its slot.
pub(crate) proof fn lemma_wrapped_position(pos: int, n: usize)
    requires
        is_pow2(n as int),
    ensures
        (pos % word()) % (n as int) == pos % (n as int),
{
    lemma_word();
    let k = lemma_usize_exponent(n);
    let m = pow2((usize::BITS - k) as nat) as int;
    lemma_pow2_adds(k, (usize::BITS - k) as nat);
    lemma_pow2_pos(k);
    lemma_pow2_pos((usize::BITS - k) as nat);
    lemma_mod_mod(pos, n as int, m);
}

/// The remainder of the integer before `x`.
pub(crate) proof fn lemma_mod_predecessor(x: int, n: int)
    requires
        n > 0,
    ensures
        (x - 1) % n == if x % n == 0 {
            n - 1
        } else {
            x % n - 1
        },
{
    lemma_fundamental_div_mod(x, n);
    lemma_mod_bound(x, n);
    let q = x / n;
    lemma_mul_is_commutative(n, q);
    if x % n == 0 {
        lemma_mul_is_distributive_sub_other_way(n, q, 1);
        lemma_fundamental_div_mod_converse_mod(x - 1, n, q - 1, n - 1);
    } else {
        lemma_fundamental_div_mod_converse_mod(x - 1, n, q, x % n - 1);
    }
}

/// There is one smallest power of two that is at least `n`.
pub(crate) proof fn lemma_next_power_of_two_unique(n: int, p: int)
    requires
        is_next_power_of_two(n, p),
    ensures
        forall|q: int| #[trigger] is_next_power_of_two(n, q) ==> q == p,
{
}

/// Half the number of values of a `usize` is a power of two.
pub(crate) proof fn lemma_half_is_power_of_two()
    ensures
        is_pow2(usize::MAX / 2 + 1),
{
    lemma_word();
    lemma_pow2_unfold(usize::BITS as nat);
    let k = (usize::BITS - 1) as nat;
    lemma_pow2(k);
    is_pow2_equiv(pow2(k) as int);
    assert(pow(2, k) == pow2(k));
}

/// A power of two is a `usize` exactly where it is at most the half of the `usize` range.
pub(crate) proof fn lemma_largest_power_of_two(p: int)
    requires
        is_pow2(p),
    ensures
        p <= usize::MAX <==> p <= usize::MAX / 2 + 1,
{
    lemma_half_is_power_of_two();
    if usize::MAX / 2 + 1 < p {
        lemma_pow2_gap(usize::MAX / 2 + 1, p);
    }
}

/// There is a smallest power of two that is at least `n`. The search for it starts at `p`.
pub(crate) proof fn lemma_next_power_of_two_exists(n: int, p: int) -> (q: int)
    requires
        is_pow2(p),
        p == 1 || p < 2 * n,
    ensures
        is_next_power_of_two(n, q),
    decreases 2 * n - p,
{
    reveal_with_fuel(is_pow2, 2);
    lemma_pow2_positive(p);
    if p < n {
        lemma_next_power_of_two_exists(n, 2 * p)
    } else {
        assert forall|q: int| #[trigger] is_pow2(q) && n <= q implies p <= q by {
            if q < p {
                reveal_with_fuel(is_pow2, 2);
                lemma_pow2_gap(q, p);
            }
        }
        p
    }
}

/// Returns the smallest power of two that is at least `n`.
pub fn next_power_of_two(n: usize) -> (p: usize)
    requires
        n <= usize::MAX / 2 + 1,
    ensures
        is_next_power_of_two(n as int, p as int),
{
    let mut p: usize = 1;
    proof {
        reveal_with_fuel(is_pow2, 2);
    }
    while p < n
        invariant
            n <= usize::MAX / 2 + 1,
            is_pow2(p as int),
            p == 1 || p < 2 * n,
            p >= 1,
        decreases usize::MAX - p,
    {
        proof {
            reveal_with_fuel(is_pow2, 2);
        }
        p = p * 2;
    }
    proof {
        assert forall|q: int| #[trigger] is_pow2(q) && n <= q implies p <= q by {
            if q < p {
                reveal_with_fuel(is_pow2, 2);
                lemma_pow2_gap(q, p as int);
            }
        }
    }
    p
}

/// Returns the slot of position `pos` in a ring of `n` slots.
pub fn slot_index(pos: usize, n: usize) -> (i: usize)
    requires
        is_pow2(n as int),
    ensures
        i == pos % n,
        i < n,
    opens_invariants none
    no_unwind
{
    proof {
        let k = lemma_usize_exponent(n);
        lemma_usize_low_bits_mask_is_mod(pos, k);
    }
    pos & (n - 1)
}

/// Returns the position after `pos`, which is 0 after the last one.
pub fn next_position(pos: usize) -> (next: usize)
    ensures
        next == (pos + 1) % word(),
        pos < usize::MAX ==> next == pos + 1,
        pos == usize::MAX ==> next == 0,
    opens_invariants none
    no_unwind
{
    if pos < usize::MAX {
        proof {
            lemma_small_mod((pos + 1) as nat, word() as nat);
        }
        pos + 1
    } else {
        proof {
            lemma_mod_self_0(word());
        }
        0
    }
}

} // verus!
