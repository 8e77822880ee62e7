//! The index policy: how hash codes map to slot indices, and which
//! capacities a table takes. The policy that comes with the table keeps
//! capacities at powers of two.

use vstd::arithmetic::power2::lemma2_to64;
use vstd::arithmetic::power2::lemma_pow2_unfold;
use vstd::arithmetic::power2::pow2;
use vstd::prelude::*;

verus! {

/// The smallest number of probe steps a table with storage allows.
pub const MIN_LOOKUPS: usize = 64;

/// The largest power of two that fits in a `usize`.
pub open spec fn max_power_of_two() -> int {
    usize::MAX / 2 + 1
}

/// Whether `n` is one, or twice a power of two.
pub open spec fn is_power_of_two(n: int) -> bool
    decreases n,
{
    n == 1 || (n > 1 && n % 2 == 0 && is_power_of_two(n / 2))
}

/// The smallest power of two that is at least `n`, found by doubling from
/// `from`.
pub open spec fn power_of_two_from(from: int, n: int) -> int
    decreases
        (if from < n {
            n - from
        } else {
            0
        }),
{
    if 0 < from < n {
        power_of_two_from(2 * from, n)
    } else {
        from
    }
}

/// The smallest power of two that is at least `n`, capped at the largest one
/// a `usize` can hold.
pub open spec fn spec_next_power_2(n: int) -> int {
    if n > max_power_of_two() {
        max_power_of_two()
    } else {
        power_of_two_from(1, n)
    }
}

/// The number of times `n` can be halved before it reaches one.
pub open spec fn spec_log2(n: int) -> int
    decreases n,
{
    if n <= 1 {
        0
    } else {
        1 + spec_log2(n / 2)
    }
}

/// `power_of_two_from` yields a power of two that is at least `n`, and no
/// smaller power of two above `from / 2` would do.
pub proof fn lemma_power_of_two_from(from: int, n: int)
    requires
        is_power_of_two(from),
    ensures
        is_power_of_two(power_of_two_from(from, n)),
        power_of_two_from(from, n) >= n,
        power_of_two_from(from, n) >= from,
        from < n ==> power_of_two_from(from, n) < 2 * n,
    decreases
        (if from < n {
            n - from
        } else {
            0
        }),
{
    if 0 < from < n {
        assert(is_power_of_two(2 * from)) by {
            assert((2 * from) / 2 == from);
        }
        lemma_power_of_two_from(2 * from, n);
    }
}

/// The logarithm of a number is at most the number.
pub proof fn lemma_log2_small(n: int)
    requires
        0 <= n,
    ensures
        0 <= spec_log2(n) <= n,
    decreases n,
{
    if n > 1 {
        lemma_log2_small(n / 2);
    }
}

/// The logarithm of a number below `2^k` is below `k`.
pub proof fn lemma_log2_below(n: int, k: nat)
    requires
        0 <= n < pow2(k),
        k >= 1,
    ensures
        spec_log2(n) < k,
    decreases k,
{
    if n > 1 {
        lemma2_to64();
        lemma_pow2_unfold(k);
        if k == 1 {
            assert(pow2(1) == 2);
        } else {
            lemma_log2_below(n / 2, (k - 1) as nat);
        }
    }
}

/// The logarithm of a `usize` is below 64.
pub proof fn lemma_log2_of_usize(n: usize)
    ensures
        0 <= spec_log2(n as int) < 64,
{
    lemma2_to64();
    lemma_log2_below(n as int, 64);
    lemma_log2_small(n as int);
}

/// Base-two logarithm, rounded down; zero for zero.
pub fn log2(n: usize) -> (r: usize)
    ensures
        r == spec_log2(n as int),
{
    let mut rest: usize = n;
    let mut r: usize = 0;
    while rest > 1
        invariant
            r + spec_log2(rest as int) == spec_log2(n as int),
            r <= n - rest,
        decreases rest,
    {
        rest = rest / 2;
        r = r + 1;
    }
    r
}

/// Maps hash codes to slot indices and chooses table capacities.
///
/// Both methods must be functions of their arguments and of the policy value
/// alone: the table finds a pair again only because the index computed at
/// lookup is the one computed at insertion. The two spec functions name those
/// functions. Nothing else is asked of an implementation: the table treats
/// an index beyond its storage as index zero, and goes without a capacity
/// that its pairs would fill more than half of.
pub trait HashPolicy {
    /// The capacity this policy chooses when `requested` slots are asked for.
    spec fn spec_new_capacity(&self, requested: usize) -> usize;

    /// The slot index this policy assigns to `hash` in a table whose capacity
    /// minus one is `num_slots`.
    spec fn spec_hash_index(&self, hash: u64, num_slots: usize) -> usize;

    /// The capacity for a table that is asked to have `capacity` slots.
    fn new_capacity(&self, capacity: usize) -> (chosen: usize)
        ensures
            chosen == self.spec_new_capacity(capacity),
    ;

    /// The slot index of `hash` in a table whose capacity minus one is
    /// `num_slots`.
    fn hash_index(&self, hash: u64, num_slots: usize) -> (index: usize)
        ensures
            index == self.spec_hash_index(hash, num_slots),
    ;

    /// Hands the policy a value to remember. The table never calls this.
    fn commit(&mut self, smth: u64);

    /// Returns the policy to its first state. The table never calls this.
    fn reset(&mut self);
}

/// Capacities are powers of two, at least `MIN_LOOKUPS`; the index of a hash
/// code is its low bits.
#[derive(Copy, Clone, Debug, Default, PartialEq, Eq)]
pub struct PowerOf2HashPolicy;

impl PowerOf2HashPolicy {
    /// The smallest power of two that is at least `n`; the largest power of
    /// two a `usize` holds where `n` is above it.
    #[inline]
    pub fn next_power_2(n: usize) -> (p: usize)
        ensures
            p == spec_next_power_2(n as int),
            is_power_of_two(p as int),
            n <= max_power_of_two() ==> n <= p && (n > 1 ==> p < 2 * n),
    {
        proof {
            lemma_power_of_two_from(1, n as int);
            lemma_max_power_of_two();
        }
        if n > usize::MAX / 2 + 1 {
            return usize::MAX / 2 + 1;
        }
        let mut p: usize = 1;
        while p < n
            invariant
                0 < p <= usize::MAX / 2 + 1,
                n <= usize::MAX / 2 + 1,
                is_power_of_two(p as int),
                power_of_two_from(p as int, n as int) == power_of_two_from(1, n as int),
                is_power_of_two(max_power_of_two()),
            decreases
                (if p < n {
                    n - p
                } else {
                    0
                }),
        {
            proof {
                lemma_power_of_two_gap(p as int, max_power_of_two());
                assert((2 * p) / 2 == p);
            }
            p = 2 * p;
        }
        p
    }
}

impl HashPolicy for PowerOf2HashPolicy {
    open spec fn spec_new_capacity(&self, requested: usize) -> usize {
        spec_next_power_2(
            if requested >= MIN_LOOKUPS {
                requested as int
            } else {
                MIN_LOOKUPS as int
            },
        ) as usize
    }

    open spec fn spec_hash_index(&self, hash: u64, num_slots: usize) -> usize {
        (hash as usize) & num_slots
    }

    #[inline]
    fn new_capacity(&self, capacity: usize) -> (chosen: usize) {
        Self::next_power_2(
            if capacity >= MIN_LOOKUPS {
                capacity
            } else {
                MIN_LOOKUPS
            },
        )
    }

    #[inline]
    fn hash_index(&self, hash: u64, num_slots: usize) -> (index: usize)
        ensures
            index <= num_slots,
    {
        let low = hash as usize;
        assert(low & num_slots <= num_slots) by (bit_vector);
        low & num_slots
    }

    #[inline]
    fn commit(&mut self, _smth: u64)
        ensures
            *final(self) == *old(self),
    {
    }

    #[inline]
    fn reset(&mut self)
        ensures
            *final(self) == *old(self),
    {
    }
}

/// Names the policy a hasher type is paired with when none is given.
pub trait SelectHashPolicy {
    type Policy: HashPolicy + Default + Clone;
}

impl<H> SelectHashPolicy for H {
    type Policy = PowerOf2HashPolicy;
}

/// Asked for at most half of what a `usize` counts, the power-of-two policy
/// answers with at least what was asked, and at least `MIN_LOOKUPS`.
pub proof fn lemma_power_of_two_capacity(requested: usize)
    requires
        requested <= usize::MAX / 2,
    ensures
        PowerOf2HashPolicy.spec_new_capacity(requested) >= requested,
        PowerOf2HashPolicy.spec_new_capacity(requested) >= MIN_LOOKUPS,
        PowerOf2HashPolicy.spec_new_capacity(requested) <= usize::MAX / 2 + 1,
        is_power_of_two(PowerOf2HashPolicy.spec_new_capacity(requested) as int),
{
    let asked = if requested >= MIN_LOOKUPS {
        requested as int
    } else {
        MIN_LOOKUPS as int
    };
    lemma_power_of_two_from(1, asked);
    lemma_max_power_of_two();
    if power_of_two_from(1, asked) > max_power_of_two() {
        lemma_power_of_two_gap(max_power_of_two(), power_of_two_from(1, asked));
    }
}

/// The power-of-two policy answers a larger request with at least the
/// capacity it answers a smaller one with.
pub proof fn lemma_power_of_two_monotonic(smaller: usize, larger: usize)
    requires
        smaller <= larger,
    ensures
        PowerOf2HashPolicy.spec_new_capacity(smaller) <= PowerOf2HashPolicy.spec_new_capacity(
            larger,
        ),
{
    let low = if smaller >= MIN_LOOKUPS {
        smaller as int
    } else {
        MIN_LOOKUPS as int
    };
    let high = if larger >= MIN_LOOKUPS {
        larger as int
    } else {
        MIN_LOOKUPS as int
    };
    lemma_max_power_of_two();
    lemma_power_of_two_from(1, low);
    lemma_power_of_two_from(1, high);
    if high <= max_power_of_two() {
        if power_of_two_from(1, low) > power_of_two_from(1, high) {
            lemma_power_of_two_gap(power_of_two_from(1, high), power_of_two_from(1, low));
        }
    } else if low <= max_power_of_two() {
        if power_of_two_from(1, low) > max_power_of_two() {
            lemma_power_of_two_gap(max_power_of_two(), power_of_two_from(1, low));
        }
    }
}

/// The cap is itself a power of two.
pub proof fn lemma_max_power_of_two()
    ensures
        is_power_of_two(max_power_of_two()),
{
    assert(usize::MAX == 0xffff_ffff || usize::MAX == 0xffff_ffff_ffff_ffff) by {
        assert(usize::BITS == 32 || usize::BITS == 64);
    }
    assert(is_power_of_two(0x1_0000)) by {
        reveal_with_fuel(is_power_of_two, 20);
    }
    lemma2_to64();
    lemma_times_power(0x1_0000, 15);
    lemma_times_power(0x8000_0000, 16);
    lemma_times_power(0x8000_0000_0000, 16);
}

/// Doubling a power of two `times` times gives a power of two.
proof fn lemma_times_power(p: int, times: nat)
    requires
        is_power_of_two(p),
    ensures
        is_power_of_two(p * pow2(times)),
    decreases times,
{
    lemma2_to64();
    if times == 0 {
    } else {
        lemma_times_power(p, (times - 1) as nat);
        lemma_pow2_unfold(times);
        let q = p * pow2((times - 1) as nat);
        assert(p * pow2(times) == 2 * q) by (nonlinear_arith)
            requires
                pow2(times) == 2 * pow2((times - 1) as nat),
                q == p * pow2((times - 1) as nat),
        ;
        assert(q >= 1) by {
            lemma_power_positive(q);
        }
        assert((2 * q) / 2 == q);
    }
}

/// A power of two is positive.
pub proof fn lemma_power_positive(p: int)
    requires
        is_power_of_two(p),
    ensures
        p >= 1,
{
}

/// Of two powers of two, the smaller is at most half the larger.
pub proof fn lemma_power_of_two_gap(a: int, b: int)
    requires
        is_power_of_two(a),
        is_power_of_two(b),
        a < b,
    ensures
        2 * a <= b,
    decreases b,
{
    if a > 1 {
        lemma_power_of_two_gap(a / 2, b / 2);
    }
}

} // verus!
