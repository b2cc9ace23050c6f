//! Geometry of a block: the side of its square layout and the positions that
//! are reserved for parity bits.
use vstd::arithmetic::power::pow;
use vstd::prelude::*;

verus! {

/// `h` is the integer square root of `n`.
pub open spec fn is_side_of(n: int, h: int) -> bool {
    0 <= h && h * h <= n && n < (h + 1) * (h + 1)
}

/// The side of the square layout of a block of length `n`: the integer
/// square root of `n`.
pub open spec fn side(n: int) -> int {
    choose|h: int| is_side_of(n, h)
}

/// A length is a perfect square.
pub open spec fn is_square(n: int) -> bool {
    side(n) * side(n) == n
}

/// `n` is one of 1, 2, 4, 8, ...
pub open spec fn is_power_of_two(n: nat) -> bool
    decreases n,
{
    if n == 0 {
        false
    } else if n == 1 {
        true
    } else {
        n % 2 == 0 && is_power_of_two(n / 2)
    }
}

/// The reserved positions of a block whose square has side `h`:
/// `2^0, 2^1, ..., 2^(h-1)`, in ascending order.
pub open spec fn reserved_positions(h: int) -> Seq<int> {
    Seq::new(h as nat, |k: int| pow(2, k as nat))
}

/// Position `i` is reserved for a parity bit in a square of side `h`.
pub open spec fn is_reserved(h: int, i: int) -> bool {
    reserved_positions(h).contains(i)
}

/// Number of data positions in `[1, i)`: those that are neither position 0
/// nor reserved.
pub open spec fn data_slots_before(h: int, i: int) -> nat
    decreases i,
{
    if i <= 1 {
        0
    } else {
        data_slots_before(h, i - 1) + if is_reserved(h, i - 1) {
            0nat
        } else {
            1nat
        }
    }
}

pub proof fn lemma_data_slots_monotone(h: int, i: int, j: int)
    requires
        i <= j,
    ensures
        data_slots_before(h, i) <= data_slots_before(h, j),
    decreases j - i,
{
    if i < j {
        lemma_data_slots_monotone(h, i, j - 1);
    }
}

/// The reserved positions of a square of side 4 are 1, 2, 4 and 8.
pub proof fn lemma_reserved_side_four()
    ensures
        reserved_positions(4) =~= seq![1int, 2, 4, 8],
        forall|i: int| is_reserved(4, i) <==> (i == 1 || i == 2 || i == 4 || i == 8),
{
    reveal(pow);
    assert(pow(2, 0) == 1);
    assert(pow(2, 1) == 2);
    assert(pow(2, 2) == 4);
    assert(pow(2, 3) == 8);
    let r = reserved_positions(4);
    assert(r =~= seq![1int, 2, 4, 8]);
    assert forall|i: int| is_reserved(4, i) <==> (i == 1 || i == 2 || i == 4 || i == 8) by {
        if i == 1 || i == 2 || i == 4 || i == 8 {
            let k: int = if i == 1 {
                0
            } else if i == 2 {
                1
            } else if i == 4 {
                2
            } else {
                3
            };
            assert(r[k] == i);
        }
    }
}

/// The square root of a length is unique.
pub proof fn lemma_side_unique(n: int, h: int)
    requires
        is_side_of(n, h),
    ensures
        side(n) == h,
{
    let c = side(n);
    assert(is_side_of(n, c));
    if c < h {
        assert((c + 1) * (c + 1) <= h * h) by (nonlinear_arith)
            requires
                0 <= c < h,
        ;
    } else if h < c {
        assert((h + 1) * (h + 1) <= c * c) by (nonlinear_arith)
            requires
                0 <= h < c,
        ;
    }
}

/// Every non-negative length has a square root.
pub proof fn lemma_side_exists(n: int, h: int)
    requires
        0 <= h,
        h * h <= n,
        n < (h + 1) * (h + 1),
    ensures
        is_side_of(n, side(n)),
        side(n) == h,
{
    lemma_side_unique(n, h);
}

/// Integer square root of `n`.
pub fn integer_sqrt(n: usize) -> (r: usize)
    ensures
        r as int == side(n as int),
        is_side_of(n as int, r as int),
{
    let mut r: usize = 0;
    loop
        invariant
            r as int * r as int <= n as int,
            r < 0x1_0000_0000,
        ensures
            r as int * r as int <= n as int,
            n < (r + 1) * (r + 1),
        decreases n - r,
    {
        let next: u128 = r as u128 + 1;
        assert(next * next <= 0x1_0000_0000_0000_0000) by (nonlinear_arith)
            requires
                next <= 0x1_0000_0000,
        ;
        if next * next > n as u128 {
            break;
        }
        assert(r + 1 <= n && r + 1 < 0x1_0000_0000) by (nonlinear_arith)
            requires
                (r + 1) as int * (r + 1) as int <= n as int,
                n <= usize::MAX,
                usize::MAX < 0x1_0000_0000_0000_0000,
        ;
        r = r + 1;
    }
    proof {
        lemma_side_exists(n as int, r as int);
    }
    r
}

/// Tells whether `n` is a power of two.
pub fn check_power_of_two(n: usize) -> (r: bool)
    ensures
        r == is_power_of_two(n as nat),
{
    if n == 0 {
        return false;
    }
    let mut m: usize = n;
    while m > 1 && m % 2 == 0
        invariant
            m > 0,
            is_power_of_two(m as nat) == is_power_of_two(n as nat),
        decreases m,
    {
        m = m / 2;
    }
    m == 1
}

} // verus!
