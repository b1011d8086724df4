//! The sequential layout of a joined block: the owner first, the dependent
//! behind it at the next address that its alignment allows.

use vstd::prelude::*;
use vstd::arithmetic::power2::is_pow2;
use vstd::arithmetic::power2::is_pow2_exists;
use vstd::arithmetic::power2::is_pow2_equiv;
use vstd::arithmetic::power2::pow2;
use vstd::arithmetic::power2::lemma_pow2_unfold;
use vstd::layout::align_of;
use vstd::layout::size_of;

verus! {

/// Whether `n` is a multiple of `align`.
pub open spec fn is_multiple_of(n: nat, align: nat) -> bool
    recommends
        align > 0,
{
    n % align == 0
}

/// The least multiple of `align` that is not below `size`.
pub open spec fn round_up(size: nat, align: nat) -> nat
    recommends
        align > 0,
{
    if size % align == 0 {
        size
    } else {
        (size + align - size % align) as nat
    }
}

/// Where the dependent starts in a block that holds an `Owner` and then a
/// `Dependent`.
pub open spec fn dependent_offset_of<Owner, Dependent>() -> nat {
    round_up(size_of::<Owner>(), align_of::<Dependent>())
}

/// The alignment of a block that holds an `Owner` and a `Dependent`.
pub open spec fn joined_align_of<Owner, Dependent>() -> nat {
    if align_of::<Owner>() >= align_of::<Dependent>() {
        align_of::<Owner>()
    } else {
        align_of::<Dependent>()
    }
}

/// The size of a block that holds an `Owner` and then a `Dependent`.
pub open spec fn joined_size_of<Owner, Dependent>() -> nat {
    round_up(
        dependent_offset_of::<Owner, Dependent>() + size_of::<Dependent>(),
        joined_align_of::<Owner, Dependent>(),
    )
}

/// `round_up(size, align)` is a multiple of `align`, lies in
/// `size .. size + align`, and no multiple of `align` lies between `size` and
/// it.
pub proof fn lemma_round_up_is_least_multiple(size: nat, align: nat)
    requires
        align > 0,
    ensures
        is_multiple_of(round_up(size, align), align),
        size <= round_up(size, align) < size + align,
        forall|m: nat| #[trigger] is_multiple_of(m, align) && size <= m ==> round_up(size, align) <= m,
{
    let r = round_up(size, align);
    let rem = size % align;
    let q = size / align;
    assert(size == align * q + rem && 0 <= rem < align) by {
        vstd::arithmetic::div_mod::lemma_fundamental_div_mod(size as int, align as int);
        vstd::arithmetic::div_mod::lemma_mod_bound(size as int, align as int);
    }
    if rem != 0 {
        assert(r == align * (q + 1)) by (nonlinear_arith)
            requires
                r == size + align - rem,
                size == align * q + rem,
        ;
        vstd::arithmetic::div_mod::lemma_mod_multiples_basic((q + 1) as int, align as int);
        assert(align * (q + 1) == (q + 1) * align) by (nonlinear_arith);
    }
    assert forall|m: nat| #[trigger] is_multiple_of(m, align) && size <= m implies r <= m by {
        let k = m / align;
        vstd::arithmetic::div_mod::lemma_fundamental_div_mod(m as int, align as int);
        assert(m == align * k);
        if rem != 0 {
            // m is a multiple of align above align * q, so it is at least align * (q + 1).
            assert(k > q) by (nonlinear_arith)
                requires
                    align * k >= align * q + rem,
                    rem > 0,
                    align > 0,
            ;
            assert(align * k >= align * (q + 1)) by (nonlinear_arith)
                requires
                    k >= q + 1,
                    align > 0,
            ;
        }
    }
}

/// A block is empty exactly when its owner and its dependent both are.
pub proof fn lemma_joined_size_zero<Owner, Dependent>()
    ensures
        joined_size_of::<Owner, Dependent>() == 0 <==> size_of::<Owner>() == 0 && size_of::<
            Dependent,
        >() == 0,
{
    broadcast use vstd::layout::align_nonzero;

    assert(align_of::<Owner>() > 0);
    assert(align_of::<Dependent>() > 0);
    let offset = dependent_offset_of::<Owner, Dependent>();
    lemma_round_up_is_least_multiple(size_of::<Owner>(), align_of::<Dependent>());
    lemma_round_up_is_least_multiple(
        offset + size_of::<Dependent>(),
        joined_align_of::<Owner, Dependent>(),
    );
}

/// A power of two below twice another power of two is at most that one.
pub proof fn lemma_pow2_below_double(n: int, bound: int)
    requires
        is_pow2(n),
        is_pow2(bound),
        n < 2 * bound,
    ensures
        n <= bound,
    decreases n,
{
    reveal(is_pow2);
    if n != 1 {
        if bound != 1 {
            lemma_pow2_below_double(n / 2, bound / 2);
        }
    }
}

/// An alignment that fits a `usize` is at most `isize::MAX + 1`.
pub proof fn lemma_align_bound(align: usize)
    requires
        is_pow2(align as int),
    ensures
        align <= isize::MAX + 1,
{
    let half = isize::MAX + 1;
    vstd::layout::signed_int_min_max_values();
    vstd::layout::unsigned_int_max_values();
    let e = (isize::BITS - 1) as nat;
    assert(half == pow2(e));
    assert(usize::BITS == isize::BITS);
    lemma_pow2_unfold((e + 1) as nat);
    assert(usize::MAX == 2 * half - 1);
    assert(is_pow2_exists(half)) by {
        vstd::arithmetic::power::lemma_pow_positive(2, e);
        assert(vstd::arithmetic::power::pow(2, e) == half);
    }
    is_pow2_equiv(half);
    lemma_pow2_below_double(align as int, half);
}

} // verus!
