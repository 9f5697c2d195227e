//! Counters that start over at the end of their range.
use vstd::prelude::*;

verus! {

/// The number after `n`, starting over at the end of the range.
pub open spec fn next_number(n: u64) -> u64 {
    if n == u64::MAX { 0 } else { (n + 1) as u64 }
}

/// The number after `n`.
pub fn bump(n: u64) -> (r: u64)
    ensures
        r == next_number(n),
{
    if n == u64::MAX { 0 } else { n + 1 }
}

/// The number `by` after `n`.
pub open spec fn advanced(n: u64, by: nat) -> u64 {
    ((n + by) % 0x1_0000_0000_0000_0000) as u64
}

/// The number `by` after `n`.
pub fn advance(n: u64, by: u64) -> (r: u64)
    ensures
        r == advanced(n, by as nat),
{
    n.wrapping_add(by)
}

/// The next number is one more, and after the largest comes zero. Going on by some is going on by one that many
/// times.
pub proof fn counting_goes_up_by_one(n: u64, by: nat)
    ensures
        n < 0xffff_ffff_ffff_ffff ==> next_number(n) == n + 1,
        next_number(0xffff_ffff_ffff_ffff) == 0,
        advanced(n, 0) == n,
        advanced(n, by + 1) == next_number(advanced(n, by)),
{
    let whole = 0x1_0000_0000_0000_0000int;
    let sum = n + by;
    if sum % whole == whole - 1 {
        vstd::arithmetic::div_mod::lemma_fundamental_div_mod(sum, whole);
        vstd::arithmetic::div_mod::lemma_mod_multiples_vanish(sum / whole + 1, 0, whole);
        assert(sum + 1 == whole * (sum / whole + 1) + 0) by (nonlinear_arith)
            requires
                sum == whole * (sum / whole) + (whole - 1),
        ;
        assert((sum + 1) % whole == 0);
    } else {
        vstd::arithmetic::div_mod::lemma_fundamental_div_mod(sum, whole);
        vstd::arithmetic::div_mod::lemma_fundamental_div_mod_converse(sum + 1, whole, sum / whole, sum % whole + 1);
    }
}

} // verus!
