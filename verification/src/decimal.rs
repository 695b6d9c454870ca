//! Unsigned decimal numbers as they appear on the wire: one or more ASCII
//! digits, no sign, no separators. Leading zeros are read and never written.

use vstd::prelude::*;

verus! {

/// Whether `b` is one of the ASCII digits `0` to `9`.
pub open spec fn is_digit(b: u8) -> bool {
    48 <= b <= 57
}

/// Whether every byte of `s` is an ASCII digit.
pub open spec fn all_digits(s: Seq<u8>) -> bool {
    forall|i: int| 0 <= i < s.len() ==> is_digit(#[trigger] s[i])
}

/// The number that the digits of `s` denote in base ten, most significant
/// digit first. Only meaningful when `all_digits(s)`.
pub open spec fn digits_value(s: Seq<u8>) -> nat
    decreases s.len(),
{
    if s.len() == 0 {
        0
    } else {
        (digits_value(s.drop_last()) * 10 + (s.last() - 48)) as nat
    }
}

/// What a decimal field means: the value of a non-empty run of digits that
/// fits in 64 bits, and nothing otherwise.
pub open spec fn decimal_value(s: Seq<u8>) -> Option<u64> {
    if s.len() > 0 && all_digits(s) && digits_value(s) <= u64::MAX {
        Some(digits_value(s) as u64)
    } else {
        None
    }
}

/// The shortest run of digits that denotes `n`.
pub open spec fn decimal_digits(n: nat) -> Seq<u8>
    decreases n,
{
    if n < 10 {
        seq![(48 + n) as u8]
    } else {
        decimal_digits(n / 10).push((48 + n % 10) as u8)
    }
}

/// The digits written for a number are digits, at least one and at most as
/// many as the number is large.
pub proof fn lemma_decimal_digits_shape(n: nat)
    ensures
        all_digits(decimal_digits(n)),
        decimal_digits(n).len() >= 1,
        n < 10 ==> decimal_digits(n).len() == 1,
    decreases n,
{
    reveal_with_fuel(decimal_digits, 2);
    if n >= 10 {
        lemma_decimal_digits_shape(n / 10);
    }
}

/// Reading back the digits written for `n` gives `n`.
pub proof fn lemma_digits_value_of_decimal_digits(n: nat)
    ensures
        digits_value(decimal_digits(n)) == n,
    decreases n,
{
    if n < 10 {
        let s = decimal_digits(n);
        assert(s.drop_last().len() == 0);
        reveal_with_fuel(digits_value, 2);
    } else {
        lemma_digits_value_of_decimal_digits(n / 10);
        let s = decimal_digits(n);
        assert(s.drop_last() =~= decimal_digits(n / 10));
    }
}

/// Writing a 64-bit number and reading it back is the identity.
pub proof fn lemma_decimal_round_trip(n: u64)
    ensures
        decimal_value(decimal_digits(n as nat)) == Some(n),
{
    lemma_decimal_digits_shape(n as nat);
    lemma_digits_value_of_decimal_digits(n as nat);
}

/// A run of digits is worth at least as much as any of its prefixes.
pub proof fn lemma_digits_value_prefix(s: Seq<u8>, k: int)
    requires
        all_digits(s),
        0 <= k <= s.len(),
    ensures
        digits_value(s.take(k)) <= digits_value(s),
    decreases s.len() - k,
{
    if k == s.len() {
        assert(s.take(k) =~= s);
    } else {
        lemma_digits_value_prefix(s, k + 1);
        let longer = s.take(k + 1);
        assert(longer.drop_last() =~= s.take(k));
        assert(is_digit(longer.last()));
    }
}

/// Reads an unsigned decimal number from `s`.
///
/// Returns the number when `s` is a non-empty run of ASCII digits whose
/// value fits in 64 bits, and `None` for every other input: an empty slice,
/// a sign, a space, or a value above `u64::MAX`.
pub fn parse_decimal(s: &[u8]) -> (r: Option<u64>)
    ensures
        r == decimal_value(s@),
{
    if s.len() == 0 {
        return None;
    }
    let mut acc: u64 = 0;
    let mut i: usize = 0;
    while i < s.len()
        invariant
            i <= s.len(),
            all_digits(s@.take(i as int)),
            acc == digits_value(s@.take(i as int)),
        decreases s.len() - i,
    {
        let b: u8 = s[i];
        if b < 48 || b > 57 {
            assert(!is_digit(s@[i as int]));
            return None;
        }
        let d: u64 = (b - 48) as u64;
        proof {
            let longer = s@.take(i + 1);
            assert(longer.drop_last() =~= s@.take(i as int));
            assert(longer.last() == b);
            assert(digits_value(longer) == acc * 10 + d);
            assert forall|j: int| 0 <= j < longer.len() implies is_digit(#[trigger] longer[j]) by {
                if j < i {
                    assert(longer[j] == s@.take(i as int)[j]);
                }
            }
            if acc * 10 + d > u64::MAX {
                if all_digits(s@) {
                    lemma_digits_value_prefix(s@, i + 1);
                }
            }
        }
        if acc > (u64::MAX - d) / 10 {
            return None;
        }
        acc = acc * 10 + d;
        i += 1;
    }
    assert(s@.take(i as int) =~= s@);
    Some(acc)
}

/// Appends the decimal digits of `val` to `out`, without a terminator.
pub fn push_decimal(out: &mut Vec<u8>, val: u64)
    ensures
        final(out)@ == old(out)@ + decimal_digits(val as nat),
{
    let mut digits: Vec<u8> = Vec::new();
    let mut rest: u64 = val;
    // Least significant digit first.
    while rest >= 10
        invariant
            decimal_digits(val as nat) == decimal_digits(rest as nat) + digits@.reverse(),
        decreases rest,
    {
        let d: u8 = (rest % 10) as u8 + 48;
        proof {
            let tail = digits@.reverse();
            assert(digits@.push(d).reverse() =~= seq![d] + tail);
            assert(decimal_digits(rest as nat) == decimal_digits((rest / 10) as nat).push(d));
            assert(decimal_digits((rest / 10) as nat).push(d) + tail =~= decimal_digits(
                (rest / 10) as nat,
            ) + (seq![d] + tail));
        }
        digits.push(d);
        rest = rest / 10;
    }
    let first: u8 = rest as u8 + 48;
    out.push(first);
    let ghost base = old(out)@;
    let mut i: usize = digits.len();
    assert(digits@.reverse().take(0) =~= Seq::<u8>::empty());
    while i > 0
        invariant
            i <= digits.len(),
            out@ == base + seq![first] + digits@.reverse().take(digits.len() - i),
        decreases i,
    {
        i -= 1;
        let d: u8 = digits[i];
        proof {
            let rev = digits@.reverse();
            let k = digits.len() - i - 1;
            assert(rev[k] == d);
            assert(rev.take(k + 1) =~= rev.take(k).push(d));
        }
        out.push(d);
        assert(out@ =~= base + seq![first] + digits@.reverse().take(digits.len() - i));
    }
    assert(digits@.reverse().take(digits.len() as int) =~= digits@.reverse());
    assert(decimal_digits(rest as nat) =~= seq![first]);
    assert(out@ =~= base + decimal_digits(val as nat));
}

} // verus!
