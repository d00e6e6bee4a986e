//! Unsigned decimal numbers as ASCII digits, the way a header writes a size.

use vstd::prelude::*;

verus! {

/// ASCII `0`.
pub const ZERO: u8 = 0x30;

/// ASCII `9`.
pub const NINE: u8 = 0x39;

/// Whether `b` is one of the ASCII digits `0` to `9`.
pub open spec fn is_digit(b: u8) -> bool {
    ZERO <= b <= NINE
}

/// Whether `s` holds ASCII digits only.
pub open spec fn all_digits(s: Seq<u8>) -> bool {
    forall|i: int| 0 <= i < s.len() ==> is_digit(#[trigger] s[i])
}

/// The shortest decimal notation of `n`: no sign, no leading zero, `0` for
/// zero.
pub open spec fn decimal_text(n: nat) -> Seq<u8>
    decreases n,
{
    if n < 10 {
        seq![(ZERO + n) as u8]
    } else {
        decimal_text(n / 10).push((ZERO + n % 10) as u8)
    }
}

/// The number that a string of digits denotes, leading zeros allowed. The
/// empty string denotes zero.
pub open spec fn decimal_value(s: Seq<u8>) -> nat
    decreases s.len(),
{
    if s.len() == 0 {
        0
    } else {
        decimal_value(s.drop_last()) * 10 + (s.last() - ZERO) as nat
    }
}

/// What a size field denotes: a number if the field is one or more ASCII
/// digits whose value fits in 64 bits, nothing otherwise. A sign, a blank or
/// an empty field denotes nothing.
pub open spec fn parse_decimal_spec(s: Seq<u8>) -> Option<u64> {
    if s.len() > 0 && all_digits(s) && decimal_value(s) <= u64::MAX {
        Some(decimal_value(s) as u64)
    } else {
        None
    }
}

/// A longer string of digits never denotes less than its own prefix.
pub proof fn lemma_value_grows(s: Seq<u8>, k: int)
    requires
        all_digits(s),
        0 <= k <= s.len(),
    ensures
        decimal_value(s.take(k)) <= decimal_value(s),
    decreases s.len() - k,
{
    if k == s.len() {
        assert(s.take(k) =~= s);
    } else {
        lemma_value_grows(s.drop_last(), k);
        assert(s.drop_last().take(k) =~= s.take(k));
        assert(is_digit(s.last()));
    }
}

/// One more digit at the end multiplies by ten and adds the digit.
pub proof fn lemma_value_step(s: Seq<u8>, k: int)
    requires
        0 <= k < s.len(),
    ensures
        decimal_value(s.take(k + 1)) == decimal_value(s.take(k)) * 10 + (s[k] - ZERO) as nat,
{
    assert(s.take(k + 1).drop_last() =~= s.take(k));
    assert(s.take(k + 1).last() == s[k]);
}

/// Reading back what was written gives the number again.
pub proof fn lemma_decimal_roundtrip(n: nat)
    ensures
        decimal_text(n).len() >= 1,
        all_digits(decimal_text(n)),
        decimal_value(decimal_text(n)) == n,
        n <= u64::MAX ==> parse_decimal_spec(decimal_text(n)) == Some(n as u64),
    decreases n,
{
    if n < 10 {
        let t = decimal_text(n);
        assert(t.len() == 1);
        assert(t[0] == (ZERO + n) as u8);
        assert(t.drop_last() =~= Seq::<u8>::empty());
        assert(decimal_value(t.drop_last()) == 0);
    } else {
        lemma_decimal_roundtrip(n / 10);
        let t = decimal_text(n);
        let head = decimal_text(n / 10);
        assert(t.drop_last() =~= head);
        assert(t.last() == (ZERO + n % 10) as u8);
        assert forall|i: int| 0 <= i < t.len() implies is_digit(#[trigger] t[i]) by {
            if i < head.len() {
                assert(t[i] == head[i]);
            }
        }
    }
}

/// Ten to the power `k`.
pub open spec fn pow10(k: nat) -> nat
    decreases k,
{
    if k == 0 {
        1
    } else {
        10 * pow10((k - 1) as nat)
    }
}

/// A number below ten to the `k` is written with at most `k` digits.
pub proof fn lemma_decimal_len(n: nat, k: nat)
    requires
        k >= 1,
        n < pow10(k),
    ensures
        decimal_text(n).len() <= k,
    decreases k,
{
    if n >= 10 {
        if k == 1 {
            assert(pow10(1) == 10) by {
                reveal_with_fuel(pow10, 2);
            }
        } else {
            lemma_decimal_len(n / 10, (k - 1) as nat);
        }
    }
}

/// A 64-bit size is written with at most twenty digits.
pub proof fn lemma_decimal_len_u64(n: u64)
    ensures
        1 <= decimal_text(n as nat).len() <= 20,
{
    assert(pow10(20) == 100_000_000_000_000_000_000nat) by {
        reveal_with_fuel(pow10, 21);
    }
    lemma_decimal_len(n as nat, 20);
    lemma_decimal_roundtrip(n as nat);
}

/// Appends the decimal notation of `n` to `out`.
pub fn write_decimal(n: u64, out: &mut Vec<u8>)
    ensures
        final(out)@ == old(out)@ + decimal_text(n as nat),
    decreases n,
{
    if n >= 10 {
        write_decimal(n / 10, out);
    }
    let digit: u8 = (n % 10) as u8;
    out.push(ZERO + digit);
    assert(out@ =~= old(out)@ + decimal_text(n as nat));
}

/// Reads a size field. Returns the number it denotes, or `None` if the field
/// is empty, holds anything but ASCII digits, or denotes more than 64 bits
/// hold.
pub fn parse_decimal(s: &[u8]) -> (r: Option<u64>)
    ensures
        r == parse_decimal_spec(s@),
{
    let n = s.len();
    if n == 0 {
        return None;
    }
    let mut i: usize = 0;
    while i < n
        invariant
            n == s@.len(),
            0 <= i <= n,
            all_digits(s@.take(i as int)),
        decreases n - i,
    {
        if s[i] < ZERO || s[i] > NINE {
            assert(!is_digit(s@[i as int]));
            return None;
        }
        assert forall|j: int| 0 <= j < i + 1 implies is_digit(#[trigger] s@.take(i + 1)[j]) by {
            if j < i {
                assert(s@.take(i as int)[j] == s@[j]);
            }
        }
        i += 1;
    }
    assert(s@.take(n as int) =~= s@);
    let mut acc: u64 = 0;
    let mut k: usize = 0;
    assert(s@.take(0) =~= Seq::<u8>::empty());
    while k < n
        invariant
            n == s@.len(),
            0 <= k <= n,
            all_digits(s@),
            acc == decimal_value(s@.take(k as int)),
        decreases n - k,
    {
        let digit: u64 = (s[k] - ZERO) as u64;
        proof {
            assert(is_digit(s@[k as int]));
            lemma_value_step(s@, k as int);
            lemma_value_grows(s@, k + 1);
        }
        let scaled = match acc.checked_mul(10) {
            Some(v) => v,
            None => {
                return None;
            },
        };
        let next = match scaled.checked_add(digit) {
            Some(v) => v,
            None => {
                return None;
            },
        };
        acc = next;
        k += 1;
    }
    assert(s@.take(n as int) =~= s@);
    Some(acc)
}

} // verus!
