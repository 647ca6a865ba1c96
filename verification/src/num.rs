//! Decimal digit strings: their mathematical value and a checked parse.

use vstd::prelude::*;

verus! {

/// True of the ASCII digits `'0'..='9'`.
pub open spec fn is_digit(b: u8) -> bool {
    48 <= b <= 57
}

/// True when every byte of `s` is an ASCII digit.
pub open spec fn all_digits(s: Seq<u8>) -> bool {
    forall|i: int| 0 <= i < s.len() ==> is_digit(#[trigger] s[i])
}

/// The base-10 value of a digit string; 0 for the empty string.
pub open spec fn digits_val(s: Seq<u8>) -> nat
    decreases s.len(),
{
    if s.len() == 0 {
        0
    } else {
        (digits_val(s.drop_last()) * 10 + (s.last() - 48)) as nat
    }
}

/// `10^n`.
pub open spec fn pow10(n: nat) -> nat
    decreases n,
{
    if n == 0 {
        1
    } else {
        10 * pow10((n - 1) as nat)
    }
}

/// What a whole token denotes as a `usize`: defined exactly when the token is
/// a nonempty digit string whose value fits.
pub open spec fn usize_parse(s: Seq<u8>) -> Option<usize> {
    if s.len() >= 1 && all_digits(s) && digits_val(s) <= usize::MAX as nat {
        Some(digits_val(s) as usize)
    } else {
        None
    }
}

/// Extending a digit prefix by one digit multiplies its value by ten and adds
/// the new digit.
pub proof fn lemma_digits_val_take_succ(s: Seq<u8>, i: int)
    requires
        0 <= i < s.len(),
        is_digit(s[i]),
    ensures
        digits_val(s.take(i + 1)) == digits_val(s.take(i)) * 10 + (s[i] - 48),
{
    assert(s.take(i + 1).drop_last() =~= s.take(i));
    assert(s.take(i + 1).last() == s[i]);
}

/// The value of a digit string never shrinks as the prefix grows.
pub proof fn lemma_digits_val_take_mono(s: Seq<u8>, i: int, j: int)
    requires
        0 <= i <= j <= s.len(),
        all_digits(s),
    ensures
        digits_val(s.take(i)) <= digits_val(s.take(j)),
    decreases j - i,
{
    if i < j {
        lemma_digits_val_take_mono(s, i, j - 1);
        assert(is_digit(s[j - 1]));
        lemma_digits_val_take_succ(s, j - 1);
    }
}

/// Reads a whole token as a `usize`, rejecting non-digits, the empty token,
/// and values that do not fit.
pub fn parse_usize(s: &[u8]) -> (r: Option<usize>)
    ensures
        r == usize_parse(s@),
{
    if s.len() == 0 {
        return None;
    }
    let mut val: u128 = 0;
    let mut i: usize = 0;
    while i < s.len()
        invariant
            0 <= i <= s@.len(),
            all_digits(s@.take(i as int)),
            val == digits_val(s@.take(i as int)),
            val <= usize::MAX as u128,
        decreases s@.len() - i,
    {
        let b = s[i];
        if b < 48 || b > 57 {
            assert(!is_digit(s@[i as int]));
            return None;
        }
        proof {
            lemma_digits_val_take_succ(s@, i as int);
        }
        val = val * 10 + ((b - 48) as u128);
        i = i + 1;
        if val > usize::MAX as u128 {
            proof {
                if all_digits(s@) {
                    lemma_digits_val_take_mono(s@, i as int, s@.len() as int);
                    assert(s@.take(s@.len() as int) =~= s@);
                }
            }
            return None;
        }
    }
    assert(s@.take(s@.len() as int) =~= s@);
    Some(val as usize)
}

/// The first position at or after `from` holding `b`, or the length.
pub open spec fn find_from(s: Seq<u8>, from: int, b: u8) -> int
    decreases s.len() - from when from <= s.len()
{
    if from >= s.len() {
        s.len() as int
    } else if s[from] == b {
        from
    } else {
        find_from(s, from + 1, b)
    }
}

/// A scan that saw no `b` before `q`, and `b` or the end at `q`, found the
/// first occurrence.
pub proof fn lemma_find_from_char(s: Seq<u8>, from: int, b: u8, q: int)
    requires
        0 <= from <= q <= s.len(),
        forall|i: int| from <= i < q ==> s[i] != b,
        q < s.len() ==> s[q] == b,
    ensures
        find_from(s, from, b) == q,
    decreases q - from,
{
    if from < q {
        assert(s[from] != b);
        lemma_find_from_char(s, from + 1, b, q);
    }
}

/// The first position at or after `from` holding `b`, or the length.
pub fn find_byte_from(s: &[u8], from: usize, b: u8) -> (r: usize)
    requires
        from <= s@.len(),
    ensures
        from <= r <= s@.len(),
        r as int == find_from(s@, from as int, b),
{
    let mut j = from;
    while j < s.len() && s[j] != b
        invariant
            from <= j <= s@.len(),
            forall|i: int| from <= i < j ==> s@[i] != b,
        decreases s@.len() - j,
    {
        j = j + 1;
    }
    proof {
        lemma_find_from_char(s@, from as int, b, j as int);
    }
    j
}

} // verus!
