//! Verified text helpers: decimal rendering of byte positions and decimal
//! parsing for size and duration literals.

use vstd::prelude::*;
use vstd::string::StrSliceExecFns;
use vstd::string::StringExecFns;

verus! {

/// Whether a byte is an ASCII decimal digit.
pub open spec fn is_digit_byte(b: u8) -> bool {
    48 <= b <= 57
}

/// Whether every byte of the sequence is an ASCII decimal digit.
pub open spec fn all_digit_bytes(s: Seq<u8>) -> bool {
    forall|i: int| 0 <= i < s.len() ==> is_digit_byte(#[trigger] s[i])
}

/// The value of a sequence of ASCII decimal digits, most significant first.
pub open spec fn digits_val(s: Seq<u8>) -> int
    decreases s.len(),
{
    if s.len() == 0 {
        0
    } else {
        digits_val(s.drop_last()) * 10 + (s.last() - 48)
    }
}

/// A digit sequence's value is never negative.
pub proof fn lemma_digits_val_nonneg(s: Seq<u8>)
    requires
        all_digit_bytes(s),
    ensures
        digits_val(s) >= 0,
    decreases s.len(),
{
    if s.len() > 0 {
        assert(all_digit_bytes(s.drop_last()));
        lemma_digits_val_nonneg(s.drop_last());
        assert(digits_val(s.drop_last()) * 10 >= 0) by (nonlinear_arith)
            requires
                digits_val(s.drop_last()) >= 0,
        ;
    }
}

/// Extending a digit sequence on the right never shrinks its value.
pub proof fn lemma_digits_val_prefix(s: Seq<u8>, j: int)
    requires
        all_digit_bytes(s),
        0 <= j <= s.len(),
    ensures
        digits_val(s.subrange(0, j)) <= digits_val(s),
    decreases s.len(),
{
    if j == s.len() {
        assert(s.subrange(0, j) =~= s);
    } else {
        let shorter = s.drop_last();
        assert(all_digit_bytes(shorter));
        assert(s.subrange(0, j) =~= shorter.subrange(0, j));
        lemma_digits_val_prefix(shorter, j);
        lemma_digits_val_nonneg(shorter);
        assert(digits_val(shorter) * 10 >= digits_val(shorter)) by (nonlinear_arith)
            requires
                digits_val(shorter) >= 0,
        ;
    }
}

/// Whether a byte is an ASCII decimal digit.
pub fn is_digit(b: u8) -> (r: bool)
    ensures
        r == is_digit_byte(b),
{
    48 <= b && b <= 57
}

/// How many leading bytes of the sequence are ASCII decimal digits.
pub open spec fn digit_prefix_len(s: Seq<u8>) -> int
    decreases s.len(),
{
    if s.len() == 0 {
        0
    } else if !is_digit_byte(s[0]) {
        0
    } else {
        1 + digit_prefix_len(s.drop_first())
    }
}

/// A scan that stops at the first non-digit finds the digit prefix.
pub proof fn lemma_digit_prefix(s: Seq<u8>, i: int)
    requires
        0 <= i <= s.len(),
        forall|j: int| 0 <= j < i ==> is_digit_byte(#[trigger] s[j]),
        i == s.len() || !is_digit_byte(s[i]),
    ensures
        digit_prefix_len(s) == i,
    decreases s.len(),
{
    if s.len() == 0 {
    } else if i == 0 {
    } else {
        let rest = s.drop_first();
        assert(forall|j: int| 0 <= j < i - 1 ==> is_digit_byte(#[trigger] rest[j]));
        assert(i - 1 == rest.len() || !is_digit_byte(rest[i - 1]));
        lemma_digit_prefix(rest, i - 1);
    }
}

/// Reads the decimal value of `bytes[from..to]`, all of which must be
/// digits; `None` when the value does not fit in a `u64`.
pub fn parse_decimal(bytes: &[u8], from: usize, to: usize) -> (r: Option<u64>)
    requires
        from <= to <= bytes@.len(),
        all_digit_bytes(bytes@.subrange(from as int, to as int)),
    ensures
        r matches Some(v) ==> v == digits_val(bytes@.subrange(from as int, to as int)),
        r is None ==> digits_val(bytes@.subrange(from as int, to as int)) > u64::MAX,
{
    let ghost whole = bytes@.subrange(from as int, to as int);
    let mut val: u64 = 0;
    let mut j: usize = from;
    while j < to
        invariant
            from <= j <= to <= bytes@.len(),
            all_digit_bytes(whole),
            whole == bytes@.subrange(from as int, to as int),
            val == digits_val(bytes@.subrange(from as int, j as int)),
        decreases to - j,
    {
        proof {
            assert(whole[j - from] == bytes@[j as int]);
            assert(bytes@.subrange(from as int, j as int + 1).drop_last() =~= bytes@.subrange(
                from as int,
                j as int,
            ));
            assert(bytes@.subrange(from as int, j as int + 1).last() == bytes@[j as int]);
        }
        let d = bytes[j] - 48;
        let high = match val.checked_mul(10) {
            Some(h) => h,
            None => {
                proof {
                    lemma_overflow_means_too_big(bytes@, from as int, to as int, j as int + 1);
                }
                return None;
            },
        };
        let next = match high.checked_add(d as u64) {
            Some(nv) => nv,
            None => {
                proof {
                    lemma_overflow_means_too_big(bytes@, from as int, to as int, j as int + 1);
                }
                return None;
            },
        };
        val = next;
        j += 1;
    }
    proof {
        assert(bytes@.subrange(from as int, to as int) =~= bytes@.subrange(
            from as int,
            j as int,
        ));
    }
    Some(val)
}

/// If some prefix of the digits already exceeds `u64::MAX`, the whole value
/// does.
proof fn lemma_overflow_means_too_big(s: Seq<u8>, from: int, to: int, j: int)
    requires
        0 <= from <= j <= to <= s.len(),
        all_digit_bytes(s.subrange(from, to)),
        digits_val(s.subrange(from, j)) > u64::MAX,
    ensures
        digits_val(s.subrange(from, to)) > u64::MAX,
{
    let whole = s.subrange(from, to);
    assert(s.subrange(from, j) =~= whole.subrange(0, j - from));
    lemma_digits_val_prefix(whole, j - from);
}

/// The decimal digit character for a value below ten.
pub open spec fn digit_char(d: int) -> char {
    if d == 0 {
        '0'
    } else if d == 1 {
        '1'
    } else if d == 2 {
        '2'
    } else if d == 3 {
        '3'
    } else if d == 4 {
        '4'
    } else if d == 5 {
        '5'
    } else if d == 6 {
        '6'
    } else if d == 7 {
        '7'
    } else if d == 8 {
        '8'
    } else {
        '9'
    }
}

/// The decimal representation of a non-negative integer, most significant
/// digit first, without leading zeros (a single zero for 0).
pub open spec fn dec_chars(n: int) -> Seq<char>
    decreases n,
{
    if n < 10 {
        seq![digit_char(n)]
    } else {
        dec_chars(n / 10).push(digit_char(n % 10))
    }
}

/// Appends the decimal representation of `n` to the string.
pub fn append_decimal(out: &mut String, n: u64)
    ensures
        final(out)@ == old(out)@ + dec_chars(n as int),
    decreases n,
{
    let digits = "0123456789";
    proof {
        reveal_strlit("0123456789");
    }
    if n >= 10 {
        append_decimal(out, n / 10);
    }
    let d = (n % 10) as usize;
    let ds = digits.substring_ascii(d, d + 1);
    proof {
        assert(ds@ =~= seq![digit_char(n as int % 10)]);
    }
    out.append(ds);
    proof {
        if n < 10 {
            assert(old(out)@ + dec_chars(n as int) =~= final(out)@);
        } else {
            assert(old(out)@ + dec_chars(n as int) =~= final(out)@);
        }
    }
}

/// The decimal representation of `n` as a string.
pub fn decimal_string(n: u64) -> (r: String)
    ensures
        r@ == dec_chars(n as int),
{
    let mut out = String::new();
    append_decimal(&mut out, n);
    proof {
        assert(out@ =~= dec_chars(n as int));
    }
    out
}

} // verus!
