//! Numbers as decimal digits on the wire.

use vstd::prelude::*;

verus! {

/// The ASCII digit for `d`, a number from 0 to 9.
pub open spec fn digit(d: int) -> u8 {
    (48 + d) as u8
}

/// `n` in decimal: ASCII digits, most significant first, no leading zero
/// (zero itself is the one digit `0`).
pub open spec fn decimal(n: nat) -> Seq<u8>
    decreases n,
{
    if n < 10 {
        seq![digit(n as int)]
    } else {
        decimal(n / 10).push(digit((n % 10) as int))
    }
}

/// `n`, a number below 100, as exactly two ASCII digits.
pub open spec fn two_digits(n: int) -> Seq<u8> {
    seq![digit(n / 10), digit(n % 10)]
}

/// Appends `n` in decimal to `buf`.
pub fn push_decimal(buf: &mut Vec<u8>, n: u64)
    ensures
        final(buf)@ == old(buf)@ + decimal(n as nat),
    decreases n,
{
    let ghost before = buf@;
    if n >= 10 {
        push_decimal(buf, n / 10);
    }
    let low: u8 = (n % 10) as u8;
    buf.push(48 + low);
    assert(buf@ =~= before + decimal(n as nat));
}

/// Appends `n`, a number below 100, to `buf` as exactly two digits.
pub(crate) fn push_two_digits(buf: &mut Vec<u8>, n: u8)
    requires
        n < 100,
    ensures
        final(buf)@ == old(buf)@ + two_digits(n as int),
{
    let ghost before = buf@;
    buf.push(48 + n / 10);
    buf.push(48 + n % 10);
    assert(buf@ =~= before + two_digits(n as int));
}

/// Whether every byte of `digits` is an ASCII digit.
pub open spec fn all_digits(digits: Seq<u8>) -> bool {
    forall|i: int| 0 <= i < digits.len() ==> 48 <= #[trigger] digits[i] <= 57
}

/// The number that the ASCII digits `digits` spell in decimal; leading
/// zeros count for nothing.
pub open spec fn digits_value(digits: Seq<u8>) -> nat
    decreases digits.len(),
{
    if digits.len() == 0 {
        0
    } else {
        (10 * digits_value(digits.drop_last()) + (digits.last() - 48)) as nat
    }
}

/// The number up to 255 that `text` spells, read as Rust reads a `u8`: an
/// optional `+`, then at least one decimal digit and nothing else, and a
/// value that fits.
pub open spec fn u8_of(text: Seq<u8>) -> Option<u8> {
    let digits = if text.len() > 0 && text[0] == 43 {
        text.skip(1)
    } else {
        text
    };
    if digits.len() > 0 && all_digits(digits) && digits_value(digits) <= 255 {
        Some(digits_value(digits) as u8)
    } else {
        None
    }
}

/// More digits never spell a smaller number.
proof fn lemma_digits_grow(digits: Seq<u8>, n: int)
    requires
        all_digits(digits),
        0 <= n <= digits.len(),
    ensures
        digits_value(digits.take(n)) <= digits_value(digits),
    decreases digits.len() - n,
{
    if n < digits.len() {
        lemma_digits_grow(digits, n + 1);
        assert(digits.take(n + 1).drop_last() =~= digits.take(n));
    } else {
        assert(digits.take(n) =~= digits);
    }
}

/// Reads `text` as a number up to 255, as [`u8_of`] says.
pub fn parse_u8(text: &[u8]) -> (r: Option<u8>)
    ensures
        r == u8_of(text@),
{
    let start: usize = if text.len() > 0 && text[0] == 43 {
        1
    } else {
        0
    };
    let ghost digits = text@.skip(start as int);
    if start == text.len() {
        assert(text@.skip(0) =~= text@);
        return None;
    }
    let mut value: u8 = 0;
    let mut i: usize = start;
    assert(digits.take(0) =~= Seq::<u8>::empty());
    while i < text.len()
        invariant
            start <= i <= text@.len(),
            start < text@.len(),
            start == if text@.len() > 0 && text@[0] == 43 {
                1int
            } else {
                0int
            },
            digits == text@.skip(start as int),
            all_digits(digits.take(i - start)),
            value == digits_value(digits.take(i - start)),
        decreases text@.len() - i,
    {
        let byte = text[i];
        let ghost next = digits.take(i + 1 - start);
        assert(next.drop_last() =~= digits.take(i - start));
        assert(next.last() == byte);
        if byte < 48 || byte > 57 {
            assert(text@.skip(0) =~= text@);
            assert(!(48 <= digits[i - start] <= 57));
            return None;
        }
        let low = byte - 48;
        assert(digits_value(next) == 10 * value + low);
        if value > 25 || (value == 25 && low > 5) {
            proof {
                assert(text@.skip(0) =~= text@);
                if all_digits(digits) {
                    lemma_digits_grow(digits, i + 1 - start);
                }
            }
            return None;
        }
        value = value * 10 + low;
        assert(all_digits(next)) by {
            assert forall|j: int| 0 <= j < next.len() implies 48 <= #[trigger] next[j] <= 57 by {
                if j < next.len() - 1 {
                    assert(digits.take(i - start)[j] == next[j]);
                }
            }
        }
        i = i + 1;
    }
    assert(text@.skip(0) =~= text@);
    assert(digits.len() == text@.len() - start);
    assert(digits.take(i - start) =~= digits);
    Some(value)
}

} // verus!
