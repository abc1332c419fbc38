use vstd::prelude::*;
use vstd::string::StrSliceExecFns;

verus! {

/// Whether `c` is one of the ten decimal digits.
pub open spec fn is_digit(c: char) -> bool {
    '0' <= c && c <= '9'
}

/// The number that the digit `c` stands for.
pub open spec fn digit_value(c: char) -> nat {
    (c as u32 - '0' as u32) as nat
}

/// Whether `text` is made of decimal digits, at least one.
pub open spec fn is_numeral(text: Seq<char>) -> bool {
    text.len() > 0 && forall|i: int| 0 <= i < text.len() ==> is_digit(#[trigger] text[i])
}

/// The number that the digits of `text` write in base ten.
pub open spec fn decimal(text: Seq<char>) -> nat
    decreases text.len(),
{
    if text.len() == 0 {
        0
    } else {
        decimal(text.drop_last()) * 10 + digit_value(text.last())
    }
}

/// Whether `text` writes a number that a `u32` can hold.
pub open spec fn fits_u32(text: Seq<char>) -> bool {
    is_numeral(text) && decimal(text) <= u32::MAX
}

/// Reading more digits never gives a smaller number.
pub proof fn lemma_decimal_grows(text: Seq<char>, k: int)
    requires
        0 <= k <= text.len(),
    ensures
        decimal(text.take(k)) <= decimal(text),
    decreases text.len() - k,
{
    if k < text.len() {
        lemma_decimal_grows(text, k + 1);
        assert(text.take(k + 1).drop_last() =~= text.take(k));
    } else {
        assert(text.take(k) =~= text);
    }
}

/// The number that `text` writes, where it is a decimal numeral and the
/// number fits.
pub fn to_u32(text: &str) -> (value: Option<u32>)
    ensures
        value == (if fits_u32(text@) {
            Some(decimal(text@) as u32)
        } else {
            None
        }),
{
    let n: usize = text.unicode_len();
    if n == 0 {
        return None;
    }
    let mut acc: u32 = 0;
    let mut i: usize = 0;
    while i < n
        invariant
            0 <= i <= n,
            n == text@.len(),
            acc == decimal(text@.take(i as int)),
            forall|k: int| 0 <= k < i ==> is_digit(#[trigger] text@[k]),
        decreases n - i,
    {
        let c: char = text.get_char(i);
        if c < '0' || c > '9' {
            return None;
        }
        let d: u32 = c as u32 - '0' as u32;
        proof {
            assert(text@.take(i + 1).drop_last() =~= text@.take(i as int));
            assert(text@.take(i + 1).last() == c);
            lemma_decimal_grows(text@, i + 1);
        }
        if acc > (u32::MAX - d) / 10 {
            return None;
        }
        acc = acc * 10 + d;
        i += 1;
    }
    proof {
        assert(text@.take(n as int) =~= text@);
    }
    Some(acc)
}

} // verus!
