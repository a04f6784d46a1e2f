//! Decimal text for unsigned 32-bit values.
//!
//! The Number-mode literal buffer accumulates decimal digit characters and is
//! parsed into a value on demand; the `p` opcode renders a stack value back
//! into decimal text. Both directions are defined here against the same
//! mathematical reading of digit sequences.

use vstd::prelude::*;

verus! {

/// Whether `c` is a decimal digit character.
pub open spec fn is_digit(c: char) -> bool {
    48 <= c as int <= 57
}

/// The numeric value of a digit character.
pub open spec fn digit_val(c: char) -> int {
    c as int - 48
}

/// Whether every character of `s` is a decimal digit.
pub open spec fn all_digits(s: Seq<char>) -> bool {
    forall|i: int| 0 <= i < s.len() ==> is_digit(#[trigger] s[i])
}

/// The unsigned value denoted by a digit sequence read most-significant
/// first; the empty sequence denotes 0.
pub open spec fn digits_value(s: Seq<char>) -> int
    decreases s.len(),
{
    if s.len() == 0 {
        0
    } else {
        digits_value(s.drop_last()) * 10 + digit_val(s.last())
    }
}

/// The digit character for a value in 0..=9.
pub open spec fn digit_char(d: int) -> char {
    ((48 + d) as u8) as char
}

/// The decimal representation of a non-negative value: no leading zeros,
/// except that 0 itself reads `"0"`.
pub open spec fn dec_repr(n: int) -> Seq<char>
    decreases n,
{
    if n < 10 {
        seq![digit_char(if n < 0 { 0 } else { n })]
    } else {
        dec_repr(n / 10).push(digit_char(n % 10))
    }
}

/// A sequence of digits denotes a non-negative value.
pub proof fn lemma_digits_value_nonneg(s: Seq<char>)
    requires
        all_digits(s),
    ensures
        digits_value(s) >= 0,
    decreases s.len(),
{
    if s.len() > 0 {
        assert(all_digits(s.drop_last()));
        lemma_digits_value_nonneg(s.drop_last());
    }
}

/// Extending a digit prefix by one character multiplies its value by ten and
/// adds the new digit.
pub proof fn lemma_digits_value_step(s: Seq<char>, i: int)
    requires
        0 <= i < s.len(),
    ensures
        digits_value(s.take(i + 1)) == digits_value(s.take(i)) * 10 + digit_val(s[i]),
{
    assert(s.take(i + 1).drop_last() =~= s.take(i));
    assert(s.take(i + 1).last() == s[i]);
}

/// A digit prefix never denotes more than any longer prefix of the same
/// sequence.
pub proof fn lemma_digits_value_mono(s: Seq<char>, i: int, j: int)
    requires
        all_digits(s),
        0 <= i <= j <= s.len(),
    ensures
        digits_value(s.take(i)) <= digits_value(s.take(j)),
    decreases j - i,
{
    if i < j {
        lemma_digits_value_mono(s, i, j - 1);
        lemma_digits_value_step(s, j - 1);
        assert(all_digits(s.take(j - 1))) by {
            assert(forall|k: int| 0 <= k < j - 1 ==> s.take(j - 1)[k] == s[k]);
        }
        lemma_digits_value_nonneg(s.take(j - 1));
        assert(is_digit(s[j - 1]));
    }
}

/// Parse a buffer of decimal digit characters as an unsigned 32-bit value.
/// Returns `Some` exactly when the buffer is non-empty and its value fits in
/// 32 bits; the empty buffer and an overflowing value both fail to parse.
pub fn parse_u32_digits(s: &Vec<char>) -> (r: Option<u32>)
    requires
        all_digits(s@),
    ensures
        r is Some <==> (s@.len() > 0 && digits_value(s@) <= u32::MAX),
        r matches Some(v) ==> v as int == digits_value(s@),
{
    if s.len() == 0 {
        return None;
    }
    let ghost whole: Seq<char> = s@;
    let mut acc: u64 = 0;
    let mut i: usize = 0;
    while i < s.len()
        invariant
            0 <= i <= s@.len(),
            all_digits(s@),
            s@ == whole,
            acc as int == digits_value(s@.take(i as int)),
            acc <= u32::MAX,
        decreases s@.len() - i,
    {
        let c = s[i];
        assert(is_digit(s@[i as int]));
        let d: u64 = c as u64 - 48;
        let next: u64 = acc * 10 + d;
        proof {
            lemma_digits_value_step(s@, i as int);
        }
        if next > 0xffff_ffff {
            proof {
                lemma_digits_value_mono(s@, i + 1, s@.len() as int);
                assert(s@.take(s@.len() as int) =~= s@);
            }
            return None;
        }
        acc = next;
        i = i + 1;
    }
    proof {
        assert(s@.take(s@.len() as int) =~= s@);
    }
    Some(acc as u32)
}

/// Render a value as decimal text, most-significant digit first.
pub fn format_u32(n: u32) -> (r: Vec<char>)
    ensures
        r@ == dec_repr(n as int),
{
    let mut low_first: Vec<char> = Vec::new();
    let mut m: u32 = n;
    while m >= 10
        invariant
            dec_repr(n as int) == dec_repr(m as int) + low_first@.reverse(),
        decreases m,
    {
        let d: u32 = m % 10;
        let ghost before: Seq<char> = low_first@;
        low_first.push((48 + d) as u8 as char);
        m = m / 10;
        proof {
            assert(low_first@.reverse() =~= seq![digit_char(d as int)] + before.reverse());
            assert(dec_repr(n as int) == dec_repr(m as int) + low_first@.reverse());
        }
    }
    let ghost before: Seq<char> = low_first@;
    low_first.push((48 + m % 10) as u8 as char);
    proof {
        assert(dec_repr(m as int) == seq![digit_char(m as int)]);
        assert(m % 10 == m as int);
        assert(low_first@.reverse() =~= dec_repr(m as int) + before.reverse());
        assert(dec_repr(n as int) =~= low_first@.reverse());
    }
    let mut out: Vec<char> = Vec::new();
    let mut j: usize = low_first.len();
    while j > 0
        invariant
            0 <= j <= low_first@.len(),
            out@ =~= low_first@.subrange(j as int, low_first@.len() as int).reverse(),
        decreases j,
    {
        let ghost outb: Seq<char> = out@;
        out.push(low_first[j - 1]);
        j = j - 1;
        proof {
            assert(out@ =~= low_first@.subrange(j as int, low_first@.len() as int).reverse());
        }
    }
    proof {
        assert(low_first@.subrange(0, low_first@.len() as int) =~= low_first@);
        assert(out@ =~= dec_repr(n as int));
    }
    out
}

} // verus!
