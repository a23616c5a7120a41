//! Text decoding for identifiers and descriptor string fields.
//!
//! ISO 9660 identifiers are byte strings. Plain volumes hold ASCII (decoded
//! here as UTF-8, as tolerant readers do); Joliet volumes hold UCS-2 code
//! units, decoded as UTF-16 big-endian.

use vstd::prelude::*;

verus! {

use vstd::utf8::{valid_utf8, decode_utf8};
use vstd::utf8::{is_leading_byte_width_1, valid_first_scalar, length_of_first_scalar,
    pop_first_scalar, decode_first_scalar};

/// The characters obtained by reading each byte as one ASCII character.
pub open spec fn ascii_seq(b: Seq<u8>) -> Seq<char> {
    Seq::new(b.len(), |i: int| b[i] as char)
}

/// Every byte is in the ASCII range.
pub open spec fn all_ascii(b: Seq<u8>) -> bool {
    forall|i: int| 0 <= i < b.len() ==> b[i] < 0x80
}

/// ASCII bytes are valid UTF-8 and decode to themselves, character by
/// character.
pub proof fn lemma_ascii_decode(b: Seq<u8>)
    requires
        all_ascii(b),
    ensures
        valid_utf8(b),
        decode_utf8(b) =~= ascii_seq(b),
    decreases b.len(),
{
    if b.len() != 0 {
        let b0 = b[0];
        assert(b0 < 0x80);
        assert(is_leading_byte_width_1(b0));
        assert(b0 & 0x7f == b0) by (bit_vector)
            requires
                b0 < 0x80,
        ;
        assert(valid_first_scalar(b));
        assert(length_of_first_scalar(b) == 1);
        let rest = pop_first_scalar(b);
        assert(rest =~= b.subrange(1, b.len() as int));
        lemma_ascii_decode(rest);
        assert(valid_utf8(b));
        assert(decode_first_scalar(b) == b0 as u32);
        assert(decode_utf8(b) =~= seq![(b0 as u32) as char] + decode_utf8(rest));
        assert((b0 as u32) as char == b0 as char);
        assert(decode_utf8(b) =~= ascii_seq(b));
    }
}

/// What `encoding_rs`'s UTF-16BE decoder yields for a byte sequence:
/// `None` where the input held malformed sequences, otherwise the decoded
/// characters. The result depends on the bytes alone.
pub uninterp spec fn utf16be_decode(b: Seq<u8>) -> Option<Seq<char>>;

/// Relies on `str::from_utf8`: succeeds exactly on valid UTF-8 input and
/// yields its decoding.
#[verifier::external_body]
pub fn utf8_to_string(v: &[u8]) -> (r: Option<String>)
    ensures
        r matches Some(s) ==> valid_utf8(v@) && s@ == decode_utf8(v@),
        valid_utf8(v@) ==> r is Some,
{
    match core::str::from_utf8(v) {
        Ok(s) => Some(s.to_string()),
        Err(_) => None,
    }
}

/// Relies on `encoding_rs::UTF_16BE.decode`: decodes complete input with BOM
/// sniffing; the third component of its result reports malformed sequences.
/// The decode is a pure function of the input bytes. The length bound keeps
/// the decoder's internal buffer-size computation from overflowing (its one
/// documented panic); identifiers are at most one block long.
#[verifier::external_body]
pub fn ucs2be_to_string(v: &[u8]) -> (r: Option<String>)
    requires
        v@.len() <= 0x10000000,
    ensures
        match r {
            Some(s) => utf16be_decode(v@) == Some(s@) && (v@.len() == 0 ==> s@.len() == 0),
            None => utf16be_decode(v@) is None && v@.len() != 0,
        },
{
    let (cow, _encoding, had_errors) = encoding_rs::UTF_16BE.decode(v);
    if had_errors {
        None
    } else {
        Some(cow.into_owned())
    }
}

/// Copy of the byte range `[start, end)` of a slice.
pub fn copy_range(b: &[u8], start: usize, end: usize) -> (r: Vec<u8>)
    requires
        start <= end <= b@.len(),
    ensures
        r@ == b@.subrange(start as int, end as int),
{
    let mut out: Vec<u8> = Vec::new();
    let mut i: usize = start;
    while i < end
        invariant
            start <= i <= end <= b@.len(),
            out@ == b@.subrange(start as int, i as int),
        decreases end - i,
    {
        out.push(b[i]);
        assert(out@ =~= b@.subrange(start as int, i + 1));
        i = i + 1;
    }
    out
}


/// `c` is an ASCII upper-case letter.
pub open spec fn spec_is_upper(c: char) -> bool {
    65 <= c as u32 <= 90
}

/// ASCII case-insensitive equality of two characters: equal outright, or an
/// upper/lower pair of the same ASCII letter.
pub open spec fn spec_eq_ignore_case(a: char, b: char) -> bool {
    ||| a == b
    ||| (spec_is_upper(a) && a as u32 + 32 == b as u32)
    ||| (spec_is_upper(b) && b as u32 + 32 == a as u32)
}

/// ASCII case-insensitive equality of two character sequences.
pub open spec fn spec_str_eq_ignore_case(a: Seq<char>, b: Seq<char>) -> bool {
    a.len() == b.len() && forall|i: int| 0 <= i < a.len() ==> spec_eq_ignore_case(a[i], b[i])
}

/// Compare two strings ASCII case-insensitively.
pub fn str_eq_ignore_case(a: &str, b: &str) -> (r: bool)
    ensures
        r == spec_str_eq_ignore_case(a@, b@),
{
    let na = a.unicode_len();
    let nb = b.unicode_len();
    if na != nb {
        return false;
    }
    let mut i: usize = 0;
    while i < na
        invariant
            i <= na,
            na == a@.len(),
            nb == b@.len(),
            na == nb,
            forall|j: int| 0 <= j < i ==> spec_eq_ignore_case(a@[j], b@[j]),
        decreases na - i,
    {
        let ca = a.get_char(i);
        let cb = b.get_char(i);
        let ua = ca as u32;
        let ub = cb as u32;
        let eq = ua == ub || (65 <= ua && ua <= 90 && ua + 32 == ub) || (65 <= ub && ub <= 90 && ub
            + 32 == ua);
        if !eq {
            assert(!spec_eq_ignore_case(a@[i as int], b@[i as int]));
            return false;
        }
        i = i + 1;
    }
    true
}

/// `c` is an ASCII decimal digit.
pub open spec fn spec_char_is_digit(c: char) -> bool {
    48 <= c as u32 <= 57
}

/// Every character is an ASCII decimal digit.
pub open spec fn spec_all_digits(s: Seq<char>) -> bool {
    forall|i: int| 0 <= i < s.len() ==> spec_char_is_digit(#[trigger] s[i])
}

/// The decimal value the digit characters spell.
pub open spec fn spec_digits_value(s: Seq<char>) -> int
    recommends
        spec_all_digits(s),
    decreases s.len(),
{
    if s.len() == 0 {
        0
    } else {
        spec_digits_value(s.drop_last()) * 10 + (s.last() as u32 - 48)
    }
}

/// A digit string's value is never negative.
pub proof fn lemma_digits_value_nonneg(s: Seq<char>)
    requires
        spec_all_digits(s),
    ensures
        spec_digits_value(s) >= 0,
    decreases s.len(),
{
    if s.len() > 0 {
        assert(spec_all_digits(s.drop_last())) by {
            assert(forall|i: int|
                0 <= i < s.len() - 1 ==> s.drop_last()[i] == #[trigger] s[i]);
        }
        lemma_digits_value_nonneg(s.drop_last());
    }
}

/// A digit string's value only grows as digits are appended: the value of a
/// prefix never exceeds the value of the whole.
pub proof fn lemma_digits_value_prefix(s: Seq<char>, i: int)
    requires
        spec_all_digits(s),
        0 <= i <= s.len(),
    ensures
        spec_digits_value(s.subrange(0, i)) <= spec_digits_value(s),
    decreases s.len() - i,
{
    if i == s.len() {
        assert(s.subrange(0, i) =~= s);
    } else {
        lemma_digits_value_prefix(s, i + 1);
        let p = s.subrange(0, i + 1);
        assert(spec_all_digits(p)) by {
            assert(forall|j: int| 0 <= j < p.len() ==> p[j] == #[trigger] s[j]);
        }
        assert(p.drop_last() =~= s.subrange(0, i));
        lemma_digits_value_nonneg(p.drop_last());
        assert(spec_digits_value(p) == spec_digits_value(p.drop_last()) * 10 + (p.last() as u32
            - 48));
        assert(spec_char_is_digit(s[i]));
        assert(spec_digits_value(s.subrange(0, i)) <= spec_digits_value(p));
    }
}

/// The digit part of a numeric string: everything after an optional
/// leading `+`.
pub open spec fn spec_sign_stripped(s: Seq<char>) -> Seq<char> {
    if s.len() > 0 && s[0] == '+' {
        s.drop_first()
    } else {
        s
    }
}

/// What `u16::from_str` accepts and yields: an optional leading `+`, then
/// one or more decimal digits whose value fits in 16 bits.
pub open spec fn spec_parse_u16(s: Seq<char>) -> Option<u16> {
    let t = spec_sign_stripped(s);
    if t.len() > 0 && spec_all_digits(t) && spec_digits_value(t) <= 65535 {
        Some(spec_digits_value(t) as u16)
    } else {
        None
    }
}

/// Parse a decimal `u16` with an optional leading `+`; `None` on an empty
/// string, a non-digit, or overflow.
pub fn parse_u16_chars(s: &str) -> (r: Option<u16>)
    ensures
        r == spec_parse_u16(s@),
{
    let n = s.unicode_len();
    let start: usize = if n > 0 && s.get_char(0) == '+' {
        1
    } else {
        0
    };
    let ghost t = spec_sign_stripped(s@);
    proof {
        assert(t =~= s@.subrange(start as int, n as int));
    }
    if start == n {
        return None;
    }
    let mut val: u32 = 0;
    let mut i: usize = start;
    while i < n
        invariant
            start <= i <= n,
            n == s@.len(),
            t == spec_sign_stripped(s@),
            t == s@.subrange(start as int, n as int),
            spec_all_digits(t.subrange(0, i - start)),
            val == spec_digits_value(t.subrange(0, i - start)),
            val <= 65535,
        decreases n - i,
    {
        let c = s.get_char(i);
        let u = c as u32;
        let ghost prefix = t.subrange(0, i - start);
        let ghost prefix2 = t.subrange(0, i + 1 - start);
        proof {
            assert(prefix2.drop_last() =~= prefix);
            assert(prefix2.last() == s@[i as int]);
        }
        if !(48 <= u && u <= 57) {
            assert(!spec_char_is_digit(t[i - start]));
            return None;
        }
        val = val * 10 + (u - 48);
        proof {
            assert(spec_all_digits(prefix2)) by {
                assert(forall|j: int|
                    0 <= j < prefix2.len() - 1 ==> prefix2[j] == #[trigger] prefix[j]);
            }
        }
        if val > 65535 {
            proof {
                if spec_all_digits(t) {
                    lemma_digits_value_prefix(t, i + 1 - start);
                }
            }
            return None;
        }
        i = i + 1;
    }
    proof {
        assert(t.subrange(0, n - start) =~= t);
    }
    Some(val as u16)
}

/// The largest index holding `c`, if any.
pub open spec fn spec_rfind(s: Seq<char>, c: char) -> Option<int>
    decreases s.len(),
{
    if s.len() == 0 {
        None
    } else if s.last() == c {
        Some(s.len() - 1)
    } else {
        spec_rfind(s.drop_last(), c)
    }
}

/// Find the last occurrence of `c`.
pub fn rfind_char(s: &str, c: char) -> (r: Option<usize>)
    ensures
        match r {
            Some(i) => spec_rfind(s@, c) == Some(i as int) && i < s@.len() && s@[i as int] == c,
            None => spec_rfind(s@, c) is None,
        },
{
    let n = s.unicode_len();
    let mut i: usize = n;
    proof {
        assert(s@.subrange(0, n as int) =~= s@);
    }
    while i > 0
        invariant
            i <= n == s@.len(),
            spec_rfind(s@, c) == spec_rfind(s@.subrange(0, i as int), c),
        decreases i,
    {
        let ch = s.get_char(i - 1);
        proof {
            assert(s@.subrange(0, i as int).last() == s@[i - 1]);
            assert(s@.subrange(0, i as int).drop_last() =~= s@.subrange(0, i - 1));
        }
        if ch == c {
            return Some(i - 1);
        }
        i = i - 1;
    }
    None
}

/// ASCII case-insensitive equality of characters ignores which of two
/// case-insensitively equal characters it compares against.
pub proof fn lemma_eq_ignore_case_subst(x: char, a: char, b: char)
    requires
        spec_eq_ignore_case(a, b),
    ensures
        spec_eq_ignore_case(x, a) == spec_eq_ignore_case(x, b),
{
}

/// Case-insensitive string equality ignores which of two case-insensitively
/// equal strings it compares against.
pub proof fn lemma_str_eq_ignore_case_subst(x: Seq<char>, a: Seq<char>, b: Seq<char>)
    requires
        spec_str_eq_ignore_case(a, b),
    ensures
        spec_str_eq_ignore_case(x, a) == spec_str_eq_ignore_case(x, b),
{
    if x.len() == a.len() {
        assert forall|i: int| 0 <= i < x.len() implies spec_eq_ignore_case(x[i], a[i])
            == spec_eq_ignore_case(x[i], b[i]) by {
            lemma_eq_ignore_case_subst(x[i], a[i], b[i]);
        }
    }
}
} // verus!
