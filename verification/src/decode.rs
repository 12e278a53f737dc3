use vstd::prelude::*;
use vstd::utf8::{valid_utf8, decode_utf8};

verus! {

/// A `%` byte that starts a percent-escape.
pub const PERCENT: u8 = 37;

/// True for the bytes `0`..`9`, `A`..`F` and `a`..`f`.
pub open spec fn is_hex_digit(b: u8) -> bool {
    (48 <= b <= 57) || (65 <= b <= 70) || (97 <= b <= 102)
}

/// Numeric value of a hexadecimal digit byte.
pub open spec fn hex_val(b: u8) -> u8 {
    if 48 <= b <= 57 {
        (b - 48) as u8
    } else if 65 <= b <= 70 {
        (b - 55) as u8
    } else {
        (b - 87) as u8
    }
}

/// Percent-decoding of a byte sequence: each `%XY` with two hexadecimal
/// digits becomes the byte with value `0xXY`; every other byte, including a
/// `%` that is not followed by two hexadecimal digits, passes through
/// unchanged.
pub open spec fn pct_decode(s: Seq<u8>) -> Seq<u8>
    decreases s.len(),
{
    if s.len() == 0 {
        Seq::empty()
    } else if s[0] == PERCENT && s.len() >= 3 && is_hex_digit(s[1]) && is_hex_digit(s[2]) {
        seq![(hex_val(s[1]) * 16 + hex_val(s[2])) as u8] + pct_decode(s.skip(3))
    } else {
        seq![s[0]] + pct_decode(s.skip(1))
    }
}

/// Relies on percent_encoding::percent_decode: each `%XY` escape with two
/// hexadecimal digits yields the byte `0xXY`, any other byte is passed
/// through unchanged.
#[verifier::external_body]
pub(crate) fn pct_decode_bytes(b: &[u8]) -> (r: Vec<u8>)
    ensures
        r@ == pct_decode(b@),
{
    percent_encoding::percent_decode(b).collect()
}

/// Relies on std's str::from_utf8: it succeeds exactly on valid UTF-8 input
/// and returns the string that the bytes encode.
#[verifier::external_body]
pub(crate) fn utf8_to_string(b: &[u8]) -> (r: Option<String>)
    ensures
        match r {
            Some(s) => valid_utf8(b@) && s@ == decode_utf8(b@),
            None => !valid_utf8(b@),
        },
{
    match std::str::from_utf8(b) {
        Ok(s) => Some(String::from(s)),
        Err(_) => None,
    }
}

/// The decoded form of a path or query component: percent-decoded and then
/// read as UTF-8, or `None` when the decoded bytes are not valid UTF-8.
pub open spec fn spec_pct_decode_utf8(s: Seq<u8>) -> Option<Seq<char>> {
    if valid_utf8(pct_decode(s)) {
        Some(decode_utf8(pct_decode(s)))
    } else {
        None
    }
}

/// Percent-decodes `b` and reads the result as UTF-8.
pub fn pct_decode_utf8(b: &[u8]) -> (r: Option<String>)
    ensures
        match r {
            Some(s) => spec_pct_decode_utf8(b@) == Some(s@),
            None => spec_pct_decode_utf8(b@) is None,
        },
{
    let d = pct_decode_bytes(b);
    utf8_to_string(d.as_slice())
}

/// True for the bytes `0`..`9`.
pub open spec fn is_digit_byte(b: u8) -> bool {
    48 <= b <= 57
}

/// True when every byte of the sequence is a decimal digit.
pub open spec fn all_digit_bytes(s: Seq<u8>) -> bool {
    forall|i: int| 0 <= i < s.len() ==> is_digit_byte(#[trigger] s[i])
}

/// Value of a sequence of decimal digit bytes, most significant first.
pub open spec fn dec_val(s: Seq<u8>) -> int
    decreases s.len(),
{
    if s.len() == 0 {
        0
    } else {
        dec_val(s.drop_last()) * 10 + (s.last() - 48)
    }
}

/// A digit sequence is worth at least as much as any of its prefixes.
proof fn lemma_dec_val_prefix(s: Seq<u8>, i: int)
    requires
        0 <= i <= s.len(),
        all_digit_bytes(s),
    ensures
        dec_val(s.take(i)) <= dec_val(s),
        dec_val(s) >= 0,
    decreases s.len() - i,
{
    if i == s.len() {
        assert(s.take(i) =~= s);
        lemma_dec_val_nonneg(s);
    } else {
        lemma_dec_val_prefix(s, i + 1);
        assert(s.take(i + 1).drop_last() =~= s.take(i));
        lemma_dec_val_nonneg(s.take(i));
    }
}

proof fn lemma_dec_val_nonneg(s: Seq<u8>)
    requires
        all_digit_bytes(s),
    ensures
        dec_val(s) >= 0,
    decreases s.len(),
{
    if s.len() > 0 {
        assert(all_digit_bytes(s.drop_last()));
        lemma_dec_val_nonneg(s.drop_last());
    }
}

/// The decimal digit bytes of a non-negative number, most significant
/// first, with no leading zero except for the number zero itself.
pub open spec fn dec_digits(n: int) -> Seq<u8>
    decreases n,
{
    if n < 10 {
        seq![(48 + if n >= 0 { n } else { 0 }) as u8]
    } else {
        dec_digits(n / 10) + seq![(48 + n % 10) as u8]
    }
}

/// Writes a number as its decimal digit bytes.
pub fn u64_to_dec_bytes(n: u64) -> (r: Vec<u8>)
    ensures
        r@ == dec_digits(n as int),
{
    let mut tmp: Vec<u8> = Vec::new();
    tmp.push(48 + (n % 10) as u8);
    let mut v = n / 10;
    proof {
        if n >= 10 {
            assert(dec_digits(n as int) == dec_digits(n as int / 10) + seq![
                (48 + n as int % 10) as u8
            ]);
            assert(dec_digits(n as int) =~= dec_digits(v as int) + tmp@);
        } else {
            assert(dec_digits(n as int) =~= tmp@);
        }
    }
    while v > 0
        invariant
            if v > 0 {
                dec_digits(n as int) == dec_digits(v as int) + tmp@
            } else {
                dec_digits(n as int) == tmp@
            },
        decreases v,
    {
        let mut next: Vec<u8> = Vec::new();
        next.push(48 + (v % 10) as u8);
        crate::bytes::push_bytes(&mut next, tmp.as_slice());
        proof {
            if v >= 10 {
                assert(dec_digits(v as int) == dec_digits(v as int / 10) + seq![
                    (48 + v as int % 10) as u8
                ]);
                assert(dec_digits(n as int) =~= dec_digits((v / 10) as int) + next@);
            } else {
                assert(dec_digits(v as int) =~= seq![(48 + v as int) as u8]);
                assert(dec_digits(n as int) =~= next@);
            }
        }
        tmp = next;
        v = v / 10;
    }
    tmp
}

/// The decimal digits of a non-negative number as characters.
pub open spec fn dec_chars(n: int) -> Seq<char> {
    Seq::new(dec_digits(n).len(), |i: int| dec_digits(n)[i] as char)
}

/// The decimal digits of a number as characters, a `-` sign in front when
/// it is negative.
pub open spec fn dec_chars_signed(n: int) -> Seq<char> {
    if n < 0 {
        seq!['-'] + dec_chars(-n)
    } else {
        dec_chars(n)
    }
}

/// Every byte of a decimal digit sequence is a digit.
proof fn lemma_dec_digits_range(n: int)
    requires
        n >= 0,
    ensures
        all_digit_bytes(dec_digits(n)),
    decreases n,
{
    if n >= 10 {
        lemma_dec_digits_range(n / 10);
        assert forall|i: int| 0 <= i < dec_digits(n).len() implies is_digit_byte(
            #[trigger] dec_digits(n)[i],
        ) by {
            if i < dec_digits(n / 10).len() {
                assert(dec_digits(n)[i] == dec_digits(n / 10)[i]);
            }
        }
    }
}

/// Writes a non-negative number as its decimal digits.
pub fn u64_to_string(n: u64) -> (r: String)
    ensures
        r@ == dec_chars(n as int),
{
    let bytes = u64_to_dec_bytes(n);
    proof {
        broadcast use vstd::utf8::encode_utf8_decode_utf8;

        lemma_dec_digits_range(n as int);
        let cs = dec_chars(n as int);
        assert(vstd::utf8::is_ascii_chars(cs));
        vstd::utf8::is_ascii_chars_encode_utf8(cs);
        assert(vstd::utf8::encode_utf8(cs) =~= dec_digits(n as int));
        vstd::utf8::encode_utf8_valid_utf8(cs);
        assert(valid_utf8(bytes@));
        assert(decode_utf8(bytes@) == cs);
    }
    match utf8_to_string(bytes.as_slice()) {
        Some(s) => s,
        None => String::new(),
    }
}

/// Writes a number as its decimal digits, `-` in front when negative.
pub fn i32_to_string(n: i32) -> (r: String)
    ensures
        r@ == dec_chars_signed(n as int),
{
    if n >= 0 {
        u64_to_string(n as u64)
    } else {
        let wide: i64 = n as i64;
        let mag: u64 = (-wide) as u64;
        let digits = u64_to_string(mag);
        let mut s = String::new();
        s.append("-");
        s.append(digits.as_str());
        proof {
            reveal_strlit("-");
            assert("-"@ =~= seq!['-']);
            assert(s@ =~= dec_chars_signed(n as int));
        }
        s
    }
}

/// Reads a non-empty, all-digit byte sequence as a decimal number.
/// Returns `None` when the sequence is empty, holds a byte that is not a
/// digit, or encodes a value that does not fit in `usize`.
pub fn parse_dec_usize(s: &[u8]) -> (r: Option<usize>)
    ensures
        match r {
            Some(n) => s@.len() > 0 && all_digit_bytes(s@) && n == dec_val(s@),
            None => !(s@.len() > 0 && all_digit_bytes(s@) && dec_val(s@) <= usize::MAX),
        },
{
    if s.len() == 0 {
        return None;
    }
    let mut acc: usize = 0;
    let mut i: usize = 0;
    while i < s.len()
        invariant
            0 <= i <= s@.len(),
            all_digit_bytes(s@.take(i as int)),
            acc == dec_val(s@.take(i as int)),
        decreases s@.len() - i,
    {
        let b = s[i];
        if b < 48 || b > 57 {
            return None;
        }
        proof {
            assert(all_digit_bytes(s@.take(i + 1)));
            assert(s@.take(i + 1).drop_last() =~= s@.take(i as int));
        }
        let d = (b - 48) as usize;
        let next = match acc.checked_mul(10) {
            Some(m) => m.checked_add(d),
            None => None,
        };
        match next {
            Some(v) => {
                acc = v;
            }
            None => {
                proof {
                    if all_digit_bytes(s@) && dec_val(s@) <= usize::MAX {
                        lemma_dec_val_prefix(s@, i + 1);
                    }
                }
                return None;
            }
        }
        i = i + 1;
    }
    proof {
        assert(s@.take(s@.len() as int) =~= s@);
    }
    Some(acc)
}

} // verus!
