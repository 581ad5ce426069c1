//! Bytes and text as the codecs and the command dispatcher need them:
//! decimal numbers as they appear on the wire, keywords in any case, and
//! small operations on byte strings.

use vstd::prelude::*;
use vstd::string::StrSliceExecFns;
use vstd::string::StringSliceAdditionalSpecFns;

verus! {

/// The digit `0`.
pub const DIGIT_ZERO: u8 = 48;

/// The digit `9`.
pub const DIGIT_NINE: u8 = 57;

/// The sign `+`.
pub const SIGN_PLUS: u8 = 43;

/// The sign `-`.
pub const SIGN_MINUS: u8 = 45;

/// The byte `b` is one of `0` to `9`.
pub open spec fn is_digit(b: u8) -> bool {
    DIGIT_ZERO <= b <= DIGIT_NINE
}

/// Every byte of `s` is a decimal digit.
pub open spec fn all_digits(s: Seq<u8>) -> bool {
    forall|i: int| 0 <= i < s.len() ==> is_digit(#[trigger] s[i])
}

/// The canonical decimal rendering of `n`: no sign, no leading zero.
pub open spec fn decimal(n: nat) -> Seq<u8>
    decreases n,
{
    if n < 10 {
        seq![(DIGIT_ZERO + n) as u8]
    } else {
        decimal(n / 10).push((DIGIT_ZERO + n % 10) as u8)
    }
}

/// The number that the digit string `s` denotes, most significant digit first.
/// Leading zeros are allowed; the empty string denotes zero.
pub open spec fn digits_value(s: Seq<u8>) -> nat
    decreases s.len(),
{
    if s.len() == 0 {
        0
    } else {
        digits_value(s.drop_last()) * 10 + (s.last() - DIGIT_ZERO) as nat
    }
}

/// What an unsigned decimal number denotes: an optional `+`, then at least
/// one digit. `None` for anything else.
pub open spec fn unsigned_value(s: Seq<u8>) -> Option<nat> {
    let digits = if s.len() > 0 && s[0] == SIGN_PLUS {
        s.skip(1)
    } else {
        s
    };
    if digits.len() > 0 && all_digits(digits) {
        Some(digits_value(digits))
    } else {
        None
    }
}

/// What a signed decimal number denotes: an optional `+` or `-`, then at
/// least one digit. `None` for anything else.
pub open spec fn signed_value(s: Seq<u8>) -> Option<int> {
    if s.len() > 0 && s[0] == SIGN_MINUS {
        let digits = s.skip(1);
        if digits.len() > 0 && all_digits(digits) {
            Some(-(digits_value(digits) as int))
        } else {
            None
        }
    } else {
        match unsigned_value(s) {
            Some(v) => Some(v as int),
            None => None,
        }
    }
}

/// The value of a digit string as far as it fits in 64 bits.
pub open spec fn digits_u64(s: Seq<u8>) -> Option<u64> {
    if s.len() > 0 && all_digits(s) && digits_value(s) <= u64::MAX {
        Some(digits_value(s) as u64)
    } else {
        None
    }
}

/// What an unsigned decimal number denotes as far as it fits in 64 bits.
pub open spec fn unsigned_u64(s: Seq<u8>) -> Option<u64> {
    match unsigned_value(s) {
        Some(v) => if v <= u64::MAX {
            Some(v as u64)
        } else {
            None
        },
        None => None,
    }
}

/// What a signed decimal number denotes as far as it fits in 64 bits.
pub open spec fn signed_i64(s: Seq<u8>) -> Option<i64> {
    match signed_value(s) {
        Some(v) => if i64::MIN <= v <= i64::MAX {
            Some(v as i64)
        } else {
            None
        },
        None => None,
    }
}

/// `decimal` yields digits only, and at least one.
pub proof fn lemma_decimal_digits(n: nat)
    ensures
        decimal(n).len() > 0,
        all_digits(decimal(n)),
    decreases n,
{
    if n >= 10 {
        lemma_decimal_digits(n / 10);
    }
}

/// Reading back a canonical rendering gives the number that was rendered.
pub proof fn lemma_decimal_value(n: nat)
    ensures
        digits_value(decimal(n)) == n,
    decreases n,
{
    if n < 10 {
        assert(digits_value(decimal(n).drop_last()) == 0);
    } else {
        lemma_decimal_value(n / 10);
        assert(decimal(n).drop_last() =~= decimal(n / 10));
    }
}

/// A canonical rendering is read back by both number grammars.
pub proof fn lemma_decimal_parses(n: nat)
    ensures
        unsigned_value(decimal(n)) == Some(n),
        signed_value(decimal(n)) == Some(n as int),
{
    lemma_decimal_digits(n);
    lemma_decimal_value(n);
}

/// Appending digits never lowers the value of a digit string.
pub proof fn lemma_digits_value_prefix(s: Seq<u8>, k: int)
    requires
        0 <= k <= s.len(),
        all_digits(s),
    ensures
        digits_value(s.take(k)) <= digits_value(s),
    decreases s.len(),
{
    if k == s.len() {
        assert(s.take(k) =~= s);
    } else {
        let t = s.drop_last();
        lemma_digits_value_prefix(t, k);
        assert(t.take(k) =~= s.take(k));
    }
}

/// Appends the canonical decimal rendering of `n` to `out`.
pub fn push_decimal(out: &mut Vec<u8>, n: u64)
    ensures
        final(out)@ == old(out)@ + decimal(n as nat),
    decreases n,
{
    if n >= 10 {
        push_decimal(out, n / 10);
    }
    let digit: u8 = (n % 10) as u8;
    out.push(DIGIT_ZERO + digit);
}

/// The canonical decimal rendering of `n`.
pub fn decimal_bytes(n: u64) -> (out: Vec<u8>)
    ensures
        out@ == decimal(n as nat),
{
    let mut out: Vec<u8> = Vec::new();
    push_decimal(&mut out, n);
    out
}

/// Reads the digit string that starts at `start` and runs to the end of
/// `bytes`. `None` where that is no digit string or its value does not fit
/// in 64 bits.
pub fn parse_digits(bytes: &[u8], start: usize) -> (r: Option<u64>)
    requires
        start <= bytes.len(),
    ensures
        r == digits_u64(bytes@.skip(start as int)),
{
    let ghost digits = bytes@.skip(start as int);
    if start == bytes.len() {
        return None;
    }
    let mut value: u64 = 0;
    let mut i: usize = start;
    while i < bytes.len()
        invariant
            start <= i <= bytes.len(),
            digits == bytes@.skip(start as int),
            all_digits(digits.take(i - start)),
            value == digits_value(digits.take(i - start)),
        decreases bytes.len() - i,
    {
        let b: u8 = bytes[i];
        if b < DIGIT_ZERO || b > DIGIT_NINE {
            assert(!is_digit(digits[i - start]));
            return None;
        }
        assert(digits.take(i - start + 1).drop_last() =~= digits.take(i - start));
        let longer: Option<u64> = match value.checked_mul(10) {
            Some(tens) => tens.checked_add((b - DIGIT_ZERO) as u64),
            None => None,
        };
        match longer {
            Some(v) => {
                value = v;
            },
            None => {
                proof {
                    if all_digits(digits) {
                        lemma_digits_value_prefix(digits, i - start + 1);
                    }
                }
                return None;
            },
        }
        i = i + 1;
    }
    assert(digits.take(i - start) =~= digits);
    Some(value)
}

/// Reads an unsigned decimal number: an optional `+`, then digits. `None`
/// where the text is no such number or the number does not fit in 64 bits.
pub fn parse_unsigned(bytes: &[u8]) -> (r: Option<u64>)
    ensures
        r == unsigned_u64(bytes@),
{
    if bytes.len() > 0 && bytes[0] == SIGN_PLUS {
        parse_digits(bytes, 1)
    } else {
        assert(bytes@.skip(0) =~= bytes@);
        parse_digits(bytes, 0)
    }
}

/// Reads a signed decimal number: an optional `+` or `-`, then digits. `None`
/// where the text is no such number or the number does not fit in 64 bits.
pub fn parse_signed(bytes: &[u8]) -> (r: Option<i64>)
    ensures
        r == signed_i64(bytes@),
{
    if bytes.len() > 0 && bytes[0] == SIGN_MINUS {
        match parse_digits(bytes, 1) {
            Some(m) => {
                if m <= 0x7fff_ffff_ffff_ffff {
                    Some(-(m as i64))
                } else if m == 0x8000_0000_0000_0000 {
                    Some(i64::MIN)
                } else {
                    None
                }
            },
            None => None,
        }
    } else {
        match parse_unsigned(bytes) {
            Some(m) => {
                if m <= 0x7fff_ffff_ffff_ffff {
                    Some(m as i64)
                } else {
                    None
                }
            },
            None => None,
        }
    }
}

/// The upper-case form of an ASCII letter; any other byte is left as it is.
pub open spec fn upper(b: u8) -> u8 {
    if 97 <= b <= 122 {
        (b - 32) as u8
    } else {
        b
    }
}

/// The two byte strings are equal up to the case of ASCII letters.
pub open spec fn eq_ignore_case(a: Seq<u8>, b: Seq<u8>) -> bool {
    a.len() == b.len() && forall|i: int| 0 <= i < a.len() ==> upper(#[trigger] a[i]) == upper(b[i])
}

/// The upper-case form of an ASCII letter; any other byte is left as it is.
pub fn to_upper(b: u8) -> (r: u8)
    ensures
        r == upper(b),
{
    if 97 <= b && b <= 122 {
        b - 32
    } else {
        b
    }
}

/// The bytes of the text `s` as they travel on the wire.
pub open spec fn text(s: &str) -> Seq<u8> {
    s.spec_bytes()
}

/// The bytes that the characters `chars` travel as.
pub open spec fn wire(chars: Seq<char>) -> Seq<u8> {
    vstd::utf8::encode_utf8(chars)
}

/// The bytes of the text `s`, owned.
pub fn text_bytes(s: &str) -> (out: Vec<u8>)
    ensures
        out@ == text(s),
{
    s.as_bytes_vec()
}

/// Whether `word` is the keyword `keyword`, in any mix of upper and lower case.
pub fn is_keyword(word: &[u8], keyword: &str) -> (r: bool)
    ensures
        r == eq_ignore_case(word@, text(keyword)),
{
    let expected: &[u8] = keyword.as_bytes();
    if word.len() != expected.len() {
        return false;
    }
    let mut i: usize = 0;
    while i < word.len()
        invariant
            i <= word.len(),
            word.len() == expected.len(),
            expected@ == text(keyword),
            forall|j: int| 0 <= j < i ==> upper(#[trigger] word@[j]) == upper(expected@[j]),
        decreases word.len() - i,
    {
        if to_upper(word[i]) != to_upper(expected[i]) {
            return false;
        }
        i = i + 1;
    }
    true
}

/// Whether the two byte strings are the same.
pub fn bytes_eq(a: &[u8], b: &[u8]) -> (r: bool)
    ensures
        r == (a@ == b@),
{
    if a.len() != b.len() {
        return false;
    }
    let mut i: usize = 0;
    while i < a.len()
        invariant
            i <= a.len(),
            a.len() == b.len(),
            forall|j: int| 0 <= j < i ==> a@[j] == b@[j],
        decreases a.len() - i,
    {
        if a[i] != b[i] {
            return false;
        }
        i = i + 1;
    }
    assert(a@ =~= b@);
    true
}

/// A copy of the bytes of `bytes` from `from` up to `to`.
pub fn copy_range(bytes: &[u8], from: usize, to: usize) -> (out: Vec<u8>)
    requires
        from <= to <= bytes.len(),
    ensures
        out@ == bytes@.subrange(from as int, to as int),
{
    let mut out: Vec<u8> = Vec::new();
    let mut i: usize = from;
    while i < to
        invariant
            from <= i <= to <= bytes.len(),
            out@ == bytes@.subrange(from as int, i as int),
        decreases to - i,
    {
        out.push(bytes[i]);
        i = i + 1;
    }
    out
}

/// Appends the bytes of `tail` to `out`.
pub fn push_all(out: &mut Vec<u8>, tail: &[u8])
    ensures
        final(out)@ == old(out)@ + tail@,
{
    let mut i: usize = 0;
    while i < tail.len()
        invariant
            i <= tail.len(),
            out@ == old(out)@ + tail@.take(i as int),
        decreases tail.len() - i,
    {
        out.push(tail[i]);
        i = i + 1;
    }
}

/// `String::from_utf8`: the text that the bytes spell, where they are valid
/// UTF-8, and nothing where they are not. The text's own bytes are the bytes
/// given.
#[verifier::external_body]
pub(crate) fn text_from_utf8(bytes: Vec<u8>) -> (r: Option<String>)
    ensures
        r is Some <==> vstd::utf8::valid_utf8(bytes@),
        r matches Some(s) ==> wire(s@) == bytes@,
{
    match String::from_utf8(bytes) {
        Ok(s) => Some(s),
        Err(_) => None,
    }
}

/// Two texts that travel as the same bytes are the same text, and the bytes
/// of a text are valid UTF-8.
pub proof fn lemma_wire_injective(a: Seq<char>, b: Seq<char>)
    ensures
        wire(a) == wire(b) <==> a == b,
        vstd::utf8::valid_utf8(wire(a)),
{
    vstd::utf8::encode_utf8_decode_utf8(a);
    vstd::utf8::encode_utf8_decode_utf8(b);
    vstd::utf8::encode_utf8_valid_utf8(a);
}

} // verus!
