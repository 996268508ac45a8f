//! Byte-level vocabulary of the wire format: character classes of the
//! HTTP grammar, decimal and hexadecimal numerals, ASCII case folding,
//! and the bridge from ASCII byte sequences to `String`.

use vstd::prelude::*;
use vstd::utf8::*;

verus! {

pub const CR: u8 = 13;
pub const LF: u8 = 10;
pub const SP: u8 = 32;
pub const HTAB: u8 = 9;
pub const COLON: u8 = 58;
pub const SEMI: u8 = 59;

pub const DIGIT_0: u8 = 48;
pub const DIGIT_9: u8 = 57;
pub const UPPER_A: u8 = 65;
pub const UPPER_F: u8 = 70;
pub const UPPER_Z: u8 = 90;
pub const LOWER_A: u8 = 97;
pub const LOWER_F: u8 = 102;
pub const LOWER_Z: u8 = 122;

/// ASCII decimal digit.
pub open spec fn is_digit(b: u8) -> bool {
    DIGIT_0 <= b <= DIGIT_9
}

/// ASCII hexadecimal digit, either case.
pub open spec fn is_hex_digit(b: u8) -> bool {
    is_digit(b) || (LOWER_A <= b <= LOWER_F) || (UPPER_A <= b <= UPPER_F)
}

/// A `tchar` of the HTTP grammar: the bytes allowed in tokens such as
/// methods and header field names.
pub open spec fn is_tchar(b: u8) -> bool {
    ||| (DIGIT_0 <= b <= DIGIT_9)
    ||| (LOWER_A <= b <= LOWER_Z)
    ||| (UPPER_A <= b <= UPPER_Z)
    ||| b == 0x21 || b == 0x23 || b == 0x24 || b == 0x25 || b == 0x26
    ||| b == 0x27 || b == 0x2a || b == 0x2b || b == 0x2d || b == 0x2e
    ||| b == 0x5e || b == 0x5f || b == 0x60 || b == 0x7c || b == 0x7e
}

/// A byte allowed inside a header field value: visible ASCII, space,
/// horizontal tab, or `obs-text` (bytes above 0x7f).
pub open spec fn is_field_byte(b: u8) -> bool {
    b == SP || b == HTAB || (0x21 <= b && b != 0x7f)
}

pub open spec fn all_digits(s: Seq<u8>) -> bool {
    forall|i: int| 0 <= i < s.len() ==> is_digit(#[trigger] s[i])
}

pub open spec fn all_hex_digits(s: Seq<u8>) -> bool {
    forall|i: int| 0 <= i < s.len() ==> is_hex_digit(#[trigger] s[i])
}

pub open spec fn all_tchars(s: Seq<u8>) -> bool {
    forall|i: int| 0 <= i < s.len() ==> is_tchar(#[trigger] s[i])
}

pub open spec fn all_field_bytes(s: Seq<u8>) -> bool {
    forall|i: int| 0 <= i < s.len() ==> is_field_byte(#[trigger] s[i])
}

pub open spec fn digit_val(b: u8) -> nat {
    (b - DIGIT_0) as nat
}

pub open spec fn hex_val(b: u8) -> nat {
    if is_digit(b) {
        (b - DIGIT_0) as nat
    } else if LOWER_A <= b <= LOWER_F {
        (b - LOWER_A + 10) as nat
    } else {
        (b - UPPER_A + 10) as nat
    }
}

/// Base-ten reading of a digit sequence, most significant digit first.
pub open spec fn dec_value(s: Seq<u8>) -> nat
    decreases s.len(),
{
    if s.len() == 0 {
        0
    } else {
        dec_value(s.drop_last()) * 10 + digit_val(s.last())
    }
}

/// Base-sixteen reading of a hex digit sequence, most significant first.
pub open spec fn hex_value(s: Seq<u8>) -> nat
    decreases s.len(),
{
    if s.len() == 0 {
        0
    } else {
        hex_value(s.drop_last()) * 16 + hex_val(s.last())
    }
}

/// The shortest decimal numeral for `n`, as digit bytes.
pub open spec fn dec_numeral(n: nat) -> Seq<u8>
    decreases n,
{
    if n < 10 {
        seq![(DIGIT_0 + n) as u8]
    } else {
        dec_numeral(n / 10).push((DIGIT_0 + n % 10) as u8)
    }
}

/// The shortest uppercase hexadecimal numeral for `n`, as digit bytes.
pub open spec fn hex_numeral(n: nat) -> Seq<u8>
    decreases n,
{
    let d = n % 16;
    let last = if d < 10 {
        (DIGIT_0 + d) as u8
    } else {
        (UPPER_A + (d - 10)) as u8
    };
    if n < 16 {
        seq![last]
    } else {
        hex_numeral(n / 16).push(last)
    }
}

/// The shortest decimal numeral for `n`, as characters.
pub open spec fn dec_chars(n: nat) -> Seq<char>
    decreases n,
{
    if n < 10 {
        seq![((DIGIT_0 + n) as u8) as char]
    } else {
        dec_chars(n / 10).push(((DIGIT_0 + n % 10) as u8) as char)
    }
}

/// ASCII lowercase of one byte.
pub open spec fn lower_byte(b: u8) -> u8 {
    if UPPER_A <= b <= UPPER_Z {
        (b + 32) as u8
    } else {
        b
    }
}

/// ASCII lowercase of a byte sequence.
pub open spec fn lower(s: Seq<u8>) -> Seq<u8> {
    s.map_values(|b: u8| lower_byte(b))
}

/// All bytes below 0x80.
pub open spec fn is_ascii_seq(s: Seq<u8>) -> bool {
    forall|i: int| 0 <= i < s.len() ==> #[trigger] s[i] < 0x80
}

/// Append the decimal numeral of `n` to `out`.
pub fn push_dec(out: &mut Vec<u8>, n: u64)
    ensures
        final(out)@ == old(out)@ + dec_numeral(n as nat),
    decreases n,
{
    if n < 10 {
        out.push(DIGIT_0 + (n as u8));
    } else {
        push_dec(out, n / 10);
        out.push(DIGIT_0 + ((n % 10) as u8));
    }
}

/// Append the uppercase hexadecimal numeral of `n` to `out`.
pub fn push_hex(out: &mut Vec<u8>, n: u64)
    ensures
        final(out)@ == old(out)@ + hex_numeral(n as nat),
    decreases n,
{
    let d = (n % 16) as u8;
    let last = if d < 10 {
        DIGIT_0 + d
    } else {
        UPPER_A + (d - 10)
    };
    if n < 16 {
        out.push(last);
    } else {
        push_hex(out, n / 16);
        out.push(last);
    }
}

/// Append a copy of `s` to `out`.
pub fn push_bytes(out: &mut Vec<u8>, s: &[u8])
    ensures
        final(out)@ == old(out)@ + s@,
{
    let n = s.len();
    let mut i: usize = 0;
    while i < n
        invariant
            n == s@.len(),
            0 <= i <= n,
            out@ =~= old(out)@ + s@.take(i as int),
        decreases n - i,
    {
        out.push(s[i]);
        proof {
            assert(old(out)@ + s@.take(i + 1) =~= (old(out)@ + s@.take(i as int)).push(
                s@[i as int],
            ));
        }
        i = i + 1;
    }
    proof {
        assert(s@.take(n as int) =~= s@);
    }
}

/// Read a decimal numeral. Returns its value exactly when the slice is a
/// nonempty run of digits whose value fits in `usize`.
pub fn parse_dec(s: &[u8]) -> (r: Option<usize>)
    ensures
        r is Some <==> s@.len() > 0 && all_digits(s@) && dec_value(s@) <= usize::MAX,
        r is Some ==> r->0 == dec_value(s@),
{
    if s.len() == 0 {
        return None;
    }
    let mut acc: usize = 0;
    let mut i: usize = 0;
    while i < s.len()
        invariant
            0 <= i <= s@.len(),
            all_digits(s@.take(i as int)),
            acc == dec_value(s@.take(i as int)),
            dec_value(s@.take(i as int)) <= usize::MAX,
        decreases s@.len() - i,
    {
        let b = s[i];
        if !(DIGIT_0 <= b && b <= DIGIT_9) {
            assert(!is_digit(s@[i as int]));
            return None;
        }
        if acc > (usize::MAX - (b - DIGIT_0) as usize) / 10 {
            proof {
                lemma_dec_value_grows(s@, i as int);
                assert(s@.take(i + 1).drop_last() =~= s@.take(i as int));
            }
            return None;
        }
        acc = acc * 10 + (b - DIGIT_0) as usize;
        assert(s@.take(i + 1).drop_last() =~= s@.take(i as int));
        i = i + 1;
    }
    assert(s@.take(i as int) =~= s@);
    Some(acc)
}

/// Read a hexadecimal numeral. Returns its value exactly when the slice is
/// a nonempty run of hex digits whose value fits in `u64`.
pub fn parse_hex(s: &[u8]) -> (r: Option<u64>)
    ensures
        r is Some <==> s@.len() > 0 && all_hex_digits(s@) && hex_value(s@) <= u64::MAX,
        r is Some ==> r->0 == hex_value(s@),
{
    if s.len() == 0 {
        return None;
    }
    let mut acc: u64 = 0;
    let mut i: usize = 0;
    while i < s.len()
        invariant
            0 <= i <= s@.len(),
            all_hex_digits(s@.take(i as int)),
            acc == hex_value(s@.take(i as int)),
            hex_value(s@.take(i as int)) <= u64::MAX,
        decreases s@.len() - i,
    {
        let b = s[i];
        let d: u64 = if DIGIT_0 <= b && b <= DIGIT_9 {
            (b - DIGIT_0) as u64
        } else if LOWER_A <= b && b <= LOWER_F {
            (b - LOWER_A) as u64 + 10
        } else if UPPER_A <= b && b <= UPPER_F {
            (b - UPPER_A) as u64 + 10
        } else {
            assert(!is_hex_digit(s@[i as int]));
            return None;
        };
        if acc > (u64::MAX - d) / 16 {
            proof {
                lemma_hex_value_grows(s@, i as int);
                assert(s@.take(i + 1).drop_last() =~= s@.take(i as int));
            }
            return None;
        }
        assert(d == hex_val(s@[i as int]));
        acc = acc * 16 + d;
        assert(s@.take(i + 1).drop_last() =~= s@.take(i as int));
        i = i + 1;
    }
    assert(s@.take(i as int) =~= s@);
    Some(acc)
}

/// A longer run of digits never reads as a smaller value.
proof fn lemma_dec_value_grows(s: Seq<u8>, i: int)
    requires
        0 <= i < s.len(),
        all_digits(s.take(i + 1)),
    ensures
        all_digits(s) ==> dec_value(s) >= dec_value(s.take(i + 1)),
    decreases s.len() - i,
{
    if i + 1 == s.len() {
        assert(s.take(i + 1) =~= s);
    } else {
        if all_digits(s) {
            assert(all_digits(s.take(i + 2))) by {
                assert(forall|j: int| 0 <= j < i + 2 ==> s.take(i + 2)[j] == s[j]);
            }
            lemma_hex_dec_step(s, i);
            lemma_dec_value_grows(s, i + 1);
        }
    }
}

/// One more digit multiplies the value read so far.
proof fn lemma_hex_dec_step(s: Seq<u8>, i: int)
    requires
        0 <= i < s.len() - 1,
    ensures
        dec_value(s.take(i + 2)) >= dec_value(s.take(i + 1)),
        hex_value(s.take(i + 2)) >= hex_value(s.take(i + 1)),
{
    assert(s.take(i + 2).drop_last() =~= s.take(i + 1));
}

/// A longer run of hex digits never reads as a smaller value.
proof fn lemma_hex_value_grows(s: Seq<u8>, i: int)
    requires
        0 <= i < s.len(),
        all_hex_digits(s.take(i + 1)),
    ensures
        all_hex_digits(s) ==> hex_value(s) >= hex_value(s.take(i + 1)),
    decreases s.len() - i,
{
    if i + 1 == s.len() {
        assert(s.take(i + 1) =~= s);
    } else {
        if all_hex_digits(s) {
            assert(all_hex_digits(s.take(i + 2))) by {
                assert(forall|j: int| 0 <= j < i + 2 ==> s.take(i + 2)[j] == s[j]);
            }
            lemma_hex_dec_step(s, i);
            lemma_hex_value_grows(s, i + 1);
        }
    }
}

/// ASCII lowercase of a byte slice.
pub fn lower_vec(s: &[u8]) -> (r: Vec<u8>)
    ensures
        r@ == lower(s@),
{
    let mut out: Vec<u8> = Vec::new();
    let mut i: usize = 0;
    while i < s.len()
        invariant
            0 <= i <= s@.len(),
            out@ =~= lower(s@.take(i as int)),
        decreases s@.len() - i,
    {
        let b = s[i];
        if UPPER_A <= b && b <= UPPER_Z {
            out.push(b + 32);
        } else {
            out.push(b);
        }
        assert(lower(s@.take(i + 1)) =~= lower(s@.take(i as int)).push(lower_byte(s@[i as int])));
        i = i + 1;
    }
    assert(s@.take(i as int) =~= s@);
    out
}

/// Byte-for-byte equality of two slices.
pub fn bytes_eq(a: &[u8], b: &[u8]) -> (r: bool)
    ensures
        r == (a@ == b@),
{
    if a.len() != b.len() {
        assert(a@ != b@);
        return false;
    }
    let mut i: usize = 0;
    while i < a.len()
        invariant
            0 <= i <= a@.len(),
            a@.len() == b@.len(),
            forall|j: int| 0 <= j < i ==> a@[j] == b@[j],
        decreases a@.len() - i,
    {
        if a[i] != b[i] {
            return false;
        }
        i = i + 1;
    }
    proof {
        assert(a@ =~= b@);
    }
    true
}

/// The UTF-8 bytes of a string slice, as an owned vector.
pub fn str_bytes(s: &str) -> (r: Vec<u8>)
    ensures
        r@ == encode_utf8(s@),
{
    s.as_bytes_vec()
}

/// An all-ASCII byte sequence is valid UTF-8 and decodes byte by byte.
pub proof fn lemma_ascii_utf8(s: Seq<u8>)
    requires
        is_ascii_seq(s),
    ensures
        valid_utf8(s),
        decode_utf8(s).len() == s.len(),
    decreases s.len(),
{
    if s.len() > 0 {
        assert(is_leading_byte_width_1(s[0]));
        assert(decode_first_codepoint(s) == codepoint_width_1(s[0]));
        let b0 = s[0];
        assert(b0 & 0x7f == b0) by (bit_vector)
            requires
                b0 < 0x80,
        ;
        assert(length_of_first_codepoint(s) == 1);
        assert(valid_first_scalar(s));
        let rest = pop_first_scalar(s);
        assert(rest =~= s.subrange(1, s.len() as int));
        assert(is_ascii_seq(rest));
        lemma_ascii_utf8(rest);
    }
}

/// Build a `String` from bytes that UTF-8 decoding accepts.
///
/// Relies on `String::from_utf8`: it succeeds exactly on valid UTF-8 input
/// and yields the decoding of the bytes.
#[verifier::external_body]
pub fn bytes_to_string(b: Vec<u8>) -> (r: Option<String>)
    ensures
        r is Some <==> valid_utf8(b@),
        r is Some ==> r->0@ == decode_utf8(b@),
{
    match String::from_utf8(b) {
        Ok(s) => Some(s),
        Err(_) => None,
    }
}

} // verus!
