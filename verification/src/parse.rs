//! Line-level pieces of the wire grammar shared by the request decoder
//! and the chunked decoder: CRLF scanning, whitespace trimming, and
//! `name: value` header lines.

use vstd::prelude::*;

use crate::ascii::{
    all_field_bytes, all_tchars, lower, lower_vec, CR, LF, SP, HTAB, COLON,
};

verus! {

/// Index of the first CRLF pair, if any.
pub open spec fn spec_find_crlf(s: Seq<u8>) -> Option<int>
    decreases s.len(),
{
    if s.len() < 2 {
        None
    } else if s[0] == CR && s[1] == LF {
        Some(0int)
    } else {
        match spec_find_crlf(s.drop_first()) {
            Some(j) => Some(j + 1),
            None => None,
        }
    }
}

/// What `spec_find_crlf` finds is the first CRLF pair.
pub proof fn lemma_find_crlf_props(s: Seq<u8>)
    ensures
        match spec_find_crlf(s) {
            Some(i) => 0 <= i && i + 2 <= s.len() && s[i] == CR && s[i + 1] == LF && forall|j: int|
                0 <= j < i ==> !(#[trigger] s[j] == CR && s[j + 1] == LF),
            None => forall|j: int| 0 <= j && j + 2 <= s.len() ==> !(#[trigger] s[j] == CR && s[j + 1] == LF),
        },
    decreases s.len(),
{
    if s.len() >= 2 && !(s[0] == CR && s[1] == LF) {
        let t = s.drop_first();
        lemma_find_crlf_props(t);
        match spec_find_crlf(t) {
            Some(it) => {
                assert forall|j: int| 0 <= j < it + 1 implies !(#[trigger] s[j] == CR && s[j + 1]
                    == LF) by {
                    if j >= 1 {
                        assert(s[j] == t[j - 1]);
                        assert(s[j + 1] == t[j]);
                    }
                }
            },
            None => {
                assert forall|j: int| 0 <= j && j + 2 <= s.len() implies !(#[trigger] s[j] == CR
                    && s[j + 1] == LF) by {
                    if j >= 1 {
                        assert(s[j] == t[j - 1]);
                        assert(s[j + 1] == t[j]);
                    }
                }
            },
        }
    }
}

/// Find the first CRLF pair.
pub fn find_crlf(s: &[u8]) -> (r: Option<usize>)
    ensures
        match r {
            Some(i) => spec_find_crlf(s@) == Some(i as int),
            None => spec_find_crlf(s@) is None,
        },
{
    let n = s.len();
    if n < 2 {
        proof {
            lemma_find_crlf_none(s@);
        }
        return None;
    }
    let mut j: usize = 0;
    while j < n - 1
        invariant
            n == s@.len(),
            2 <= n,
            0 <= j <= n - 1,
            forall|k: int| 0 <= k < j ==> !(#[trigger] s@[k] == CR && s@[k + 1] == LF),
        decreases n - j,
    {
        if s[j] == CR && s[j + 1] == LF {
            proof {
                lemma_find_crlf_first(s@, j as int);
            }
            return Some(j);
        }
        j = j + 1;
    }
    proof {
        lemma_find_crlf_none(s@);
    }
    None
}

/// A pair at `i` with none before it is the one `spec_find_crlf` finds.
proof fn lemma_find_crlf_first(s: Seq<u8>, i: int)
    requires
        0 <= i,
        i + 2 <= s.len(),
        s[i] == CR && s[i + 1] == LF,
        forall|j: int| 0 <= j < i ==> !(#[trigger] s[j] == CR && s[j + 1] == LF),
    ensures
        spec_find_crlf(s) == Some(i),
    decreases s.len(),
{
    if i > 0 {
        let t = s.drop_first();
        assert forall|j: int| 0 <= j < i - 1 implies !(#[trigger] t[j] == CR && t[j + 1] == LF) by {
            assert(t[j] == s[j + 1]);
            assert(t[j + 1] == s[j + 2]);
        }
        assert(t[i - 1] == s[i] && t[i] == s[i + 1]);
        lemma_find_crlf_first(t, i - 1);
    }
}

/// With no pair anywhere, `spec_find_crlf` finds none.
proof fn lemma_find_crlf_none(s: Seq<u8>)
    requires
        forall|j: int| 0 <= j && j + 2 <= s.len() ==> !(#[trigger] s[j] == CR && s[j + 1] == LF),
    ensures
        spec_find_crlf(s) is None,
    decreases s.len(),
{
    if s.len() >= 2 {
        let t = s.drop_first();
        assert forall|j: int| 0 <= j && j + 2 <= t.len() implies !(#[trigger] t[j] == CR && t[j + 1] == LF) by {
            assert(t[j] == s[j + 1]);
            assert(t[j + 1] == s[j + 2]);
        }
        lemma_find_crlf_none(t);
    }
}

/// Index of the first occurrence of `b`, if any.
pub open spec fn spec_find_byte(s: Seq<u8>, b: u8) -> Option<int>
    decreases s.len(),
{
    if s.len() == 0 {
        None
    } else if s[0] == b {
        Some(0int)
    } else {
        match spec_find_byte(s.drop_first(), b) {
            Some(j) => Some(j + 1),
            None => None,
        }
    }
}

/// What `spec_find_byte` finds is the first occurrence.
pub proof fn lemma_find_byte_props(s: Seq<u8>, b: u8)
    ensures
        match spec_find_byte(s, b) {
            Some(i) => 0 <= i < s.len() && s[i] == b && forall|j: int| 0 <= j < i ==> #[trigger] s[j] != b,
            None => forall|j: int| 0 <= j < s.len() ==> #[trigger] s[j] != b,
        },
    decreases s.len(),
{
    if s.len() > 0 && s[0] != b {
        let t = s.drop_first();
        lemma_find_byte_props(t, b);
        assert(forall|j: int| 1 <= j < s.len() ==> #[trigger] s[j] == t[j - 1]);
    }
}

/// Find the first occurrence of `b`.
pub fn find_byte(s: &[u8], b: u8) -> (r: Option<usize>)
    ensures
        match r {
            Some(i) => spec_find_byte(s@, b) == Some(i as int),
            None => spec_find_byte(s@, b) is None,
        },
{
    let n = s.len();
    let mut j: usize = 0;
    while j < n
        invariant
            n == s@.len(),
            0 <= j,
            forall|k: int| 0 <= k < j ==> #[trigger] s@[k] != b,
        decreases n - j,
    {
        if s[j] == b {
            proof {
                lemma_find_byte_first(s@, b, j as int);
            }
            return Some(j);
        }
        j = j + 1;
    }
    proof {
        lemma_find_byte_none(s@, b);
    }
    None
}

proof fn lemma_find_byte_first(s: Seq<u8>, b: u8, i: int)
    requires
        0 <= i < s.len(),
        s[i] == b,
        forall|j: int| 0 <= j < i ==> #[trigger] s[j] != b,
    ensures
        spec_find_byte(s, b) == Some(i),
    decreases s.len(),
{
    if i > 0 {
        lemma_find_byte_first(s.drop_first(), b, i - 1);
    }
}

proof fn lemma_find_byte_none(s: Seq<u8>, b: u8)
    requires
        forall|j: int| 0 <= j < s.len() ==> #[trigger] s[j] != b,
    ensures
        spec_find_byte(s, b) is None,
    decreases s.len(),
{
    if s.len() > 0 {
        lemma_find_byte_none(s.drop_first(), b);
    }
}

/// Whether the four bytes at `i` are CRLFCRLF.
pub open spec fn crlfcrlf_at(s: Seq<u8>, i: int) -> bool {
    s[i] == CR && s[i + 1] == LF && s[i + 2] == CR && s[i + 3] == LF
}

/// Index of the first CRLFCRLF, if any: where the head of a message
/// ends.
pub open spec fn spec_find_crlfcrlf(s: Seq<u8>) -> Option<int>
    decreases s.len(),
{
    if s.len() < 4 {
        None
    } else if crlfcrlf_at(s, 0) {
        Some(0int)
    } else {
        match spec_find_crlfcrlf(s.drop_first()) {
            Some(j) => Some(j + 1),
            None => None,
        }
    }
}

/// What `spec_find_crlfcrlf` finds is the first CRLFCRLF.
pub proof fn lemma_find_crlfcrlf_props(s: Seq<u8>)
    ensures
        match spec_find_crlfcrlf(s) {
            Some(i) => 0 <= i && i + 4 <= s.len() && crlfcrlf_at(s, i) && forall|j: int|
                0 <= j < i ==> !crlfcrlf_at(s, j),
            None => forall|j: int| 0 <= j && j + 4 <= s.len() ==> !crlfcrlf_at(s, j),
        },
    decreases s.len(),
{
    if s.len() >= 4 && !crlfcrlf_at(s, 0) {
        let t = s.drop_first();
        lemma_find_crlfcrlf_props(t);
        assert(forall|j: int| 1 <= j < s.len() ==> #[trigger] s[j] == t[j - 1]);
        match spec_find_crlfcrlf(t) {
            Some(it) => {
                assert(crlfcrlf_at(s, it + 1));
                assert forall|j: int| 0 <= j < it + 1 implies !crlfcrlf_at(s, j) by {
                    if j >= 1 {
                        assert(!crlfcrlf_at(t, j - 1));
                    }
                }
            },
            None => {
                assert forall|j: int| 0 <= j && j + 4 <= s.len() implies !crlfcrlf_at(s, j) by {
                    if j >= 1 {
                        assert(!crlfcrlf_at(t, j - 1));
                    }
                }
            },
        }
    }
}

/// Find the first CRLFCRLF.
pub fn find_crlfcrlf(s: &[u8]) -> (r: Option<usize>)
    ensures
        match r {
            Some(i) => spec_find_crlfcrlf(s@) == Some(i as int),
            None => spec_find_crlfcrlf(s@) is None,
        },
{
    let n = s.len();
    if n < 4 {
        proof {
            lemma_find_crlfcrlf_none(s@);
        }
        return None;
    }
    let mut j: usize = 0;
    while j < n - 3
        invariant
            n == s@.len(),
            4 <= n,
            0 <= j <= n - 3,
            forall|k: int| 0 <= k < j ==> !crlfcrlf_at(s@, k),
        decreases n - j,
    {
        if s[j] == CR && s[j + 1] == LF && s[j + 2] == CR && s[j + 3] == LF {
            proof {
                lemma_find_crlfcrlf_first(s@, j as int);
            }
            return Some(j);
        }
        proof {
            assert(!crlfcrlf_at(s@, j as int));
        }
        j = j + 1;
    }
    proof {
        lemma_find_crlfcrlf_none(s@);
    }
    None
}

proof fn lemma_find_crlfcrlf_first(s: Seq<u8>, i: int)
    requires
        0 <= i,
        i + 4 <= s.len(),
        crlfcrlf_at(s, i),
        forall|j: int| 0 <= j < i ==> !crlfcrlf_at(s, j),
    ensures
        spec_find_crlfcrlf(s) == Some(i),
    decreases s.len(),
{
    if i > 0 {
        let t = s.drop_first();
        assert(forall|j: int| 1 <= j < s.len() ==> #[trigger] s[j] == t[j - 1]);
        assert forall|j: int| 0 <= j < i - 1 implies !crlfcrlf_at(t, j) by {
            assert(!crlfcrlf_at(s, j + 1));
        }
        assert(crlfcrlf_at(t, i - 1));
        lemma_find_crlfcrlf_first(t, i - 1);
    }
}

proof fn lemma_find_crlfcrlf_none(s: Seq<u8>)
    requires
        forall|j: int| 0 <= j && j + 4 <= s.len() ==> !crlfcrlf_at(s, j),
    ensures
        spec_find_crlfcrlf(s) is None,
    decreases s.len(),
{
    if s.len() >= 4 {
        let t = s.drop_first();
        assert(forall|j: int| 1 <= j < s.len() ==> #[trigger] s[j] == t[j - 1]);
        assert forall|j: int| 0 <= j && j + 4 <= t.len() implies !crlfcrlf_at(t, j) by {
            assert(!crlfcrlf_at(s, j + 1));
        }
        lemma_find_crlfcrlf_none(t);
    }
}

/// Optional whitespace byte of the header grammar.
pub open spec fn is_ows(b: u8) -> bool {
    b == SP || b == HTAB
}

/// The sequence with leading whitespace dropped.
pub open spec fn trim_front(s: Seq<u8>) -> Seq<u8>
    decreases s.len(),
{
    if s.len() > 0 && is_ows(s[0]) {
        trim_front(s.drop_first())
    } else {
        s
    }
}

/// The sequence with trailing whitespace dropped.
pub open spec fn trim_back(s: Seq<u8>) -> Seq<u8>
    decreases s.len(),
{
    if s.len() > 0 && is_ows(s.last()) {
        trim_back(s.drop_last())
    } else {
        s
    }
}

/// The sequence with surrounding whitespace dropped.
pub open spec fn trim_ows(s: Seq<u8>) -> Seq<u8> {
    trim_back(trim_front(s))
}

proof fn lemma_trim_front_skip(s: Seq<u8>, a: int)
    requires
        0 <= a <= s.len(),
        forall|j: int| 0 <= j < a ==> is_ows(#[trigger] s[j]),
        a < s.len() ==> !is_ows(s[a]),
    ensures
        trim_front(s) == s.skip(a),
    decreases a,
{
    if a == 0 {
        assert(s.skip(0) =~= s);
    } else {
        let t = s.drop_first();
        assert(forall|j: int| 0 <= j < a - 1 ==> is_ows(#[trigger] t[j]));
        lemma_trim_front_skip(t, a - 1);
        assert(t.skip(a - 1) =~= s.skip(a));
    }
}

proof fn lemma_trim_back_take(s: Seq<u8>, b: int)
    requires
        0 <= b <= s.len(),
        forall|j: int| b <= j < s.len() ==> is_ows(#[trigger] s[j]),
        b > 0 ==> !is_ows(s[b - 1]),
    ensures
        trim_back(s) == s.take(b),
    decreases s.len() - b,
{
    if b == s.len() {
        assert(s.take(b) =~= s);
    } else {
        let t = s.drop_last();
        assert(forall|j: int| b <= j < t.len() ==> is_ows(#[trigger] t[j]));
        lemma_trim_back_take(t, b);
        assert(t.take(b) =~= s.take(b));
    }
}

/// Copy `s` with surrounding whitespace removed.
pub fn trim(s: &[u8]) -> (r: Vec<u8>)
    ensures
        r@ == trim_ows(s@),
{
    let n = s.len();
    let mut a: usize = 0;
    while a < n && (s[a] == SP || s[a] == HTAB)
        invariant
            n == s@.len(),
            0 <= a <= n,
            forall|j: int| 0 <= j < a ==> is_ows(#[trigger] s@[j]),
        decreases n - a,
    {
        a = a + 1;
    }
    proof {
        lemma_trim_front_skip(s@, a as int);
    }
    let mut b: usize = n;
    while b > a && (s[b - 1] == SP || s[b - 1] == HTAB)
        invariant
            n == s@.len(),
            a <= b <= n,
            forall|j: int| b <= j < n ==> is_ows(#[trigger] s@[j]),
        decreases b,
    {
        b = b - 1;
    }
    proof {
        let f = s@.skip(a as int);
        if b == a {
            assert(forall|j: int| 0 <= j < f.len() ==> is_ows(#[trigger] f[j]));
            lemma_trim_back_take(f, 0);
        } else {
            assert(forall|j: int| b - a <= j < f.len() ==> is_ows(#[trigger] f[j]));
            assert(f[b - a - 1] == s@[b - 1]);
            lemma_trim_back_take(f, b - a);
        }
        assert(f.take(b - a) =~= s@.subrange(a as int, b as int));
    }
    let mut out: Vec<u8> = Vec::new();
    let mut i: usize = a;
    while i < b
        invariant
            a <= i <= b <= n,
            n == s@.len(),
            out@ =~= s@.subrange(a as int, i as int),
        decreases b - i,
    {
        out.push(s[i]);
        proof {
            assert(s@.subrange(a as int, i + 1) =~= s@.subrange(a as int, i as int).push(
                s@[i as int],
            ));
        }
        i = i + 1;
    }
    out
}

/// Whether `s` is a nonempty run of token characters.
pub fn is_token(s: &[u8]) -> (r: bool)
    ensures
        r == (s@.len() > 0 && all_tchars(s@)),
{
    if s.len() == 0 {
        return false;
    }
    let n = s.len();
    let mut i: usize = 0;
    while i < n
        invariant
            n == s@.len(),
            0 <= i <= n,
            forall|j: int| 0 <= j < i ==> crate::ascii::is_tchar(#[trigger] s@[j]),
        decreases n - i,
    {
        let b = s[i];
        let ok = (48 <= b && b <= 57) || (97 <= b && b <= 122) || (65 <= b && b <= 90) || b == 0x21
            || b == 0x23 || b == 0x24 || b == 0x25 || b == 0x26 || b == 0x27 || b == 0x2a || b
            == 0x2b || b == 0x2d || b == 0x2e || b == 0x5e || b == 0x5f || b == 0x60 || b == 0x7c
            || b == 0x7e;
        if !ok {
            assert(!crate::ascii::is_tchar(s@[i as int]));
            return false;
        }
        i = i + 1;
    }
    true
}

/// Whether every byte of `s` may stand in a header field value.
pub fn field_bytes_ok(s: &[u8]) -> (r: bool)
    ensures
        r == all_field_bytes(s@),
{
    let n = s.len();
    let mut i: usize = 0;
    while i < n
        invariant
            n == s@.len(),
            0 <= i <= n,
            forall|j: int| 0 <= j < i ==> crate::ascii::is_field_byte(#[trigger] s@[j]),
        decreases n - i,
    {
        let b = s[i];
        if !(b == SP || b == HTAB || (0x21 <= b && b != 0x7f)) {
            assert(!crate::ascii::is_field_byte(s@[i as int]));
            return false;
        }
        i = i + 1;
    }
    true
}

/// A `name: value` header or trailer line read as the grammar gives it:
/// the name is a token (stored lowercase), the value is trimmed.
pub open spec fn spec_header_line(line: Seq<u8>) -> Option<(Seq<u8>, Seq<u8>)> {
    match spec_find_byte(line, COLON) {
        None => None,
        Some(ci) => {
            let name = line.take(ci);
            let value = trim_ows(line.skip(ci + 1));
            if name.len() > 0 && all_tchars(name) && all_field_bytes(value) {
                Some((lower(name), value))
            } else {
                None
            }
        },
    }
}

/// Split a header or trailer line into its lowercased name and
/// trimmed value.
pub fn parse_header_line(line: &[u8]) -> (r: Option<(Vec<u8>, Vec<u8>)>)
    ensures
        match r {
            Some(p) => spec_header_line(line@) == Some((p.0@, p.1@)),
            None => spec_header_line(line@) is None,
        },
{
    let ci = match find_byte(line, COLON) {
        None => {
            return None;
        },
        Some(ci) => ci,
    };
    proof {
        lemma_find_byte_props(line@, COLON);
    }
    assert(ci < line.len());
    let name = vstd::slice::slice_subrange(line, 0, ci);
    let rest = vstd::slice::slice_subrange(line, ci + 1, line.len());
    proof {
        assert(name@ =~= line@.take(ci as int));
        assert(rest@ =~= line@.skip(ci + 1));
    }
    if !is_token(name) {
        return None;
    }
    let value = trim(rest);
    if !field_bytes_ok(value.as_slice()) {
        return None;
    }
    let lowered = lower_vec(name);
    Some((lowered, value))
}

} // verus!
