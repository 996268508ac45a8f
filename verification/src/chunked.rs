//! The chunked transfer coding, both directions: each frame is a
//! hexadecimal size line, the payload, and CRLF; a zero-size frame ends
//! the body and may be followed by trailer fields and a blank line.

use vstd::prelude::*;
use vstd::slice::{slice_subrange, slice_to_vec};

use crate::ascii::{
    all_hex_digits, hex_numeral, hex_value, push_bytes, push_hex, CR, LF, SEMI, DIGIT_0,
};
use crate::parse::{
    find_byte, find_crlf, lemma_find_byte_props, lemma_find_crlf_props, parse_header_line,
    spec_find_byte, spec_find_crlf, spec_header_line,
};
use crate::trailers::Trailers;

verus! {

/// The frame for one non-empty payload slice:
/// `<hex-size>\r\n<payload>\r\n`.
pub open spec fn spec_chunk(data: Seq<u8>) -> Seq<u8> {
    hex_numeral(data.len()) + seq![CR, LF] + data + seq![CR, LF]
}

/// The closing frame `0\r\n\r\n`.
pub open spec fn spec_last_chunk() -> Seq<u8> {
    seq![DIGIT_0, CR, LF, CR, LF]
}

/// A whole body of known content in chunked form: one frame holding all
/// of it (none when it is empty), then the closing frame.
pub open spec fn spec_chunked_whole(data: Seq<u8>) -> Seq<u8> {
    if data.len() == 0 {
        spec_last_chunk()
    } else {
        spec_chunk(data) + spec_last_chunk()
    }
}

/// Frame one non-empty payload slice.
pub fn encode_chunk(data: &[u8]) -> (r: Vec<u8>)
    requires
        data@.len() > 0,
    ensures
        r@ == spec_chunk(data@),
{
    let mut out: Vec<u8> = Vec::new();
    push_hex(&mut out, data.len() as u64);
    out.push(CR);
    out.push(LF);
    push_bytes(&mut out, data);
    out.push(CR);
    out.push(LF);
    proof {
        assert(out@ =~= spec_chunk(data@));
    }
    out
}

/// The closing frame.
pub fn encode_last_chunk() -> (r: Vec<u8>)
    ensures
        r@ == spec_last_chunk(),
{
    let mut out: Vec<u8> = Vec::new();
    out.push(DIGIT_0);
    out.push(CR);
    out.push(LF);
    out.push(CR);
    out.push(LF);
    proof {
        assert(out@ =~= spec_last_chunk());
    }
    out
}

/// Frame a whole body of known content.
pub fn encode_chunked_whole(data: &[u8]) -> (r: Vec<u8>)
    ensures
        r@ == spec_chunked_whole(data@),
{
    if data.len() == 0 {
        encode_last_chunk()
    } else {
        let mut out = encode_chunk(data);
        let mut last = encode_last_chunk();
        push_bytes(&mut out, last.as_slice());
        out
    }
}

/// What reading a chunked stream prefix yields in the abstract: the
/// payload and trailers with the bytes consumed, a request for more
/// input, or a framing fault.
pub enum SpecChunked {
    Done { payload: Seq<u8>, trailers: Seq<(Seq<u8>, Seq<u8>)>, consumed: int },
    More,
    Bad,
}

/// What reading the trailer section yields in the abstract.
pub enum SpecTrailers {
    Done { trailers: Seq<(Seq<u8>, Seq<u8>)>, consumed: int },
    More,
    Bad,
}

/// The size digits of a chunk-size line: everything before any
/// extension introduced by a semicolon.
pub open spec fn spec_size_field(line: Seq<u8>) -> Seq<u8> {
    match spec_find_byte(line, SEMI) {
        Some(si) => line.take(si),
        None => line,
    }
}

/// Reading of the trailer section: `name: value` lines up to a blank
/// line, delivered in order of appearance.
pub open spec fn spec_decode_trailers(s: Seq<u8>) -> SpecTrailers
    decreases s.len(),
{
    match spec_find_crlf(s) {
        None => SpecTrailers::More,
        Some(le) => if !(0 <= le && le + 2 <= s.len()) {
            SpecTrailers::More
        } else if le == 0 {
            SpecTrailers::Done { trailers: Seq::empty(), consumed: 2 }
        } else {
            match spec_header_line(s.take(le)) {
                None => SpecTrailers::Bad,
                Some(entry) => match spec_decode_trailers(s.skip(le + 2)) {
                    SpecTrailers::Done { trailers, consumed } => SpecTrailers::Done {
                        trailers: seq![entry] + trailers,
                        consumed: le + 2 + consumed,
                    },
                    SpecTrailers::More => SpecTrailers::More,
                    SpecTrailers::Bad => SpecTrailers::Bad,
                },
            }
        },
    }
}

/// Reading of a chunked stream prefix: the payload is the concatenation
/// of the chunk payloads, byte for byte; the trailers come from the
/// section after the zero-size frame.
pub open spec fn spec_decode_chunked(s: Seq<u8>) -> SpecChunked
    decreases s.len(),
{
    match spec_find_crlf(s) {
        None => SpecChunked::More,
        Some(le) => if !(0 < le && le + 2 <= s.len()) {
            if le == 0 {
                SpecChunked::Bad
            } else {
                SpecChunked::More
            }
        } else {
            let field = spec_size_field(s.take(le));
            if !(field.len() > 0 && all_hex_digits(field) && hex_value(field) <= u64::MAX) {
                SpecChunked::Bad
            } else {
                let size = hex_value(field) as int;
                let rest = s.skip(le + 2);
                if size == 0 {
                    match spec_decode_trailers(rest) {
                        SpecTrailers::Done { trailers, consumed } => SpecChunked::Done {
                            payload: Seq::empty(),
                            trailers,
                            consumed: le + 2 + consumed,
                        },
                        SpecTrailers::More => SpecChunked::More,
                        SpecTrailers::Bad => SpecChunked::Bad,
                    }
                } else if rest.len() < size + 2 {
                    SpecChunked::More
                } else if rest[size] == CR && rest[size + 1] == LF {
                    match spec_decode_chunked(rest.skip(size + 2)) {
                        SpecChunked::Done { payload, trailers, consumed } => SpecChunked::Done {
                            payload: rest.take(size) + payload,
                            trailers,
                            consumed: le + 2 + size + 2 + consumed,
                        },
                        SpecChunked::More => SpecChunked::More,
                        SpecChunked::Bad => SpecChunked::Bad,
                    }
                } else {
                    SpecChunked::Bad
                }
            }
        },
    }
}

/// What a completed reading consumes never exceeds the input.
pub proof fn lemma_trailers_consumed(s: Seq<u8>)
    ensures
        spec_decode_trailers(s) matches SpecTrailers::Done { consumed, .. } ==> 0 <= consumed
            <= s.len(),
    decreases s.len(),
{
    match spec_find_crlf(s) {
        None => {},
        Some(le) => {
            if 0 < le && le + 2 <= s.len() {
                lemma_trailers_consumed(s.skip(le + 2));
            }
        },
    }
}

/// What a completed reading consumes never exceeds the input.
pub proof fn lemma_chunked_consumed(s: Seq<u8>)
    ensures
        spec_decode_chunked(s) matches SpecChunked::Done { consumed, .. } ==> 0 <= consumed
            <= s.len(),
    decreases s.len(),
{
    match spec_find_crlf(s) {
        None => {},
        Some(le) => {
            if 0 < le && le + 2 <= s.len() {
                let field = spec_size_field(s.take(le));
                if field.len() > 0 && all_hex_digits(field) && hex_value(field) <= u64::MAX {
                    let size = hex_value(field) as int;
                    let rest = s.skip(le + 2);
                    if size == 0 {
                        lemma_trailers_consumed(rest);
                    } else if rest.len() >= size + 2 {
                        lemma_chunked_consumed(rest.skip(size + 2));
                    }
                }
            }
        },
    }
}

/// Outcome of reading a chunked stream prefix.
pub enum ChunkedOutcome {
    /// The whole body was present: its payload, its trailers, and how
    /// many input bytes the coding occupied.
    Complete(Vec<u8>, Trailers, usize),
    /// The prefix ends before the body does.
    Incomplete,
    /// The bytes do not follow the chunked grammar.
    Malformed,
}

/// Outcome of reading the trailer section.
enum TrailersOutcome {
    Complete(Trailers, usize),
    Incomplete,
    Malformed,
}

/// Read the trailer section at the head of `input`.
fn decode_trailers(input: &[u8]) -> (r: TrailersOutcome)
    ensures
        match r {
            TrailersOutcome::Complete(t, c) => spec_decode_trailers(input@)
                == (SpecTrailers::Done { trailers: t.headers@, consumed: c as int })
                && t.headers.wf(),
            TrailersOutcome::Incomplete => spec_decode_trailers(input@) is More,
            TrailersOutcome::Malformed => spec_decode_trailers(input@) is Bad,
        },
    decreases input@.len(),
{
    let le = match find_crlf(input) {
        None => {
            return TrailersOutcome::Incomplete;
        },
        Some(le) => le,
    };
    let n = input.len();
    proof {
        lemma_find_crlf_props(input@);
    }
    if le == 0 {
        let t = Trailers::new();
        proof {
            assert(t.headers@ =~= Seq::<(Seq<u8>, Seq<u8>)>::empty());
        }
        return TrailersOutcome::Complete(t, 2);
    }
    let line = slice_subrange(input, 0, le);
    proof {
        assert(line@ =~= input@.take(le as int));
    }
    let (name, value) = match parse_header_line(line) {
        None => {
            return TrailersOutcome::Malformed;
        },
        Some(p) => p,
    };
    let rest = slice_subrange(input, le + 2, n);
    proof {
        assert(rest@ =~= input@.skip(le + 2));
    }
    match decode_trailers(rest) {
        TrailersOutcome::Complete(mut t, c) => {
            proof {
                lemma_trailers_consumed(rest@);
                match spec_find_byte(line@, crate::ascii::COLON) {
                    Some(ci) => {
                        crate::headers::lemma_lower_tchars(line@.take(ci));
                    },
                    None => {
                        assert(false);
                    },
                }
            }
            t.headers.prepend(name, value);
            TrailersOutcome::Complete(t, le + 2 + c)
        },
        TrailersOutcome::Incomplete => TrailersOutcome::Incomplete,
        TrailersOutcome::Malformed => TrailersOutcome::Malformed,
    }
}

/// Read a whole chunked body at the head of `input`.
pub fn decode_chunked(input: &[u8]) -> (r: ChunkedOutcome)
    ensures
        match r {
            ChunkedOutcome::Complete(p, t, c) => spec_decode_chunked(input@) == (SpecChunked::Done {
                payload: p@,
                trailers: t.headers@,
                consumed: c as int,
            }) && t.headers.wf() && c <= input@.len(),
            ChunkedOutcome::Incomplete => spec_decode_chunked(input@) is More,
            ChunkedOutcome::Malformed => spec_decode_chunked(input@) is Bad,
        },
    decreases input@.len(),
{
    let le = match find_crlf(input) {
        None => {
            return ChunkedOutcome::Incomplete;
        },
        Some(le) => le,
    };
    let n = input.len();
    proof {
        lemma_find_crlf_props(input@);
    }
    if le == 0 {
        return ChunkedOutcome::Malformed;
    }
    let line = slice_subrange(input, 0, le);
    proof {
        assert(line@ =~= input@.take(le as int));
    }
    let field_end = match find_byte(line, SEMI) {
        Some(si) => {
            proof {
                lemma_find_byte_props(line@, SEMI);
            }
            si
        },
        None => line.len(),
    };
    let field = slice_subrange(line, 0, field_end);
    proof {
        assert(field@ =~= spec_size_field(line@));
    }
    let size = match crate::ascii::parse_hex(field) {
        None => {
            return ChunkedOutcome::Malformed;
        },
        Some(v) => v,
    };
    let rest = slice_subrange(input, le + 2, n);
    proof {
        assert(rest@ =~= input@.skip(le + 2));
    }
    if size == 0 {
        match decode_trailers(rest) {
            TrailersOutcome::Complete(t, c) => {
                proof {
                    lemma_trailers_consumed(rest@);
                }
                ChunkedOutcome::Complete(Vec::new(), t, le + 2 + c)
            },
            TrailersOutcome::Incomplete => ChunkedOutcome::Incomplete,
            TrailersOutcome::Malformed => ChunkedOutcome::Malformed,
        }
    } else {
        let rest_len = rest.len();
        if rest_len < 2 || ((rest_len - 2) as u64) < size {
            return ChunkedOutcome::Incomplete;
        }
        let size_u: usize = size as usize;
        if rest[size_u] == CR && rest[size_u + 1] == LF {
            let tail = slice_subrange(rest, size_u + 2, rest_len);
            proof {
                assert(tail@ =~= rest@.skip(size_u + 2));
            }
            match decode_chunked(tail) {
                ChunkedOutcome::Complete(p2, t, c2) => {
                    let data = slice_subrange(rest, 0, size_u);
                    let mut payload = slice_to_vec(data);
                    push_bytes(&mut payload, p2.as_slice());
                    proof {
                        assert(payload@ =~= rest@.take(size_u as int) + p2@);
                    }
                    ChunkedOutcome::Complete(payload, t, le + 2 + size_u + 2 + c2)
                },
                ChunkedOutcome::Incomplete => ChunkedOutcome::Incomplete,
                ChunkedOutcome::Malformed => ChunkedOutcome::Malformed,
            }
        } else {
            ChunkedOutcome::Malformed
        }
    }
}

} // verus!
