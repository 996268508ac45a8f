//! The response encoder: status line, framing header chosen from the
//! body's advertised length, a synthesized `Date` unless the user set
//! one, the user headers with framing names stripped, and the body in
//! fixed-length or chunked form.

use vstd::prelude::*;

use crate::ascii::{dec_numeral, push_bytes, push_dec, CR, LF, SP, COLON};
use crate::chunked::{encode_chunked_whole, spec_chunked_whole};
use crate::date::{spec_date, spec_imf_fixdate, HttpDate, YEAR_9999_SECONDS};
use crate::headers::spec_get;
use crate::names::{
    chunked_bytes, content_length_bytes, date_name_bytes, http11_bytes, reason_bytes, spec_chunked,
    spec_content_length, spec_date_name, spec_http11, spec_reason, spec_transfer_encoding,
    transfer_encoding_bytes,
};
use crate::server::response_writer::InnerResponse;

verus! {

/// The status line: `HTTP/1.1 <code> <reason>\r\n`.
pub open spec fn spec_status_line(status: u16) -> Seq<u8> {
    spec_http11() + seq![SP] + dec_numeral(status as nat) + seq![SP] + spec_reason(status) + seq![
        CR,
        LF,
    ]
}

/// One header field on the wire: `name: value\r\n`.
pub open spec fn spec_field_line(f: (Seq<u8>, Seq<u8>)) -> Seq<u8> {
    f.0 + seq![COLON, SP] + f.1 + seq![CR, LF]
}

/// The field lines of a field list, in order.
pub open spec fn spec_field_lines(fields: Seq<(Seq<u8>, Seq<u8>)>) -> Seq<u8>
    decreases fields.len(),
{
    if fields.len() == 0 {
        Seq::empty()
    } else {
        spec_field_lines(fields.drop_last()) + spec_field_line(fields.last())
    }
}

/// Whether a field name is one of the framing headers the encoder owns.
pub open spec fn is_framing_name(name: Seq<u8>) -> bool {
    name == spec_content_length() || name == spec_transfer_encoding()
}

/// The user headers with the framing names stripped.
pub open spec fn spec_strip_framing(entries: Seq<(Seq<u8>, Seq<u8>)>) -> Seq<(Seq<u8>, Seq<u8>)>
    decreases entries.len(),
{
    if entries.len() == 0 {
        Seq::empty()
    } else {
        spec_strip_framing(entries.drop_last()) + if is_framing_name(entries.last().0) {
            Seq::empty()
        } else {
            seq![entries.last()]
        }
    }
}

/// The framing field the encoder chooses: `Content-Length` when the
/// body advertises a length, else `Transfer-Encoding: chunked`.
pub open spec fn spec_framing_field(cl_opt: Option<int>) -> (Seq<u8>, Seq<u8>) {
    match cl_opt {
        Some(n) => (spec_content_length(), dec_numeral(n as nat)),
        None => (spec_transfer_encoding(), spec_chunked()),
    }
}

/// All header fields the head carries, in order: the framing field,
/// a synthesized `Date` unless the user set one, then the user fields
/// with framing names stripped.
pub open spec fn spec_head_fields(
    entries: Seq<(Seq<u8>, Seq<u8>)>,
    cl_opt: Option<int>,
    now: u64,
) -> Seq<(Seq<u8>, Seq<u8>)> {
    seq![spec_framing_field(cl_opt)] + (if spec_get(entries, spec_date_name()) is Some {
        Seq::empty()
    } else {
        seq![(spec_date_name(), spec_imf_fixdate(spec_date(now)))]
    }) + spec_strip_framing(entries)
}

/// The whole head: status line, header fields, blank line.
pub open spec fn spec_head_bytes(
    status: u16,
    entries: Seq<(Seq<u8>, Seq<u8>)>,
    cl_opt: Option<int>,
    now: u64,
) -> Seq<u8> {
    spec_status_line(status) + spec_field_lines(spec_head_fields(entries, cl_opt, now)) + seq![
        CR,
        LF,
    ]
}

/// Whether a fixed-length body cannot be honored: it advertises more
/// bytes than it holds. Sending such a body is refused as a short
/// write.
pub open spec fn spec_short_write(content: Seq<u8>, cl_opt: Option<int>) -> bool {
    match cl_opt {
        Some(n) => n > content.len(),
        None => false,
    }
}

/// The body on the wire: with a known length, exactly the advertised
/// bytes of the content; otherwise the chunked coding of the content.
pub open spec fn spec_body_bytes(content: Seq<u8>, cl_opt: Option<int>) -> Seq<u8>
    recommends
        !spec_short_write(content, cl_opt),
{
    match cl_opt {
        Some(n) => content.take(n),
        None => spec_chunked_whole(content),
    }
}

/// Failure while serializing a response.
#[derive(Debug)]
pub enum EncodeFail {
    /// The body advertises more bytes than it holds.
    ShortWrite,
}

/// The full serialization of a response.
pub open spec fn spec_encode_response(
    status: u16,
    entries: Seq<(Seq<u8>, Seq<u8>)>,
    content: Seq<u8>,
    cl_opt: Option<int>,
    now: u64,
) -> Seq<u8> {
    spec_head_bytes(status, entries, cl_opt, now) + spec_body_bytes(content, cl_opt)
}

/// The lines of a single field are its line.
pub proof fn lemma_field_lines_single(e: (Seq<u8>, Seq<u8>))
    ensures
        spec_field_lines(seq![e]) == spec_field_line(e),
{
    assert(seq![e].drop_last() =~= Seq::<(Seq<u8>, Seq<u8>)>::empty());
    assert(spec_field_lines(Seq::<(Seq<u8>, Seq<u8>)>::empty()) == Seq::<u8>::empty());
    assert(seq![e].last() == e);
    assert(Seq::<u8>::empty() + spec_field_line(e) =~= spec_field_line(e));
}

/// Appending one field extends its lines by one.
pub proof fn lemma_field_lines_snoc(s: Seq<(Seq<u8>, Seq<u8>)>, e: (Seq<u8>, Seq<u8>))
    ensures
        spec_field_lines(s.push(e)) == spec_field_lines(s) + spec_field_line(e),
{
    assert(s.push(e).drop_last() =~= s);
    assert(s.push(e).last() == e);
}

/// The serializer of a response, fixed at a moment in time.
pub struct Encoder {
    pub(crate) resp: InnerResponse,
    pub(crate) now_secs: u64,
}

impl Encoder {
    /// What this encoder writes.
    pub closed spec fn spec_output(&self) -> Seq<u8> {
        spec_encode_response(
            self.resp.spec_status(),
            self.resp.spec_headers(),
            self.resp.spec_body().spec_content(),
            match self.resp.spec_body().spec_length() {
                Some(n) => Some(n as int),
                None => None,
            },
            self.now_secs,
        )
    }

    /// The response this encoder serializes.
    pub closed spec fn spec_resp(&self) -> InnerResponse {
        self.resp
    }

    /// The moment this encoder synthesizes dates for.
    pub closed spec fn spec_now(&self) -> u64 {
        self.now_secs
    }

    /// Hold a response for serialization at the given moment.
    pub fn encode(resp: InnerResponse, now_secs: u64) -> (r: Encoder)
        requires
            now_secs < YEAR_9999_SECONDS,
        ensures
            r.spec_resp() == resp,
            r.spec_now() == now_secs,
    {
        Encoder { resp, now_secs }
    }

    /// The head: status line, fields, blank line.
    #[verifier::rlimit(100)]
    pub fn encode_head(&self) -> (r: Vec<u8>)
        requires
            self.spec_now() < YEAR_9999_SECONDS,
            self.spec_resp().spec_status() <= 999,
        ensures
            r@ == spec_head_bytes(
                self.spec_resp().spec_status(),
                self.spec_resp().spec_headers(),
                match self.spec_resp().spec_body().spec_length() {
                    Some(n) => Some(n as int),
                    None => None,
                },
                self.spec_now(),
            ),
    {
        let ghost entries = self.resp.spec_headers();
        let ghost cl_opt: Option<int> = match self.resp.spec_body().spec_length() {
            Some(n) => Some(n as int),
            None => None,
        };
        let mut out: Vec<u8> = Vec::new();
        // Status line.
        let h11 = http11_bytes();
        push_bytes(&mut out, h11.as_slice());
        out.push(SP);
        push_dec(&mut out, self.resp.status() as u64);
        out.push(SP);
        let reason = reason_bytes(self.resp.status());
        push_bytes(&mut out, reason.as_slice());
        out.push(CR);
        out.push(LF);
        proof {
            assert(out@ =~= spec_status_line(self.resp.spec_status()));
        }
        // Framing field.
        let cl_name = content_length_bytes();
        let te_name = transfer_encoding_bytes();
        match self.resp.body_length() {
            Some(n) => {
                push_bytes(&mut out, cl_name.as_slice());
                out.push(COLON);
                out.push(SP);
                push_dec(&mut out, n as u64);
                out.push(CR);
                out.push(LF);
            },
            None => {
                push_bytes(&mut out, te_name.as_slice());
                out.push(COLON);
                out.push(SP);
                let tok = chunked_bytes();
                push_bytes(&mut out, tok.as_slice());
                out.push(CR);
                out.push(LF);
            },
        }
        proof {
            assert(out@ =~= spec_status_line(self.resp.spec_status()) + spec_field_line(
                spec_framing_field(cl_opt),
            ));
        }
        // Date, unless the user set one.
        let date_name = date_name_bytes();
        proof {
            crate::server::decode::lemma_lower_fixpoint(spec_date_name());
        }
        if !self.resp.has_header(date_name.as_slice()) {
            push_bytes(&mut out, date_name.as_slice());
            out.push(COLON);
            out.push(SP);
            let d = HttpDate::from_secs(self.now_secs).fmt_bytes();
            push_bytes(&mut out, d.as_slice());
            out.push(CR);
            out.push(LF);
        }
        let ghost fixed_prefix = spec_status_line(self.resp.spec_status()) + spec_field_lines(
            seq![spec_framing_field(cl_opt)] + (if spec_get(entries, spec_date_name()) is Some {
                Seq::<(Seq<u8>, Seq<u8>)>::empty()
            } else {
                seq![(spec_date_name(), spec_imf_fixdate(spec_date(self.now_secs)))]
            }),
        );
        proof {
            let framing_only = seq![spec_framing_field(cl_opt)];
            lemma_field_lines_single(spec_framing_field(cl_opt));
            if spec_get(entries, spec_date_name()) is Some {
                assert(framing_only + Seq::<(Seq<u8>, Seq<u8>)>::empty() =~= framing_only);
                assert(out@ =~= fixed_prefix);
            } else {
                let date_field = (spec_date_name(), spec_imf_fixdate(spec_date(self.now_secs)));
                lemma_field_lines_snoc(framing_only, date_field);
                assert(framing_only.push(date_field) =~= framing_only + seq![date_field]);
                assert(out@ =~= fixed_prefix);
            }
        }
        // User fields, framing names stripped.
        let m = self.resp.headers_len();
        let mut i: usize = 0;
        proof {
            assert(entries.take(0int) =~= Seq::<(Seq<u8>, Seq<u8>)>::empty());
        }
        while i < m
            invariant
                0 <= i <= m,
                m == entries.len(),
                entries == self.resp.spec_headers(),
                cl_name@ == spec_content_length(),
                te_name@ == spec_transfer_encoding(),
                out@ == fixed_prefix + spec_field_lines(spec_strip_framing(entries.take(i as int))),
            decreases m - i,
        {
            proof {
                assert(entries.take(i + 1).drop_last() =~= entries.take(i as int));
                assert(entries.take(i + 1).last() == entries[i as int]);
            }
            let name = self.resp.header_name_at(i);
            let keep = !crate::ascii::bytes_eq(name.as_slice(), cl_name.as_slice())
                && !crate::ascii::bytes_eq(name.as_slice(), te_name.as_slice());
            if keep {
                let name = self.resp.header_name_at(i);
                push_bytes(&mut out, name.as_slice());
                out.push(COLON);
                out.push(SP);
                let value = self.resp.header_value_at(i);
                push_bytes(&mut out, value.as_slice());
                out.push(CR);
                out.push(LF);
                proof {
                    let stripped = spec_strip_framing(entries.take(i as int));
                    assert(spec_strip_framing(entries.take(i + 1)) =~= stripped.push(
                        entries[i as int],
                    ));
                    lemma_field_lines_snoc(stripped, entries[i as int]);
                    assert(out@ =~= fixed_prefix + spec_field_lines(
                        spec_strip_framing(entries.take(i + 1)),
                    ));
                }
            } else {
                proof {
                    assert(spec_strip_framing(entries.take(i + 1)) =~= spec_strip_framing(
                        entries.take(i as int),
                    ));
                }
            }
            i = i + 1;
        }
        out.push(CR);
        out.push(LF);
        proof {
            assert(entries.take(m as int) =~= entries);
            let fields = spec_head_fields(entries, cl_opt, self.now_secs);
            lemma_field_lines_concat(
                seq![spec_framing_field(cl_opt)] + (if spec_get(entries, spec_date_name())
                    is Some {
                    Seq::<(Seq<u8>, Seq<u8>)>::empty()
                } else {
                    seq![(spec_date_name(), spec_imf_fixdate(spec_date(self.now_secs)))]
                }),
                spec_strip_framing(entries),
            );
            assert(out@ =~= spec_head_bytes(
                self.resp.spec_status(),
                entries,
                cl_opt,
                self.now_secs,
            ));
        }
        out
    }

    /// The body in fixed-length form: the content up to the advertised
    /// length.
    pub fn encode_fixed_body(&self) -> (r: Vec<u8>)
        requires
            self.spec_resp().spec_body().spec_length() matches Some(n) && n as int
                <= self.spec_resp().spec_body().spec_content().len(),
        ensures
            r@ == spec_body_bytes(
                self.spec_resp().spec_body().spec_content(),
                match self.spec_resp().spec_body().spec_length() {
                    Some(n) => Some(n as int),
                    None => None,
                },
            ),
    {
        let content = self.resp.body_content();
        let n = match self.resp.body_length() {
            Some(n) => n,
            None => {
                proof {
                    assert(false);
                }
                vstd::pervasive::unreached()
            },
        };
        let data = vstd::slice::slice_subrange(content.as_slice(), 0, n);
        let out = vstd::slice::slice_to_vec(data);
        proof {
            assert(out@ =~= self.resp.spec_body().spec_content().take(n as int));
        }
        out
    }

    /// The body in chunked form.
    pub fn encode_chunked_body(&self) -> (r: Vec<u8>)
        ensures
            r@ == spec_chunked_whole(self.spec_resp().spec_body().spec_content()),
    {
        let content = self.resp.body_content();
        encode_chunked_whole(content.as_slice())
    }

    /// The whole serialization: head, then body. A fixed-length body
    /// that holds fewer bytes than it advertises is refused as a short
    /// write; nothing reaches the wire for it.
    pub fn into_bytes(self) -> (r: Result<Vec<u8>, EncodeFail>)
        requires
            self.spec_now() < YEAR_9999_SECONDS,
            self.spec_resp().spec_status() <= 999,
        ensures
            r is Ok <==> !spec_short_write(
                self.spec_resp().spec_body().spec_content(),
                match self.spec_resp().spec_body().spec_length() {
                    Some(n) => Some(n as int),
                    None => None,
                },
            ),
            r matches Ok(data) ==> data@ == self.spec_output() && data@ == spec_encode_response(
                self.spec_resp().spec_status(),
                self.spec_resp().spec_headers(),
                self.spec_resp().spec_body().spec_content(),
                match self.spec_resp().spec_body().spec_length() {
                    Some(n) => Some(n as int),
                    None => None,
                },
                self.spec_now(),
            ),
            r matches Err(e) ==> e is ShortWrite,
    {
        match self.resp.body_length() {
            Some(n) => {
                if n > self.resp.body_content().len() {
                    return Err(EncodeFail::ShortWrite);
                }
                let mut out = self.encode_head();
                let body = self.encode_fixed_body();
                push_bytes(&mut out, body.as_slice());
                Ok(out)
            },
            None => {
                let mut out = self.encode_head();
                let body = self.encode_chunked_body();
                push_bytes(&mut out, body.as_slice());
                Ok(out)
            },
        }
    }
}

/// Field lines distribute over concatenation of field lists.
pub proof fn lemma_field_lines_concat(a: Seq<(Seq<u8>, Seq<u8>)>, b: Seq<(Seq<u8>, Seq<u8>)>)
    ensures
        spec_field_lines(a + b) == spec_field_lines(a) + spec_field_lines(b),
    decreases b.len(),
{
    if b.len() == 0 {
        assert(a + b =~= a);
        assert(spec_field_lines(b) =~= Seq::<u8>::empty());
        assert(spec_field_lines(a) + Seq::<u8>::empty() =~= spec_field_lines(a));
    } else {
        lemma_field_lines_concat(a, b.drop_last());
        assert((a + b).drop_last() =~= a + b.drop_last());
        assert((a + b).last() == b.last());
        assert(spec_field_lines(a) + (spec_field_lines(b.drop_last()) + spec_field_line(b.last()))
            =~= (spec_field_lines(a) + spec_field_lines(b.drop_last())) + spec_field_line(
            b.last(),
        ));
    }
}

} // verus!
