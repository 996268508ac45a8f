//! The laws of the wire format that relate several functions, stated
//! and proved over the same specifications the functions' contracts
//! use.

use vstd::prelude::*;

use crate::ascii::{dec_numeral, CR, LF};
use crate::date::{
    spec_civil_days, spec_date, spec_imf_fixdate, spec_month0, spec_month0_cum, ERA_SHIFT_DAYS,
    YEAR_9999_SECONDS,
};
use crate::headers::{count_name, spec_get};
use crate::names::{spec_content_length, spec_date_name, spec_transfer_encoding};
use crate::parse::spec_find_crlfcrlf;
use vstd::arithmetic::div_mod::{
    lemma_div_is_ordered, lemma_div_pos_is_pos, lemma_fundamental_div_mod,
    lemma_fundamental_div_mod_converse, lemma_mod_bound,
};
use crate::server::decode::{spec_decode, spec_parse_head, SpecDecode};
use crate::server::encode::{
    is_framing_name, spec_encode_response, spec_field_line, spec_framing_field, spec_head_fields,
    spec_status_line, spec_strip_framing, lemma_field_lines_single, lemma_field_lines_snoc,
};

verus! {

/// A name occurs nowhere exactly when its count is zero.
proof fn lemma_count_zero(s: Seq<(Seq<u8>, Seq<u8>)>, name: Seq<u8>)
    ensures
        (count_name(s, name) == 0) <==> (forall|i: int| 0 <= i < s.len() ==> #[trigger] s[i].0
            != name),
    decreases s.len(),
{
    if s.len() > 0 {
        lemma_count_zero(s.drop_last(), name);
        assert forall|i: int| 0 <= i < s.len() - 1 implies #[trigger] s.drop_last()[i].0
            == s[i].0 by {
            assert(s.drop_last()[i] == s[i]);
        }
        assert forall|i: int| 0 <= i < s.len() - 1 implies #[trigger] s[i].0
            == s.drop_last()[i].0 by {
            assert(s.drop_last()[i] == s[i]);
        }
        assert(s.last() == s[s.len() - 1]);
    }
}

/// A name is found exactly when it occurs somewhere.
proof fn lemma_get_none(s: Seq<(Seq<u8>, Seq<u8>)>, name: Seq<u8>)
    ensures
        (spec_get(s, name) is None) <==> (forall|i: int| 0 <= i < s.len() ==> #[trigger] s[i].0
            != name),
    decreases s.len(),
{
    if s.len() > 0 && s[0].0 != name {
        lemma_get_none(s.drop_first(), name);
        assert forall|i: int| 0 <= i < s.len() - 1 implies #[trigger] s.drop_first()[i].0
            == s[i + 1].0 by {
            assert(s.drop_first()[i] == s[i + 1]);
        }
        assert forall|i: int| 1 <= i < s.len() implies #[trigger] s[i].0
            == s.drop_first()[i - 1].0 by {
            assert(s.drop_first()[i - 1] == s[i]);
        }
    }
}

/// Counting distributes over concatenation.
proof fn lemma_count_concat(a: Seq<(Seq<u8>, Seq<u8>)>, b: Seq<(Seq<u8>, Seq<u8>)>, name: Seq<u8>)
    ensures
        count_name(a + b, name) == count_name(a, name) + count_name(b, name),
    decreases b.len(),
{
    if b.len() == 0 {
        assert(a + b =~= a);
    } else {
        lemma_count_concat(a, b.drop_last(), name);
        assert((a + b).drop_last() =~= a + b.drop_last());
        assert((a + b).last() == b.last());
    }
}

/// The count over a single entry.
proof fn lemma_count_single(e: (Seq<u8>, Seq<u8>), name: Seq<u8>)
    ensures
        count_name(seq![e], name) == (if e.0 == name {
            1nat
        } else {
            0nat
        }),
        count_name(Seq::<(Seq<u8>, Seq<u8>)>::empty(), name) == 0,
{
    let s = seq![e];
    assert(s.len() == 1);
    assert(s.drop_last() =~= Seq::<(Seq<u8>, Seq<u8>)>::empty());
    assert(s.last() == e);
    assert(count_name(Seq::<(Seq<u8>, Seq<u8>)>::empty(), name) == 0);
    assert(count_name(s, name) == count_name(s.drop_last(), name) + (if s.last().0 == name {
        1nat
    } else {
        0nat
    }));
}

/// Stripping the framing names leaves none of them behind.
proof fn lemma_strip_no_framing(entries: Seq<(Seq<u8>, Seq<u8>)>)
    ensures
        count_name(spec_strip_framing(entries), spec_content_length()) == 0,
        count_name(spec_strip_framing(entries), spec_transfer_encoding()) == 0,
        count_name(spec_strip_framing(entries), spec_date_name()) == count_name(
            entries,
            spec_date_name(),
        ),
    decreases entries.len(),
{
    if entries.len() > 0 {
        lemma_strip_no_framing(entries.drop_last());
        let s0 = spec_strip_framing(entries.drop_last());
        let e = entries.last();
        assert(spec_date_name() != spec_content_length()) by {
            assert(spec_date_name().len() == 4);
            assert(spec_content_length().len() == 14);
        }
        assert(spec_date_name() != spec_transfer_encoding()) by {
            assert(spec_transfer_encoding().len() == 17);
        }
        if is_framing_name(e.0) {
            assert(s0 + Seq::<(Seq<u8>, Seq<u8>)>::empty() =~= s0);
            lemma_count_concat(s0, Seq::empty(), spec_content_length());
            lemma_count_concat(s0, Seq::empty(), spec_transfer_encoding());
            lemma_count_concat(s0, Seq::empty(), spec_date_name());
        } else {
            lemma_count_concat(s0, seq![e], spec_content_length());
            lemma_count_concat(s0, seq![e], spec_transfer_encoding());
            lemma_count_concat(s0, seq![e], spec_date_name());
            lemma_count_single(e, spec_content_length());
            lemma_count_single(e, spec_transfer_encoding());
            lemma_count_single(e, spec_date_name());
        }
    }
}

/// Stripping distributes over concatenation.
proof fn lemma_strip_concat(a: Seq<(Seq<u8>, Seq<u8>)>, b: Seq<(Seq<u8>, Seq<u8>)>)
    ensures
        spec_strip_framing(a + b) == spec_strip_framing(a) + spec_strip_framing(b),
    decreases b.len(),
{
    if b.len() == 0 {
        assert(a + b =~= a);
        assert(spec_strip_framing(a) + spec_strip_framing(b) =~= spec_strip_framing(a));
    } else {
        lemma_strip_concat(a, b.drop_last());
        assert((a + b).drop_last() =~= a + b.drop_last());
        assert((a + b).last() == b.last());
        assert(spec_strip_framing(a) + (spec_strip_framing(b.drop_last()) + (if is_framing_name(
            b.last().0,
        ) {
            Seq::<(Seq<u8>, Seq<u8>)>::empty()
        } else {
            seq![b.last()]
        })) =~= (spec_strip_framing(a) + spec_strip_framing(b.drop_last())) + (if is_framing_name(
            b.last().0,
        ) {
            Seq::<(Seq<u8>, Seq<u8>)>::empty()
        } else {
            seq![b.last()]
        }));
    }
}

/// The first entry of a non-framing name survives stripping unchanged.
proof fn lemma_get_strip(entries: Seq<(Seq<u8>, Seq<u8>)>, name: Seq<u8>)
    requires
        !is_framing_name(name),
    ensures
        spec_get(spec_strip_framing(entries), name) == spec_get(entries, name),
    decreases entries.len(),
{
    if entries.len() > 0 {
        let e = entries[0];
        let t = entries.drop_first();
        assert(entries =~= seq![e] + t);
        lemma_strip_concat(seq![e], t);
        lemma_get_strip(t, name);
        assert(seq![e].drop_last() =~= Seq::<(Seq<u8>, Seq<u8>)>::empty());
        assert(seq![e].last() == e);
        assert(spec_strip_framing(Seq::<(Seq<u8>, Seq<u8>)>::empty()) =~= Seq::<
            (Seq<u8>, Seq<u8>),
        >::empty());
        if is_framing_name(e.0) {
            assert(spec_strip_framing(seq![e]) =~= Seq::<(Seq<u8>, Seq<u8>)>::empty());
            assert(Seq::<(Seq<u8>, Seq<u8>)>::empty() + spec_strip_framing(t) =~=
                spec_strip_framing(t));
            assert(e.0 != name);
        } else {
            assert(spec_strip_framing(seq![e]) =~= seq![e]);
            let s = seq![e] + spec_strip_framing(t);
            assert(s[0] == e);
            assert(s.drop_first() =~= spec_strip_framing(t));
        }
    }
}

/// Framing-header isolation: whatever framing names the user set among
/// the headers, the head carries exactly one `Content-Length` field
/// when the body advertises a length and none otherwise, and exactly
/// one `Transfer-Encoding` field in the opposite case.
pub proof fn lemma_framing_header_isolation(
    entries: Seq<(Seq<u8>, Seq<u8>)>,
    cl_opt: Option<int>,
    now: u64,
)
    ensures
        count_name(spec_head_fields(entries, cl_opt, now), spec_content_length()) == (
        if cl_opt is Some {
            1nat
        } else {
            0nat
        }),
        count_name(spec_head_fields(entries, cl_opt, now), spec_transfer_encoding()) == (
        if cl_opt is Some {
            0nat
        } else {
            1nat
        }),
{
    let framing = seq![spec_framing_field(cl_opt)];
    let date_part = if spec_get(entries, spec_date_name()) is Some {
        Seq::<(Seq<u8>, Seq<u8>)>::empty()
    } else {
        seq![(spec_date_name(), spec_imf_fixdate(spec_date(now)))]
    };
    let stripped = spec_strip_framing(entries);
    lemma_count_concat(framing + date_part, stripped, spec_content_length());
    lemma_count_concat(framing, date_part, spec_content_length());
    lemma_count_concat(framing + date_part, stripped, spec_transfer_encoding());
    lemma_count_concat(framing, date_part, spec_transfer_encoding());
    lemma_strip_no_framing(entries);
    lemma_count_single(spec_framing_field(cl_opt), spec_content_length());
    lemma_count_single(spec_framing_field(cl_opt), spec_transfer_encoding());
    if date_part.len() > 0 {
        lemma_count_single(date_part[0], spec_content_length());
        lemma_count_single(date_part[0], spec_transfer_encoding());
        assert(date_part =~= seq![date_part[0]]);
    }
    assert(spec_date_name() != spec_content_length()) by {
        assert(spec_date_name().len() == 4);
        assert(spec_content_length().len() == 14);
    }
    assert(spec_date_name() != spec_transfer_encoding()) by {
        assert(spec_transfer_encoding().len() == 17);
    }
    assert(spec_content_length() != spec_transfer_encoding()) by {
        assert(spec_content_length().len() == 14);
        assert(spec_transfer_encoding().len() == 17);
    }
    if date_part.len() > 0 {
        assert(date_part.drop_last() =~= Seq::<(Seq<u8>, Seq<u8>)>::empty());
    }
}

/// Date synthesis: when the user set no `Date` header, the head carries
/// exactly one, the one synthesized for the send instant; when the user
/// set exactly one, that one passes through alone and none is
/// synthesized.
pub proof fn lemma_date_synthesis(entries: Seq<(Seq<u8>, Seq<u8>)>, cl_opt: Option<int>, now: u64)
    ensures
        count_name(entries, spec_date_name()) == 0 ==> count_name(
            spec_head_fields(entries, cl_opt, now),
            spec_date_name(),
        ) == 1 && spec_get(spec_head_fields(entries, cl_opt, now), spec_date_name()) == Some(
            spec_imf_fixdate(spec_date(now)),
        ),
        count_name(entries, spec_date_name()) == 1 ==> count_name(
            spec_head_fields(entries, cl_opt, now),
            spec_date_name(),
        ) == 1 && spec_get(spec_head_fields(entries, cl_opt, now), spec_date_name()) == spec_get(
            entries,
            spec_date_name(),
        ),
{
    let framing = seq![spec_framing_field(cl_opt)];
    let date_part = if spec_get(entries, spec_date_name()) is Some {
        Seq::<(Seq<u8>, Seq<u8>)>::empty()
    } else {
        seq![(spec_date_name(), spec_imf_fixdate(spec_date(now)))]
    };
    let stripped = spec_strip_framing(entries);
    let fields = spec_head_fields(entries, cl_opt, now);
    lemma_count_concat(framing + date_part, stripped, spec_date_name());
    lemma_count_concat(framing, date_part, spec_date_name());
    lemma_strip_no_framing(entries);
    lemma_get_strip(entries, spec_date_name());
    lemma_count_zero(entries, spec_date_name());
    lemma_get_none(entries, spec_date_name());
    lemma_count_single(spec_framing_field(cl_opt), spec_date_name());
    if date_part.len() > 0 {
        lemma_count_single(date_part[0], spec_date_name());
        assert(date_part =~= seq![date_part[0]]);
    }
    assert(spec_date_name() != spec_content_length()) by {
        assert(spec_date_name().len() == 4);
        assert(spec_content_length().len() == 14);
    }
    assert(spec_date_name() != spec_transfer_encoding()) by {
        assert(spec_transfer_encoding().len() == 17);
    }
    if count_name(entries, spec_date_name()) == 0 {
        assert(spec_get(entries, spec_date_name()) is None);
        assert(date_part.len() == 1);
        assert(fields =~= framing + date_part + stripped);
        assert(fields[0] == spec_framing_field(cl_opt));
        assert(fields[1] == (spec_date_name(), spec_imf_fixdate(spec_date(now))));
        assert(fields[0].0 != spec_date_name());
        assert(spec_get(fields, spec_date_name()) == spec_get(
            fields.drop_first(),
            spec_date_name(),
        ));
        assert(fields.drop_first()[0] == fields[1]);
        assert(spec_get(fields.drop_first(), spec_date_name()) == Some(
            spec_imf_fixdate(spec_date(now)),
        ));
        assert(count_name(stripped, spec_date_name()) == 0);
        assert(count_name(fields, spec_date_name()) == count_name(
            framing + date_part,
            spec_date_name(),
        ) + count_name(stripped, spec_date_name()));
        assert(count_name(framing + date_part, spec_date_name()) == 1);
    }
    if count_name(entries, spec_date_name()) == 1 {
        assert(spec_get(entries, spec_date_name()) is Some);
        assert(framing + date_part =~= framing);
        assert(fields =~= framing + stripped);
        assert(fields[0] == spec_framing_field(cl_opt));
        assert(fields.drop_first() =~= stripped);
    }
}

/// Calendar roundtrip: the broken-down date of an instant names the
/// very day the instant falls on — feeding its year, month and day to
/// the independent days-from-civil formula gives back the instant's day
/// count since the epoch.
pub proof fn lemma_date_civil_roundtrip(secs: u64)
    requires
        secs < YEAR_9999_SECONDS,
    ensures
        ({
            let hd = spec_date(secs);
            spec_civil_days(hd.year as int, hd.month as int, hd.day as int) == secs as int / 86400
        }),
{
    let s = secs as int;
    let days = s / 86400;
    lemma_fundamental_div_mod(s, 86400);
    lemma_mod_bound(s, 86400);
    lemma_div_pos_is_pos(s, 86400);
    lemma_div_is_ordered(s, 253402300799int, 86400);
    assert(0 <= days <= 2932896);

    let days_adj = days + ERA_SHIFT_DAYS;
    let qc = days_adj / 146097;
    let r1 = days_adj % 146097;
    lemma_fundamental_div_mod(days_adj, 146097);
    lemma_mod_bound(days_adj, 146097);
    lemma_div_pos_is_pos(days_adj, 146097);
    lemma_div_is_ordered(days_adj, 3067976int, 146097);
    assert(0 <= qc <= 20);
    assert(0 <= r1 < 146097);

    let c0 = r1 / 36524;
    lemma_fundamental_div_mod(r1, 36524);
    lemma_mod_bound(r1, 36524);
    lemma_div_pos_is_pos(r1, 36524);
    lemma_div_is_ordered(r1, 146096int, 36524);
    assert(0 <= c0 <= 4);
    let c = if c0 == 4 {
        3int
    } else {
        c0
    };
    let r2 = r1 - c * 36524;
    assert(0 <= c <= 3);
    assert(0 <= r2 <= 36524);

    let q0 = r2 / 1461;
    lemma_fundamental_div_mod(r2, 1461);
    lemma_mod_bound(r2, 1461);
    lemma_div_pos_is_pos(r2, 1461);
    lemma_div_is_ordered(r2, 36524int, 1461);
    assert(0 <= q0 <= 24);
    let q = if q0 == 25 {
        24int
    } else {
        q0
    };
    let r3 = r2 - q * 1461;
    assert(0 <= q <= 24);
    assert(0 <= r3 <= 1460);

    let ry0 = r3 / 365;
    lemma_fundamental_div_mod(r3, 365);
    lemma_mod_bound(r3, 365);
    lemma_div_pos_is_pos(r3, 365);
    lemma_div_is_ordered(r3, 1460int, 365);
    assert(0 <= ry0 <= 4);
    let ry = if ry0 == 4 {
        3int
    } else {
        ry0
    };
    let r4 = r3 - ry * 365;
    assert(0 <= ry <= 3);
    assert(0 <= r4 <= 365);

    let year0 = 1600 + ry + 4 * q + 100 * c + 400 * qc;
    let m0 = spec_month0(r4);
    let cum = spec_month0_cum(m0);
    let mday = r4 - cum + 1;
    assert(0 <= m0 <= 11);
    assert(1 <= mday <= 31);
    let year = if m0 + 3 > 12 {
        year0 + 1
    } else {
        year0
    };
    let month = if m0 + 3 > 12 {
        m0 + 1 - 10
    } else {
        m0 + 3
    };
    assert(1 <= month <= 12);
    assert(1600 <= year <= 10000);

    let hd = spec_date(secs);
    assert(hd.year == year as u16 && hd.month == month as u8 && hd.day == mday as u8);
    assert(hd.year as int == year && hd.month as int == month && hd.day as int == mday);

    // The inverse formula recombines the same pieces.
    let yy = if month <= 2 {
        year - 1
    } else {
        year
    };
    assert(yy == year0);
    lemma_fundamental_div_mod_converse(yy, 400, 4 + qc, ry + 4 * q + 100 * c);
    let era = yy / 400;
    let yoe = yy - era * 400;
    assert(era == 4 + qc);
    assert(yoe == ry + 4 * q + 100 * c);
    lemma_fundamental_div_mod_converse(yoe, 4, 25 * c + q, ry);
    lemma_fundamental_div_mod_converse(yoe, 100, c, 4 * q + ry);
    assert(yoe / 4 == 25 * c + q);
    assert(yoe / 100 == c);
    let mprime = if month > 2 {
        month - 3
    } else {
        month + 9
    };
    assert(mprime == m0);
    assert((153 * m0 + 2) / 5 == cum);
    let doy = (153 * mprime + 2) / 5 + mday - 1;
    assert(doy == r4);
    let doe = yoe * 365 + yoe / 4 - yoe / 100 + doy;
    assert(doe == 365 * ry + 1461 * q + 36524 * c + r4);
    assert(doe == r1);
    assert(era * 146097 + doe - 719468 == days);
    assert(spec_civil_days(year, month, mday) == days);
}

/// Head parse roundtrip: an input that begins with a well-formed head
/// always decodes to a request, never to a failure; and the canonical
/// empty `200` answer serializes to the same bytes whatever that
/// request was: the status line, `content-length: 0`, the date of the
/// send instant, and a blank line.
pub proof fn lemma_head_parse_roundtrip(input: Seq<u8>, now: u64)
    requires
        spec_find_crlfcrlf(input) matches Some(he) && spec_parse_head(input.take(he + 4)) is Ok,
    ensures
        spec_decode(input) matches SpecDecode::Req(sh, b, t, f, c),
        spec_encode_response(200, Seq::empty(), Seq::empty(), Some(0int), now) == spec_status_line(
            200,
        ) + spec_field_line((spec_content_length(), dec_numeral(0))) + spec_field_line(
            (spec_date_name(), spec_imf_fixdate(spec_date(now))),
        ) + seq![CR, LF],
{
    crate::parse::lemma_find_crlfcrlf_props(input);
    let empty_h = Seq::<(Seq<u8>, Seq<u8>)>::empty();
    let fields = spec_head_fields(empty_h, Some(0int), now);
    let framing = seq![spec_framing_field(Some(0int))];
    let date_field = (spec_date_name(), spec_imf_fixdate(spec_date(now)));
    assert(spec_strip_framing(empty_h) =~= empty_h);
    assert(framing + seq![date_field] + empty_h =~= framing.push(date_field));
    assert(fields =~= framing.push(date_field));
    lemma_field_lines_single(spec_framing_field(Some(0int)));
    lemma_field_lines_snoc(framing, date_field);
    assert(crate::server::encode::spec_body_bytes(Seq::empty(), Some(0int)) =~= Seq::<
        u8,
    >::empty());
    assert(spec_encode_response(200, empty_h, Seq::empty(), Some(0int), now) =~= spec_status_line(
        200,
    ) + spec_field_line((spec_content_length(), dec_numeral(0))) + spec_field_line(date_field)
        + seq![CR, LF]);
}

} // verus!
