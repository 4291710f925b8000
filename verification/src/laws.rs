//! The laws of range negotiation, stated over the specification functions
//! and proved once for all inputs.

use vstd::prelude::*;
use crate::digits::{dec_bytes, digits_val, is_digit, lemma_dec_bytes, valid_num};
use crate::ranges::{
    has_bytes_prefix, is_ws, lemma_find_byte_at, lemma_find_byte_none,
    parse_candidate, parse_cands, spec_parse, trim_back, trim_front, trim_ws, ByteRange,
    CandOutcome, CandsModel, ParseModel,
};
use crate::respond::{
    content_range_single, content_range_unsat, content_type_of, spec_respond, BodyModel,
    ResourceStat, ResponseModel,
};

verus! {

/// The bytes of the unit prefix `bytes=`.
pub open spec fn bytes_unit_prefix() -> Seq<u8> {
    seq![98u8, 121u8, 116u8, 101u8, 115u8, 61u8]
}

/// The bytes of the header value `bytes=<a>-<b>`.
pub open spec fn explicit_header(a: u64, b: u64) -> Seq<u8> {
    bytes_unit_prefix() + dec_bytes(a as nat) + seq![45u8] + dec_bytes(b as nat)
}

/// The bytes of the header value `bytes=<a>-`.
pub open spec fn open_header(a: u64) -> Seq<u8> {
    bytes_unit_prefix() + dec_bytes(a as nat) + seq![45u8]
}

/// The bytes of the header value `bytes=-<k>`.
pub open spec fn suffix_header(k: u64) -> Seq<u8> {
    bytes_unit_prefix() + seq![45u8] + dec_bytes(k as nat)
}

/// Trimming does nothing to a string without whitespace at its ends.
proof fn lemma_trim_noop(s: Seq<u8>)
    requires
        s.len() == 0 || (!is_ws(s[0]) && !is_ws(s.last())),
    ensures
        trim_ws(s) == s,
{
    assert(trim_front(s) == s);
    assert(trim_back(s) == s);
}

/// A header of the unit prefix and one candidate without commas parses to
/// whatever the candidate alone yields.
proof fn lemma_single_candidate(c: Seq<u8>, size: u64)
    requires
        forall|j: int| 0 <= j < c.len() ==> c[j] != 44,
    ensures
        spec_parse(bytes_unit_prefix() + c, size) == (match parse_candidate(c, size) {
            CandOutcome::Skip => ParseModel::Ranges(Seq::empty()),
            CandOutcome::Invalid => ParseModel::InvalidSyntax,
            CandOutcome::Dropped => ParseModel::NoOverlap,
            CandOutcome::Kept(r) => ParseModel::Ranges(seq![r]),
        }),
{
    let p = bytes_unit_prefix();
    let h = p + c;
    assert(h.len() == 6 + c.len());
    assert(h[0] == 98 && h[1] == 121 && h[2] == 116 && h[3] == 101 && h[4] == 115 && h[5]
        == 61);
    assert(has_bytes_prefix(h));
    let t = h.subrange(6, h.len() as int);
    assert(t =~= c);
    assert forall|j: int| 0 <= j < c.len() implies c[j] != 44 by {}
    lemma_find_byte_none(c, 44);
    let init = CandsModel { ok: true, kept: Seq::<ByteRange>::empty(), dropped: false };
    assert(parse_cands(c, size) == crate::ranges::fold_candidate(
        parse_candidate(c, size),
        init,
    ));
    match parse_candidate(c, size) {
        CandOutcome::Kept(r) => {
            assert(seq![r] + Seq::<ByteRange>::empty() =~= seq![r]);
        },
        _ => {},
    }
}

/// An explicit candidate `<a>-<b>` with `a <= b` is dropped when it starts
/// at or past the end of the resource, and otherwise keeps the range from
/// `a` to `b`, clipped to the resource's last byte.
proof fn lemma_candidate_explicit(a: u64, b: u64, size: u64)
    requires
        a <= b,
    ensures
        parse_candidate(dec_bytes(a as nat) + seq![45u8] + dec_bytes(b as nat), size) == (
        if a >= size {
            CandOutcome::Dropped
        } else {
            CandOutcome::Kept(ByteRange {
                start: a,
                length: if b < size {
                    (b - a + 1) as u64
                } else {
                    (size - a) as u64
                },
            })
        }),
{
    lemma_dec_bytes(a as nat);
    lemma_dec_bytes(b as nat);
    let va = dec_bytes(a as nat);
    let vb = dec_bytes(b as nat);
    let na = va.len() as int;
    let c = va + seq![45u8] + vb;
    assert(c.len() == na + 1 + vb.len());
    assert forall|j: int| 0 <= j < na implies c[j] == va[j] by {}
    assert(c[na] == 45);
    assert forall|j: int| na < j < c.len() implies c[j] == vb[j - na - 1] by {}
    assert(is_digit(c[0]) && !is_ws(c[0]));
    assert(c.last() == vb[vb.len() - 1]);
    assert(is_digit(c.last()) && !is_ws(c.last()));
    lemma_trim_noop(c);
    assert forall|j: int| 0 <= j < na implies c[j] != 45 by {
        assert(is_digit(va[j]));
    }
    lemma_find_byte_at(c, 45, na);
    let ap = trim_ws(c.subrange(0, na));
    let bp = trim_ws(c.subrange(na + 1, c.len() as int));
    assert(c.subrange(0, na) =~= va);
    assert(c.subrange(na + 1, c.len() as int) =~= vb);
    lemma_trim_noop(va);
    lemma_trim_noop(vb);
    assert(ap == va && bp == vb);
    assert(valid_num(va) && digits_val(va) == a);
    assert(valid_num(vb) && digits_val(vb) == b);
}

/// An open candidate `<a>-` is dropped when it starts at or past the end
/// of the resource, and otherwise keeps everything from `a` on.
proof fn lemma_candidate_open(a: u64, size: u64)
    ensures
        parse_candidate(dec_bytes(a as nat) + seq![45u8], size) == (if a >= size {
            CandOutcome::Dropped
        } else {
            CandOutcome::Kept(ByteRange { start: a, length: (size - a) as u64 })
        }),
{
    lemma_dec_bytes(a as nat);
    let va = dec_bytes(a as nat);
    let na = va.len() as int;
    let c = va + seq![45u8];
    assert(c.len() == na + 1);
    assert forall|j: int| 0 <= j < na implies c[j] == va[j] by {}
    assert(c[na] == 45);
    assert(is_digit(c[0]) && !is_ws(c[0]));
    assert(!is_ws(c.last()));
    lemma_trim_noop(c);
    assert forall|j: int| 0 <= j < na implies c[j] != 45 by {
        assert(is_digit(va[j]));
    }
    lemma_find_byte_at(c, 45, na);
    assert(c.subrange(0, na) =~= va);
    assert(c.subrange(na + 1, c.len() as int) =~= Seq::<u8>::empty());
    lemma_trim_noop(va);
    lemma_trim_noop(Seq::<u8>::empty());
    assert(valid_num(va) && digits_val(va) == a);
}

/// A suffix candidate `-<k>` keeps the last `k` bytes of the resource,
/// all of it when `k` overshoots, and is dropped when it means no byte.
proof fn lemma_candidate_suffix(k: u64, size: u64)
    ensures
        parse_candidate(seq![45u8] + dec_bytes(k as nat), size) == (if k == 0 || size == 0 {
            CandOutcome::Dropped
        } else {
            CandOutcome::Kept(ByteRange {
                start: if k > size {
                    0u64
                } else {
                    (size - k) as u64
                },
                length: if k > size {
                    size
                } else {
                    k
                },
            })
        }),
{
    lemma_dec_bytes(k as nat);
    let vk = dec_bytes(k as nat);
    let c = seq![45u8] + vk;
    assert(c.len() == 1 + vk.len());
    assert(c[0] == 45);
    assert forall|j: int| 1 <= j < c.len() implies c[j] == vk[j - 1] by {}
    assert(!is_ws(c[0]));
    assert(c.last() == vk[vk.len() - 1]);
    assert(is_digit(c.last()) && !is_ws(c.last()));
    lemma_trim_noop(c);
    lemma_find_byte_at(c, 45, 0);
    assert(c.subrange(0, 0) =~= Seq::<u8>::empty());
    assert(c.subrange(1, c.len() as int) =~= vk);
    lemma_trim_noop(Seq::<u8>::empty());
    lemma_trim_noop(vk);
    assert(valid_num(vk) && digits_val(vk) == k);
}

/// No candidate of a numeral header contains a comma.
proof fn lemma_numeral_headers_no_comma(a: u64, b: u64)
    ensures
        forall|j: int|
            0 <= j < (dec_bytes(a as nat) + seq![45u8] + dec_bytes(b as nat)).len() ==> (
            dec_bytes(a as nat) + seq![45u8] + dec_bytes(b as nat))[j] != 44,
        forall|j: int|
            0 <= j < (dec_bytes(a as nat) + seq![45u8]).len() ==> (dec_bytes(a as nat)
                + seq![45u8])[j] != 44,
        forall|j: int|
            0 <= j < (seq![45u8] + dec_bytes(b as nat)).len() ==> (seq![45u8] + dec_bytes(
                b as nat,
            ))[j] != 44,
{
    lemma_dec_bytes(a as nat);
    lemma_dec_bytes(b as nat);
    let va = dec_bytes(a as nat);
    let vb = dec_bytes(b as nat);
    assert forall|j: int| 0 <= j < (va + seq![45u8] + vb).len() implies (va + seq![45u8]
        + vb)[j] != 44 by {
        let c = va + seq![45u8] + vb;
        if j < va.len() {
            assert(c[j] == va[j] && is_digit(va[j]));
        } else if j == va.len() {
            assert(c[j] == 45);
        } else {
            assert(c[j] == vb[j - va.len() - 1] && is_digit(vb[j - va.len() - 1]));
        }
    }
    assert forall|j: int| 0 <= j < (va + seq![45u8]).len() implies (va + seq![45u8])[j]
        != 44 by {
        let c = va + seq![45u8];
        if j < va.len() {
            assert(c[j] == va[j] && is_digit(va[j]));
        } else {
            assert(c[j] == 45);
        }
    }
    assert forall|j: int| 0 <= j < (seq![45u8] + vb).len() implies (seq![45u8] + vb)[j]
        != 44 by {
        let c = seq![45u8] + vb;
        if j == 0 {
            assert(c[j] == 45);
        } else {
            assert(c[j] == vb[j - 1] && is_digit(vb[j - 1]));
        }
    }
}

/// How the header `bytes=<a>-<b>` parses, for `a <= b`: no overlap when
/// `a` is at or past the end of the resource, otherwise the one range
/// from `a` to `b` clipped to the resource.
pub proof fn lemma_parse_explicit(a: u64, b: u64, size: u64)
    requires
        a <= b,
    ensures
        spec_parse(explicit_header(a, b), size) == (if a >= size {
            ParseModel::NoOverlap
        } else {
            ParseModel::Ranges(
                seq![
                    ByteRange {
                        start: a,
                        length: if b < size {
                            (b - a + 1) as u64
                        } else {
                            (size - a) as u64
                        },
                    },
                ],
            )
        }),
{
    let c = dec_bytes(a as nat) + seq![45u8] + dec_bytes(b as nat);
    lemma_numeral_headers_no_comma(a, b);
    lemma_candidate_explicit(a, b, size);
    lemma_single_candidate(c, size);
    assert(explicit_header(a, b) =~= bytes_unit_prefix() + c);
}

/// How the header `bytes=<a>-` parses: no overlap when `a` is at or past
/// the end of the resource, otherwise the one range from `a` to the end.
pub proof fn lemma_parse_open(a: u64, size: u64)
    ensures
        spec_parse(open_header(a), size) == (if a >= size {
            ParseModel::NoOverlap
        } else {
            ParseModel::Ranges(seq![ByteRange { start: a, length: (size - a) as u64 }])
        }),
{
    let c = dec_bytes(a as nat) + seq![45u8];
    lemma_numeral_headers_no_comma(a, a);
    lemma_candidate_open(a, size);
    lemma_single_candidate(c, size);
    assert(open_header(a) =~= bytes_unit_prefix() + c);
}

/// How the header `bytes=-<k>` parses: the last `k` bytes of the
/// resource, all of it when `k` overshoots, no overlap when it means no
/// byte.
pub proof fn lemma_parse_suffix(k: u64, size: u64)
    ensures
        spec_parse(suffix_header(k), size) == (if k == 0 || size == 0 {
            ParseModel::NoOverlap
        } else {
            ParseModel::Ranges(
                seq![
                    ByteRange {
                        start: if k > size {
                            0u64
                        } else {
                            (size - k) as u64
                        },
                        length: if k > size {
                            size
                        } else {
                            k
                        },
                    },
                ],
            )
        }),
{
    let c = seq![45u8] + dec_bytes(k as nat);
    lemma_numeral_headers_no_comma(k, k);
    lemma_candidate_suffix(k, size);
    lemma_single_candidate(c, size);
    assert(suffix_header(k) =~= bytes_unit_prefix() + c);
}

/// Without a `Range` header the whole resource is served: status 200,
/// `Content-Length` the resource's size, and the body every byte of it.
pub proof fn law_whole_resource(size: u64, mime: Option<Seq<char>>)
    ensures
        spec_respond(ResourceStat::Found(size), None, mime) == (ResponseModel {
            status: 200,
            content_length: Some(size),
            content_range: None,
            content_type: content_type_of(mime),
            body: BodyModel::Whole,
        }),
{
}

/// A valid single range `bytes=<a>-<b>` with `a <= b < size` is served as
/// partial content: status 206, `Content-Length` of `b - a + 1`,
/// `Content-Range` of `bytes <a>-<b>/<size>`, and the body the bytes from
/// `a` through `b`.
pub proof fn law_single_range(a: u64, b: u64, size: u64, mime: Option<Seq<char>>)
    requires
        a <= b < size,
    ensures
        spec_respond(ResourceStat::Found(size), Some(explicit_header(a, b)), mime)
            == (ResponseModel {
            status: 206,
            content_length: Some((b - a + 1) as u64),
            content_range: Some(content_range_single(a, b, size)),
            content_type: content_type_of(mime),
            body: BodyModel::Slice { start: a, length: (b - a + 1) as u64 },
        }),
{
    lemma_parse_explicit(a, b, size);
    let r = ByteRange { start: a, length: (b - a + 1) as u64 };
    assert((r.start + r.length - 1) as u64 == b);
}

/// An open range `bytes=<a>-` with `a < size` is served exactly as
/// `bytes=<a>-<size - 1>` would be.
pub proof fn law_open_range_equivalent(a: u64, size: u64, mime: Option<Seq<char>>)
    requires
        a < size,
    ensures
        spec_respond(ResourceStat::Found(size), Some(open_header(a)), mime) == spec_respond(
            ResourceStat::Found(size),
            Some(explicit_header(a, (size - 1) as u64)),
            mime,
        ),
{
    lemma_parse_open(a, size);
    lemma_parse_explicit(a, (size - 1) as u64, size);
}

/// A suffix range `bytes=-<k>` with `0 < k <= size` is served exactly as
/// `bytes=<size - k>-<size - 1>` would be.
pub proof fn law_suffix_range_equivalent(k: u64, size: u64, mime: Option<Seq<char>>)
    requires
        0 < k <= size,
    ensures
        spec_respond(ResourceStat::Found(size), Some(suffix_header(k)), mime) == spec_respond(
            ResourceStat::Found(size),
            Some(explicit_header((size - k) as u64, (size - 1) as u64)),
            mime,
        ),
{
    lemma_parse_suffix(k, size);
    lemma_parse_explicit((size - k) as u64, (size - 1) as u64, size);
}

/// A suffix range `bytes=-<k>` with `k > size` on a nonempty resource is
/// served exactly as `bytes=0-<size - 1>` would be: the whole resource.
pub proof fn law_suffix_overlong_equivalent(k: u64, size: u64, mime: Option<Seq<char>>)
    requires
        k > size,
        size >= 1,
    ensures
        spec_respond(ResourceStat::Found(size), Some(suffix_header(k)), mime) == spec_respond(
            ResourceStat::Found(size),
            Some(explicit_header(0, (size - 1) as u64)),
            mime,
        ),
{
    lemma_parse_suffix(k, size);
    lemma_parse_explicit(0, (size - 1) as u64, size);
}

/// A range `bytes=<a>-<b>` that starts at or past the end of the resource
/// is rejected as unsatisfiable: status 416 with
/// `Content-Range: bytes */<size>`.
pub proof fn law_start_past_end(a: u64, b: u64, size: u64, mime: Option<Seq<char>>)
    requires
        size <= a <= b,
    ensures
        spec_respond(ResourceStat::Found(size), Some(explicit_header(a, b)), mime)
            == (ResponseModel {
            status: 416,
            content_length: None,
            content_range: Some(content_range_unsat(size)),
            content_type: None,
            body: BodyModel::Message("Invalid range"@),
        }),
{
    lemma_parse_explicit(a, b, size);
}

/// An open range `bytes=<a>-` that starts at or past the end of the
/// resource is rejected the same way: status 416 with
/// `Content-Range: bytes */<size>`.
pub proof fn law_open_start_past_end(a: u64, size: u64, mime: Option<Seq<char>>)
    requires
        a >= size,
    ensures
        spec_respond(ResourceStat::Found(size), Some(open_header(a)), mime) == (ResponseModel {
            status: 416,
            content_length: None,
            content_range: Some(content_range_unsat(size)),
            content_type: None,
            body: BodyModel::Message("Invalid range"@),
        }),
{
    lemma_parse_open(a, size);
}

/// A header that keeps two or more ranges is rejected outright:
/// status 400 and no range is served.
pub proof fn law_multiple_ranges(
    h: Seq<u8>,
    size: u64,
    mime: Option<Seq<char>>,
    rs: Seq<ByteRange>,
)
    requires
        spec_parse(h, size) == ParseModel::Ranges(rs),
        rs.len() >= 2,
    ensures
        spec_respond(ResourceStat::Found(size), Some(h), mime) == (ResponseModel {
            status: 400,
            content_length: None,
            content_range: None,
            content_type: None,
            body: BodyModel::Message("Multiple ranges not supported"@),
        }),
{
}

/// A malformed header is rejected as unsatisfiable without naming the
/// resource's length: status 416 and no `Content-Range`.
pub proof fn law_malformed_header(h: Seq<u8>, size: u64, mime: Option<Seq<char>>)
    requires
        spec_parse(h, size) == ParseModel::InvalidSyntax,
    ensures
        spec_respond(ResourceStat::Found(size), Some(h), mime) == (ResponseModel {
            status: 416,
            content_length: None,
            content_range: None,
            content_type: None,
            body: BodyModel::Message("Invalid range"@),
        }),
{
}

/// A header that does not begin with `bytes=` is malformed.
pub proof fn law_missing_prefix(h: Seq<u8>, size: u64)
    requires
        !has_bytes_prefix(h),
    ensures
        spec_parse(h, size) == ParseModel::InvalidSyntax,
{
}

/// A resource that could not be opened is 404, whatever the header says.
pub proof fn law_not_found(range_header: Option<Seq<u8>>, mime: Option<Seq<char>>)
    ensures
        spec_respond(ResourceStat::NotFound, range_header, mime) == (ResponseModel {
            status: 404,
            content_length: None,
            content_range: None,
            content_type: None,
            body: BodyModel::Message("Not Found"@),
        }),
{
}

/// Responding is deterministic: the same request against an unchanged
/// resource is answered identically. With `send_file`'s contract, two
/// calls on equal inputs return equal responses.
pub proof fn law_deterministic(
    stat: ResourceStat,
    range_header: Option<Seq<u8>>,
    mime: Option<Seq<char>>,
    r1: ResponseModel,
    r2: ResponseModel,
)
    requires
        r1 == spec_respond(stat, range_header, mime),
        r2 == spec_respond(stat, range_header, mime),
    ensures
        r1 == r2,
{
}

} // verus!
