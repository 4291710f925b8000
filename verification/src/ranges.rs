//! The `Range` request header grammar and its parser.
//!
//! A header value such as `bytes=0-499,500-` is parsed against the size of
//! the resource into concrete byte ranges. Each comma-separated candidate is
//! one of `start-end`, `start-` or `-suffix`; a candidate is clipped to the
//! resource and dropped when it starts at or past the end. A header that is
//! well formed but keeps no candidate is reported as `NoOverlap`, which a
//! response signals differently from a malformed header.

use vstd::prelude::*;
use crate::digits::{digits_val, parse_u64, valid_num};

verus! {

/// One contiguous run of bytes of a resource: the half-open window
/// `[start, start + length)`. The parser only produces ranges that lie
/// inside the resource and hold at least one byte.
#[derive(Debug, Clone, Copy, PartialEq, Eq, Structural)]
pub struct ByteRange {
    pub start: u64,
    pub length: u64,
}

impl ByteRange {
    /// The range addresses at least one byte and lies inside a resource of
    /// `size` bytes.
    pub open spec fn wf(self, size: u64) -> bool {
        &&& self.start < size
        &&& self.length >= 1
        &&& self.start + self.length <= size
    }
}

/// What the parser made of a whole `Range` header value.
#[derive(Debug, PartialEq)]
pub enum ParseOutcome {
    /// The header was well formed; these are its candidates that overlap
    /// the resource, in header order.
    Ranges(Vec<ByteRange>),
    /// The header was well formed, named at least one range, and none of
    /// them overlaps the resource.
    NoOverlap,
    /// The header is not a well-formed byte-range specification.
    InvalidSyntax,
}

/// Mathematical counterpart of [`ParseOutcome`].
pub enum ParseModel {
    Ranges(Seq<ByteRange>),
    NoOverlap,
    InvalidSyntax,
}

impl View for ParseOutcome {
    type V = ParseModel;

    open spec fn view(&self) -> ParseModel {
        match self {
            ParseOutcome::Ranges(v) => ParseModel::Ranges(v@),
            ParseOutcome::NoOverlap => ParseModel::NoOverlap,
            ParseOutcome::InvalidSyntax => ParseModel::InvalidSyntax,
        }
    }
}

/// The byte is linear whitespace as a header value may carry it.
pub open spec fn is_ws(b: u8) -> bool {
    b == 32 || b == 9
}

/// `s` without leading whitespace.
pub open spec fn trim_front(s: Seq<u8>) -> Seq<u8>
    decreases s.len(),
{
    if s.len() > 0 && is_ws(s[0]) {
        trim_front(s.drop_first())
    } else {
        s
    }
}

/// `s` without trailing whitespace.
pub open spec fn trim_back(s: Seq<u8>) -> Seq<u8>
    decreases s.len(),
{
    if s.len() > 0 && is_ws(s.last()) {
        trim_back(s.drop_last())
    } else {
        s
    }
}

/// `s` without leading and trailing whitespace.
pub open spec fn trim_ws(s: Seq<u8>) -> Seq<u8> {
    trim_back(trim_front(s))
}

/// The position of the first occurrence of `b` in `s`, if any.
pub open spec fn find_byte(s: Seq<u8>, b: u8) -> Option<int>
    decreases s.len(),
{
    if s.len() == 0 {
        None
    } else if s[0] == b {
        Some(0)
    } else {
        match find_byte(s.drop_first(), b) {
            Some(i) => Some(i + 1),
            None => None,
        }
    }
}

/// What a found position means: in bounds, hits `b`, and nothing before
/// it does.
pub proof fn lemma_find_byte_props(s: Seq<u8>, b: u8)
    ensures
        match find_byte(s, b) {
            Some(i) => 0 <= i < s.len() && s[i] == b && forall|j: int|
                0 <= j < i ==> s[j] != b,
            None => forall|j: int| 0 <= j < s.len() ==> s[j] != b,
        },
    decreases s.len(),
{
    if s.len() > 0 && s[0] != b {
        let t = s.drop_first();
        lemma_find_byte_props(t, b);
        assert forall|j: int| 1 <= j < s.len() implies s[j] == t[j - 1] by {}
        match find_byte(t, b) {
            Some(i) => {
                assert(s[i + 1] == t[i]);
                assert forall|j: int| 0 <= j < i + 1 implies s[j] != b by {
                    if j >= 1 {
                        assert(t[j - 1] != b);
                    }
                }
            },
            None => {
                assert forall|j: int| 0 <= j < s.len() implies s[j] != b by {
                    if j >= 1 {
                        assert(t[j - 1] != b);
                    }
                }
            },
        }
    }
}

/// A position that hits `b` with nothing before it is the found position.
pub proof fn lemma_find_byte_at(s: Seq<u8>, b: u8, i: int)
    requires
        0 <= i < s.len(),
        s[i] == b,
        forall|j: int| 0 <= j < i ==> s[j] != b,
    ensures
        find_byte(s, b) == Some(i),
    decreases s.len(),
{
    if i > 0 {
        lemma_find_byte_at(s.drop_first(), b, i - 1);
    }
}

/// No position hits `b`: nothing is found.
pub proof fn lemma_find_byte_none(s: Seq<u8>, b: u8)
    requires
        forall|j: int| 0 <= j < s.len() ==> s[j] != b,
    ensures
        find_byte(s, b) is None,
    decreases s.len(),
{
    if s.len() > 0 {
        lemma_find_byte_none(s.drop_first(), b);
    }
}

/// What one comma-separated candidate contributes.
#[derive(Debug, Clone, Copy, PartialEq, Eq, Structural)]
pub enum CandOutcome {
    /// Nothing but whitespace: the candidate is passed over.
    Skip,
    /// Not a well-formed range specification.
    Invalid,
    /// Well formed, but starts at or past the end of the resource.
    Dropped,
    /// Well formed and overlapping: this range.
    Kept(ByteRange),
}

/// Parse one raw candidate (the text between two commas) against the
/// resource size.
///
/// The candidate is trimmed, split at its first `-`, and read as
/// `start-end`, `start-` or `-suffix`; an `end` past the resource is
/// clipped to its last byte, a `suffix` longer than the resource means the
/// whole of it, and a candidate that begins at or past the end of the
/// resource is dropped as non-overlapping.
pub open spec fn parse_candidate(c: Seq<u8>, size: u64) -> CandOutcome {
    let t = trim_ws(c);
    if t.len() == 0 {
        CandOutcome::Skip
    } else {
        match find_byte(t, 45) {
            None => CandOutcome::Invalid,
            Some(d) => {
                let a = trim_ws(t.subrange(0, d));
                let b = trim_ws(t.subrange(d + 1, t.len() as int));
                if a.len() == 0 {
                    // -suffix: the last `suffix` bytes of the resource.
                    if !valid_num(b) {
                        CandOutcome::Invalid
                    } else {
                        let k = if digits_val(b) > size { size as nat } else { digits_val(b) };
                        if k == 0 {
                            CandOutcome::Dropped
                        } else {
                            CandOutcome::Kept(ByteRange {
                                start: (size - k) as u64,
                                length: k as u64,
                            })
                        }
                    }
                } else if !valid_num(a) {
                    CandOutcome::Invalid
                } else {
                    let s = digits_val(a);
                    if b.len() == 0 {
                        // start-: from `start` to the end of the resource.
                        if s >= size {
                            CandOutcome::Dropped
                        } else {
                            CandOutcome::Kept(ByteRange {
                                start: s as u64,
                                length: (size - s) as u64,
                            })
                        }
                    } else if !valid_num(b) {
                        CandOutcome::Invalid
                    } else {
                        // start-end, both inclusive.
                        let e = digits_val(b);
                        if s > e {
                            CandOutcome::Invalid
                        } else if s >= size {
                            CandOutcome::Dropped
                        } else {
                            let ec = if e >= size { (size - 1) as nat } else { e };
                            CandOutcome::Kept(ByteRange {
                                start: s as u64,
                                length: (ec - s + 1) as u64,
                            })
                        }
                    }
                }
            },
        }
    }
}

/// The candidates of a candidate list, folded together: whether all were
/// well formed, the ranges kept, and whether any was dropped.
pub struct CandsModel {
    pub ok: bool,
    pub kept: Seq<ByteRange>,
    pub dropped: bool,
}

/// Fold one candidate's outcome onto the result for the candidates after
/// it. A malformed candidate spoils the whole list.
pub open spec fn fold_candidate(c: CandOutcome, rest: CandsModel) -> CandsModel {
    if !rest.ok || c is Invalid {
        CandsModel { ok: false, kept: Seq::empty(), dropped: false }
    } else {
        match c {
            CandOutcome::Skip => rest,
            CandOutcome::Dropped => CandsModel { ok: rest.ok, kept: rest.kept, dropped: true },
            CandOutcome::Kept(r) => CandsModel {
                ok: rest.ok,
                kept: seq![r] + rest.kept,
                dropped: rest.dropped,
            },
            CandOutcome::Invalid => rest,  // unreachable under the guard
        }
    }
}

/// Parse the comma-separated candidate list `s` (the header value after
/// `bytes=`).
pub open spec fn parse_cands(s: Seq<u8>, size: u64) -> CandsModel
    decreases s.len(),
    via parse_cands_decreases
{
    match find_byte(s, 44) {
        None => fold_candidate(
            parse_candidate(s, size),
            CandsModel { ok: true, kept: Seq::empty(), dropped: false },
        ),
        Some(i) => fold_candidate(
            parse_candidate(s.subrange(0, i), size),
            parse_cands(s.subrange(i + 1, s.len() as int), size),
        ),
    }
}

#[via_fn]
proof fn parse_cands_decreases(s: Seq<u8>, size: u64) {
    lemma_find_byte_props(s, 44);
}

/// `h` begins with the unit prefix `bytes=`.
pub open spec fn has_bytes_prefix(h: Seq<u8>) -> bool {
    &&& h.len() >= 6
    &&& h[0] == 98
    &&& h[1] == 121
    &&& h[2] == 116
    &&& h[3] == 101
    &&& h[4] == 115
    &&& h[5] == 61
}

/// Parse a whole `Range` header value against the resource size.
///
/// A header without the `bytes=` prefix, or with any malformed candidate,
/// is `InvalidSyntax`. A header whose candidates were all dropped, at
/// least one having been named, is `NoOverlap`. Otherwise the kept ranges
/// are returned in header order.
pub open spec fn spec_parse(h: Seq<u8>, size: u64) -> ParseModel {
    if !has_bytes_prefix(h) {
        ParseModel::InvalidSyntax
    } else {
        let c = parse_cands(h.subrange(6, h.len() as int), size);
        if !c.ok {
            ParseModel::InvalidSyntax
        } else if c.kept.len() == 0 && c.dropped {
            ParseModel::NoOverlap
        } else {
            ParseModel::Ranges(c.kept)
        }
    }
}

/// Every range a well-formed candidate keeps lies inside the resource.
pub proof fn lemma_candidate_wf(c: Seq<u8>, size: u64)
    ensures
        match parse_candidate(c, size) {
            CandOutcome::Kept(r) => r.wf(size),
            _ => true,
        },
{
}

/// Every range the parser keeps lies inside the resource.
pub proof fn lemma_cands_wf(s: Seq<u8>, size: u64)
    ensures
        forall|k: int|
            0 <= k < parse_cands(s, size).kept.len() ==> (
            #[trigger] parse_cands(s, size).kept[k]).wf(size),
    decreases s.len(),
{
    match find_byte(s, 44) {
        None => {
            lemma_candidate_wf(s, size);
            let head = parse_candidate(s, size);
            let rest = CandsModel { ok: true, kept: Seq::<ByteRange>::empty(), dropped: false };
            if head is Kept {
                assert(fold_candidate(head, rest).kept[0] == head->Kept_0);
            }
        },
        Some(i) => {
            lemma_find_byte_props(s, 44);
            lemma_candidate_wf(s.subrange(0, i), size);
            lemma_cands_wf(s.subrange(i + 1, s.len() as int), size);
            let head = parse_candidate(s.subrange(0, i), size);
            let rest = parse_cands(s.subrange(i + 1, s.len() as int), size);
            let whole = parse_cands(s, size);
            assert(whole == fold_candidate(head, rest));
            if whole.ok && head is Kept {
                assert forall|k: int| 0 <= k < whole.kept.len() implies (
                #[trigger] whole.kept[k]).wf(size) by {
                    if k == 0 {
                        assert(whole.kept[0] == head->Kept_0);
                    } else {
                        assert(whole.kept[k] == rest.kept[k - 1]);
                    }
                }
            }
        },
    }
}

/// Every range [`spec_parse`] returns lies inside the resource.
pub proof fn lemma_parse_wf(h: Seq<u8>, size: u64)
    ensures
        match spec_parse(h, size) {
            ParseModel::Ranges(rs) => forall|k: int|
                0 <= k < rs.len() ==> (#[trigger] rs[k]).wf(size),
            _ => true,
        },
{
    if has_bytes_prefix(h) {
        lemma_cands_wf(h.subrange(6, h.len() as int), size);
    }
}

/// Trim `s`: the slice between its first and last bytes that are not
/// whitespace.
fn trim_exec<'a>(s: &'a [u8]) -> (r: &'a [u8])
    ensures
        r@ == trim_ws(s@),
{
    let len = s.len();
    proof {
        assert(s@.subrange(0, len as int) =~= s@);
    }
    let mut i: usize = 0;
    while i < len && (s[i] == 32 || s[i] == 9)
        invariant
            0 <= i <= len == s@.len(),
            trim_front(s@) == trim_front(s@.subrange(i as int, len as int)),
        decreases len - i,
    {
        proof {
            let t = s@.subrange(i as int, len as int);
            assert(t.drop_first() =~= s@.subrange(i + 1, len as int));
        }
        i = i + 1;
    }
    proof {
        let t = s@.subrange(i as int, len as int);
        if i < len {
            assert(!is_ws(t[0]));
        }
        assert(trim_front(s@) == t);
    }
    let mut j: usize = len;
    while j > i && (s[j - 1] == 32 || s[j - 1] == 9)
        invariant
            i <= j <= len == s@.len(),
            trim_front(s@) == s@.subrange(i as int, len as int),
            trim_back(s@.subrange(i as int, len as int)) == trim_back(
                s@.subrange(i as int, j as int),
            ),
        decreases j,
    {
        proof {
            let t = s@.subrange(i as int, j as int);
            assert(t.last() == s@[j - 1]);
            assert(t.drop_last() =~= s@.subrange(i as int, j - 1));
        }
        j = j - 1;
    }
    proof {
        let t = s@.subrange(i as int, j as int);
        if j > i {
            assert(!is_ws(t.last()));
        }
        assert(trim_ws(s@) == t);
    }
    &s[i..j]
}

/// Find the first occurrence of `b` in `s`.
fn find_byte_exec(s: &[u8], b: u8) -> (r: Option<usize>)
    ensures
        match r {
            Some(i) => find_byte(s@, b) == Some(i as int),
            None => find_byte(s@, b) is None,
        },
{
    let mut i: usize = 0;
    while i < s.len()
        invariant
            0 <= i <= s@.len(),
            forall|j: int| 0 <= j < i ==> s@[j] != b,
        decreases s@.len() - i,
    {
        if s[i] == b {
            proof {
                lemma_find_byte_at(s@, b, i as int);
            }
            return Some(i);
        }
        i = i + 1;
    }
    proof {
        lemma_find_byte_none(s@, b);
    }
    None
}

/// Parse one raw candidate. Mirrors [`parse_candidate`].
fn parse_candidate_exec(c: &[u8], size: u64) -> (r: CandOutcome)
    ensures
        r == parse_candidate(c@, size),
{
    let t = trim_exec(c);
    if t.len() == 0 {
        return CandOutcome::Skip;
    }
    let dash = match find_byte_exec(t, 45) {
        None => {
            return CandOutcome::Invalid;
        },
        Some(d) => d,
    };
    proof {
        lemma_find_byte_props(t@, 45);
    }
    let a = trim_exec(&t[0..dash]);
    let b = trim_exec(&t[dash + 1..t.len()]);
    if a.len() == 0 {
        let k0 = match parse_u64(b) {
            None => {
                return CandOutcome::Invalid;
            },
            Some(v) => v,
        };
        let k = if k0 > size {
            size
        } else {
            k0
        };
        if k == 0 {
            CandOutcome::Dropped
        } else {
            CandOutcome::Kept(ByteRange { start: size - k, length: k })
        }
    } else {
        let start = match parse_u64(a) {
            None => {
                return CandOutcome::Invalid;
            },
            Some(v) => v,
        };
        if b.len() == 0 {
            if start >= size {
                CandOutcome::Dropped
            } else {
                CandOutcome::Kept(ByteRange { start, length: size - start })
            }
        } else {
            let end = match parse_u64(b) {
                None => {
                    return CandOutcome::Invalid;
                },
                Some(v) => v,
            };
            if start > end {
                CandOutcome::Invalid
            } else if start >= size {
                CandOutcome::Dropped
            } else {
                let ec = if end >= size {
                    size - 1
                } else {
                    end
                };
                CandOutcome::Kept(ByteRange { start, length: ec - start + 1 })
            }
        }
    }
}

/// Parse a comma-separated candidate list. Mirrors [`parse_cands`]:
/// `None` stands for a malformed candidate, otherwise the kept ranges and
/// whether any candidate was dropped come back.
fn parse_cands_exec(s: &[u8], size: u64) -> (r: Option<(Vec<ByteRange>, bool)>)
    ensures
        match r {
            None => !parse_cands(s@, size).ok,
            Some(p) => {
                let m = parse_cands(s@, size);
                m.ok && p.0@ == m.kept && p.1 == m.dropped
            },
        },
    decreases s@.len(),
{
    match find_byte_exec(s, 44) {
        None => {
            match parse_candidate_exec(s, size) {
                CandOutcome::Invalid => None,
                CandOutcome::Skip => {
                    let v: Vec<ByteRange> = Vec::new();
                    Some((v, false))
                },
                CandOutcome::Dropped => {
                    let v: Vec<ByteRange> = Vec::new();
                    Some((v, true))
                },
                CandOutcome::Kept(r) => {
                    let mut v: Vec<ByteRange> = Vec::new();
                    v.push(r);
                    assert(v@ =~= seq![r] + Seq::<ByteRange>::empty());
                    Some((v, false))
                },
            }
        },
        Some(i) => {
            proof {
                lemma_find_byte_props(s@, 44);
            }
            let n = s.len();
            assert(i < n);
            let head = parse_candidate_exec(&s[0..i], size);
            if matches!(head, CandOutcome::Invalid) {
                return None;
            }
            let rest = match parse_cands_exec(&s[i + 1..n], size) {
                None => {
                    return None;
                },
                Some(p) => p,
            };
            match head {
                CandOutcome::Skip => Some(rest),
                CandOutcome::Dropped => Some((rest.0, true)),
                CandOutcome::Kept(r) => {
                    let mut v = rest.0;
                    v.insert(0, r);
                    assert(v@ =~= seq![r] + parse_cands(
                        s@.subrange(i + 1, s@.len() as int),
                        size,
                    ).kept);
                    Some((v, rest.1))
                },
                CandOutcome::Invalid => None,  // unreachable: tested above
            }
        },
    }
}

/// Parse a whole `Range` header value against the resource size.
/// The result is exactly [`spec_parse`] of the header's bytes.
pub fn parse(header: &[u8], size: u64) -> (r: ParseOutcome)
    ensures
        r@ == spec_parse(header@, size),
{
    if header.len() < 6 || header[0] != 98 || header[1] != 121 || header[2] != 116 || header[3]
        != 101 || header[4] != 115 || header[5] != 61 {
        return ParseOutcome::InvalidSyntax;
    }
    let rest = &header[6..header.len()];
    match parse_cands_exec(rest, size) {
        None => ParseOutcome::InvalidSyntax,
        Some((kept, dropped)) => {
            if kept.len() == 0 && dropped {
                ParseOutcome::NoOverlap
            } else {
                ParseOutcome::Ranges(kept)
            }
        },
    }
}

} // verus!
