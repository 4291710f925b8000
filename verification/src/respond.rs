//! Range selection and response building.
//!
//! The selector turns a parse outcome into a decision: serve the whole
//! resource, serve one sub-range, reject the request as unsatisfiable, or
//! reject several ranges as unsupported. The builder turns that decision
//! into status code, headers and a body plan, and [`send_file`] runs the
//! whole pipeline from plain inputs.

use vstd::prelude::*;
use vstd::string::StringExecFns;
use crate::digits::{dec_chars, u64_to_string};
use crate::media::{is_valid_media_type, valid_media_type};
use crate::ranges::{
    lemma_parse_wf, parse, spec_parse, ByteRange, ParseModel, ParseOutcome,
};

verus! {

/// What was learnt about the resource before range negotiation: whether it
/// could be opened, and its size in bytes if that could be read.
#[derive(Debug, Clone, Copy, PartialEq, Eq, Structural)]
pub enum ResourceStat {
    /// The resource could not be opened.
    NotFound,
    /// The resource opened but its size could not be read.
    SizeUnknown,
    /// The resource opened and holds this many bytes.
    Found(u64),
}

/// The outcome of range selection.
#[derive(Debug, Clone, Copy, PartialEq, Eq, Structural)]
pub enum SelectionDecision {
    /// Serve the whole resource.
    Full,
    /// Serve this one sub-range.
    Single(ByteRange),
    /// No requested range can be satisfied. `overlap_hint` says whether the
    /// header was well formed (its ranges merely missed the resource), in
    /// which case the response names the resource's length.
    NoneSatisfiable { overlap_hint: bool },
    /// More than one range was requested; that is not supported.
    TooManyRanges,
}

/// The decision for a parse outcome. Without a `Range` header the whole
/// resource is served; with one, a single kept range is served, several
/// are refused, and a header that kept nothing is unsatisfiable — unless
/// it was well formed and named no range at all, which leaves the
/// response unconstrained.
pub open spec fn spec_select(header_present: bool, m: ParseModel) -> SelectionDecision {
    if !header_present {
        SelectionDecision::Full
    } else {
        match m {
            ParseModel::InvalidSyntax => SelectionDecision::NoneSatisfiable {
                overlap_hint: false,
            },
            ParseModel::NoOverlap => SelectionDecision::NoneSatisfiable { overlap_hint: true },
            ParseModel::Ranges(rs) => {
                if rs.len() == 0 {
                    SelectionDecision::Full
                } else if rs.len() == 1 {
                    SelectionDecision::Single(rs[0])
                } else {
                    SelectionDecision::TooManyRanges
                }
            },
        }
    }
}

/// Decide what to serve. Exactly [`spec_select`].
pub fn select(header_present: bool, outcome: &ParseOutcome) -> (d: SelectionDecision)
    ensures
        d == spec_select(header_present, outcome@),
{
    if !header_present {
        return SelectionDecision::Full;
    }
    match outcome {
        ParseOutcome::InvalidSyntax => SelectionDecision::NoneSatisfiable { overlap_hint: false },
        ParseOutcome::NoOverlap => SelectionDecision::NoneSatisfiable { overlap_hint: true },
        ParseOutcome::Ranges(rs) => {
            if rs.len() == 0 {
                SelectionDecision::Full
            } else if rs.len() == 1 {
                SelectionDecision::Single(rs[0])
            } else {
                SelectionDecision::TooManyRanges
            }
        },
    }
}

/// How the response body is to be produced.
#[derive(Debug, PartialEq)]
pub enum BodyPlan {
    /// A short plain-text note, for error responses.
    Message(String),
    /// Every byte of the resource, from the first.
    Whole,
    /// `length` bytes of the resource starting at byte `start`.
    Slice { start: u64, length: u64 },
}

/// Mathematical counterpart of [`BodyPlan`].
pub enum BodyModel {
    Message(Seq<char>),
    Whole,
    Slice { start: u64, length: u64 },
}

impl View for BodyPlan {
    type V = BodyModel;

    open spec fn view(&self) -> BodyModel {
        match self {
            BodyPlan::Message(m) => BodyModel::Message(m@),
            BodyPlan::Whole => BodyModel::Whole,
            BodyPlan::Slice { start, length } => BodyModel::Slice {
                start: *start,
                length: *length,
            },
        }
    }
}

/// A response, ready for a server to write out: status code, the headers
/// this library is responsible for, and the body plan.
#[derive(Debug, PartialEq)]
pub struct ServedResponse {
    /// HTTP status code: 200, 206, 400, 404, 416 or 500.
    pub status: u16,
    /// Value of `Content-Length`, set on success responses.
    pub content_length: Option<u64>,
    /// Value of `Content-Range`, set on partial content and on well-formed
    /// but unsatisfiable requests.
    pub content_range: Option<String>,
    /// Value of `Content-Type`, set on success responses whose hint is a
    /// well-formed media type.
    pub content_type: Option<String>,
    /// How to produce the body.
    pub body: BodyPlan,
}

/// Mathematical counterpart of [`ServedResponse`].
pub struct ResponseModel {
    pub status: u16,
    pub content_length: Option<u64>,
    pub content_range: Option<Seq<char>>,
    pub content_type: Option<Seq<char>>,
    pub body: BodyModel,
}

impl View for ServedResponse {
    type V = ResponseModel;

    open spec fn view(&self) -> ResponseModel {
        ResponseModel {
            status: self.status,
            content_length: self.content_length,
            content_range: match &self.content_range {
                Some(s) => Some(s@),
                None => None,
            },
            content_type: match &self.content_type {
                Some(s) => Some(s@),
                None => None,
            },
            body: self.body@,
        }
    }
}

/// The `Content-Range` value for a served sub-range:
/// `bytes <first>-<last>/<total>`.
pub open spec fn content_range_single(first: u64, last: u64, total: u64) -> Seq<char> {
    "bytes "@ + dec_chars(first as nat) + "-"@ + dec_chars(last as nat) + "/"@ + dec_chars(
        total as nat,
    )
}

/// The `Content-Range` value for an unsatisfiable request:
/// `bytes */<total>`.
pub open spec fn content_range_unsat(total: u64) -> Seq<char> {
    "bytes */"@ + dec_chars(total as nat)
}

/// Print `bytes <first>-<last>/<total>`.
fn format_content_range(first: u64, last: u64, total: u64) -> (s: String)
    ensures
        s@ == content_range_single(first, last, total),
{
    let mut s = String::from_str("bytes ");
    s.append(u64_to_string(first).as_str());
    s.append("-");
    s.append(u64_to_string(last).as_str());
    s.append("/");
    s.append(u64_to_string(total).as_str());
    assert(s@ =~= content_range_single(first, last, total));
    s
}

/// Print `bytes */<total>`.
fn format_content_range_unsat(total: u64) -> (s: String)
    ensures
        s@ == content_range_unsat(total),
{
    let mut s = String::from_str("bytes */");
    s.append(u64_to_string(total).as_str());
    assert(s@ =~= content_range_unsat(total));
    s
}

/// The `Content-Type` to set: the hint, where it is a well-formed media
/// type.
pub open spec fn content_type_of(mime_hint: Option<Seq<char>>) -> Option<Seq<char>> {
    match mime_hint {
        Some(m) => if valid_media_type(m) {
            Some(m)
        } else {
            None
        },
        None => None,
    }
}

/// The response for a decision over a resource of `size` bytes.
///
/// The whole resource is served as 200 with its length; one range as 206
/// with the range's length and position; an unsatisfiable request as 416,
/// naming the resource's length exactly when the header was well formed;
/// several ranges as 400. Error responses carry a plain-text note and no
/// content type.
pub open spec fn spec_build(
    d: SelectionDecision,
    size: u64,
    mime_hint: Option<Seq<char>>,
) -> ResponseModel {
    match d {
        SelectionDecision::Full => ResponseModel {
            status: 200,
            content_length: Some(size),
            content_range: None,
            content_type: content_type_of(mime_hint),
            body: BodyModel::Whole,
        },
        SelectionDecision::Single(r) => ResponseModel {
            status: 206,
            content_length: Some(r.length),
            content_range: Some(
                content_range_single(r.start, (r.start + r.length - 1) as u64, size),
            ),
            content_type: content_type_of(mime_hint),
            body: BodyModel::Slice { start: r.start, length: r.length },
        },
        SelectionDecision::NoneSatisfiable { overlap_hint } => ResponseModel {
            status: 416,
            content_length: None,
            content_range: if overlap_hint {
                Some(content_range_unsat(size))
            } else {
                None
            },
            content_type: None,
            body: BodyModel::Message("Invalid range"@),
        },
        SelectionDecision::TooManyRanges => ResponseModel {
            status: 400,
            content_length: None,
            content_range: None,
            content_type: None,
            body: BodyModel::Message("Multiple ranges not supported"@),
        },
    }
}

/// Build the response for a decision. Exactly [`spec_build`].
pub fn build(d: SelectionDecision, size: u64, mime_hint: Option<&str>) -> (r: ServedResponse)
    requires
        d matches SelectionDecision::Single(br) ==> br.wf(size),
    ensures
        r@ == spec_build(
            d,
            size,
            match mime_hint {
                Some(m) => Some(m@),
                None => None,
            },
        ),
{
    match d {
        SelectionDecision::Full => ServedResponse {
            status: 200,
            content_length: Some(size),
            content_range: None,
            content_type: content_type_exec(mime_hint),
            body: BodyPlan::Whole,
        },
        SelectionDecision::Single(r) => ServedResponse {
            status: 206,
            content_length: Some(r.length),
            content_range: Some(format_content_range(r.start, r.start + r.length - 1, size)),
            content_type: content_type_exec(mime_hint),
            body: BodyPlan::Slice { start: r.start, length: r.length },
        },
        SelectionDecision::NoneSatisfiable { overlap_hint } => ServedResponse {
            status: 416,
            content_length: None,
            content_range: if overlap_hint {
                Some(format_content_range_unsat(size))
            } else {
                None
            },
            content_type: None,
            body: BodyPlan::Message(String::from_str("Invalid range")),
        },
        SelectionDecision::TooManyRanges => ServedResponse {
            status: 400,
            content_length: None,
            content_range: None,
            content_type: None,
            body: BodyPlan::Message(String::from_str("Multiple ranges not supported")),
        },
    }
}

/// The `Content-Type` to set. Exactly [`content_type_of`].
fn content_type_exec(mime_hint: Option<&str>) -> (r: Option<String>)
    ensures
        (match r {
            Some(s) => Some(s@),
            None => None,
        }) == content_type_of(
            match mime_hint {
                Some(m) => Some(m@),
                None => None,
            },
        ),
{
    match mime_hint {
        Some(m) => {
            if is_valid_media_type(m) {
                Some(String::from_str(m))
            } else {
                None
            }
        },
        None => None,
    }
}

/// The response for a request, from plain inputs: what is known of the
/// resource, the raw `Range` header value if one was sent, and the
/// media-type hint.
///
/// A resource that could not be opened is 404 and one whose size could not
/// be read is 500, whatever the header says. Otherwise the header is
/// parsed against the size, a range is selected, and the response built.
pub open spec fn spec_respond(
    stat: ResourceStat,
    range_header: Option<Seq<u8>>,
    mime_hint: Option<Seq<char>>,
) -> ResponseModel {
    match stat {
        ResourceStat::NotFound => ResponseModel {
            status: 404,
            content_length: None,
            content_range: None,
            content_type: None,
            body: BodyModel::Message("Not Found"@),
        },
        ResourceStat::SizeUnknown => ResponseModel {
            status: 500,
            content_length: None,
            content_range: None,
            content_type: None,
            body: BodyModel::Message("Internal server error"@),
        },
        ResourceStat::Found(size) => {
            let outcome = match range_header {
                Some(h) => spec_parse(h, size),
                None => ParseModel::Ranges(Seq::empty()),
            };
            spec_build(spec_select(range_header is Some, outcome), size, mime_hint)
        },
    }
}

/// Serve a resource: run the parser, the selector and the builder, and
/// return the response. Exactly [`spec_respond`] on the inputs.
pub fn send_file(
    stat: ResourceStat,
    range_header: Option<&[u8]>,
    mime_hint: Option<&str>,
) -> (r: ServedResponse)
    ensures
        r@ == spec_respond(
            stat,
            match range_header {
                Some(h) => Some(h@),
                None => None,
            },
            match mime_hint {
                Some(m) => Some(m@),
                None => None,
            },
        ),
{
    match stat {
        ResourceStat::NotFound => ServedResponse {
            status: 404,
            content_length: None,
            content_range: None,
            content_type: None,
            body: BodyPlan::Message(String::from_str("Not Found")),
        },
        ResourceStat::SizeUnknown => ServedResponse {
            status: 500,
            content_length: None,
            content_range: None,
            content_type: None,
            body: BodyPlan::Message(String::from_str("Internal server error")),
        },
        ResourceStat::Found(size) => {
            let (present, outcome) = match range_header {
                Some(h) => {
                    proof {
                        lemma_parse_wf(h@, size);
                    }
                    (true, parse(h, size))
                },
                None => (false, ParseOutcome::Ranges(Vec::new())),
            };
            let d = select(present, &outcome);
            build(d, size, mime_hint)
        },
    }
}

} // verus!
