use send_file::digits::{parse_u64, u64_to_string};
use send_file::media::is_valid_media_type;
use send_file::ranges::{parse, ByteRange, ParseOutcome};
use send_file::respond::{build, select, send_file, BodyPlan, ResourceStat, SelectionDecision};

fn ranges_of(o: ParseOutcome) -> Vec<ByteRange> {
    match o {
        ParseOutcome::Ranges(v) => v,
        other => panic!("expected ranges, got {:?}", other),
    }
}

#[test]
fn parse_u64_reads_decimal() {
    assert_eq!(parse_u64(b"0"), Some(0));
    assert_eq!(parse_u64(b"200"), Some(200));
    assert_eq!(parse_u64(b"18446744073709551615"), Some(u64::MAX));
}

#[test]
fn parse_u64_rejects_junk() {
    assert_eq!(parse_u64(b""), None);
    assert_eq!(parse_u64(b"12a"), None);
    assert_eq!(parse_u64(b"-5"), None);
    assert_eq!(parse_u64(b"18446744073709551616"), None);
    assert_eq!(parse_u64(b"99999999999999999999999999"), None);
}

#[test]
fn u64_prints_decimal() {
    assert_eq!(u64_to_string(0), "0");
    assert_eq!(u64_to_string(7), "7");
    assert_eq!(u64_to_string(12345), "12345");
    assert_eq!(u64_to_string(u64::MAX), "18446744073709551615");
}

#[test]
fn parse_explicit_range() {
    let rs = ranges_of(parse(b"bytes=0-9", 10));
    assert_eq!(rs, vec![ByteRange { start: 0, length: 10 }]);
    let rs = ranges_of(parse(b"bytes=500-999", 10000));
    assert_eq!(rs, vec![ByteRange { start: 500, length: 500 }]);
}

#[test]
fn parse_clips_end_to_resource() {
    let rs = ranges_of(parse(b"bytes=0-20", 10));
    assert_eq!(rs, vec![ByteRange { start: 0, length: 10 }]);
}

#[test]
fn parse_open_range() {
    let rs = ranges_of(parse(b"bytes=5-", 10));
    assert_eq!(rs, vec![ByteRange { start: 5, length: 5 }]);
}

#[test]
fn parse_suffix_range() {
    let rs = ranges_of(parse(b"bytes=-5", 10));
    assert_eq!(rs, vec![ByteRange { start: 5, length: 5 }]);
    let rs = ranges_of(parse(b"bytes=-15", 10));
    assert_eq!(rs, vec![ByteRange { start: 0, length: 10 }]);
}

#[test]
fn parse_keeps_header_order() {
    let rs = ranges_of(parse(b"bytes=1-2,5-", 10));
    assert_eq!(
        rs,
        vec![ByteRange { start: 1, length: 2 }, ByteRange { start: 5, length: 5 }]
    );
}

#[test]
fn parse_allows_lax_whitespace() {
    let rs = ranges_of(parse(b"bytes=   1 -2   ,  4- 5, 7 - 8 , ,,", 11));
    assert_eq!(
        rs,
        vec![
            ByteRange { start: 1, length: 2 },
            ByteRange { start: 4, length: 2 },
            ByteRange { start: 7, length: 2 },
        ]
    );
}

#[test]
fn parse_drops_non_overlapping_candidates() {
    let rs = ranges_of(parse(b"bytes=15-,0-5", 10));
    assert_eq!(rs, vec![ByteRange { start: 0, length: 6 }]);
}

#[test]
fn parse_no_overlap() {
    assert_eq!(parse(b"bytes=10000-", 50), ParseOutcome::NoOverlap);
    assert_eq!(parse(b"bytes=50-60,20-", 10), ParseOutcome::NoOverlap);
    assert_eq!(parse(b"bytes=-0", 200), ParseOutcome::NoOverlap);
}

#[test]
fn parse_invalid_syntax() {
    assert_eq!(parse(b"", 10), ParseOutcome::InvalidSyntax);
    assert_eq!(parse(b"foo", 10), ParseOutcome::InvalidSyntax);
    assert_eq!(parse(b"items=0-5", 10), ParseOutcome::InvalidSyntax);
    assert_eq!(parse(b"bytes=7", 10), ParseOutcome::InvalidSyntax);
    assert_eq!(parse(b"bytes=5-4", 10), ParseOutcome::InvalidSyntax);
    assert_eq!(parse(b"bytes=--6", 200), ParseOutcome::InvalidSyntax);
    assert_eq!(parse(b"bytes=A-Z", 10), ParseOutcome::InvalidSyntax);
    assert_eq!(parse(b"bytes=0x01-0x02", 10), ParseOutcome::InvalidSyntax);
    assert_eq!(parse(b"bytes=1-2,bytes=3-4", 10), ParseOutcome::InvalidSyntax);
}

#[test]
fn parse_empty_candidate_list_keeps_nothing() {
    assert_eq!(parse(b"bytes=", 200), ParseOutcome::Ranges(vec![]));
    assert_eq!(parse(b"bytes= , , ,   ", 10), ParseOutcome::Ranges(vec![]));
}

#[test]
fn select_decides() {
    assert_eq!(select(false, &ParseOutcome::Ranges(vec![])), SelectionDecision::Full);
    assert_eq!(select(true, &ParseOutcome::Ranges(vec![])), SelectionDecision::Full);
    assert_eq!(
        select(true, &ParseOutcome::Ranges(vec![ByteRange { start: 1, length: 2 }])),
        SelectionDecision::Single(ByteRange { start: 1, length: 2 })
    );
    assert_eq!(
        select(
            true,
            &ParseOutcome::Ranges(vec![
                ByteRange { start: 1, length: 2 },
                ByteRange { start: 5, length: 5 },
            ])
        ),
        SelectionDecision::TooManyRanges
    );
    assert_eq!(
        select(true, &ParseOutcome::NoOverlap),
        SelectionDecision::NoneSatisfiable { overlap_hint: true }
    );
    assert_eq!(
        select(true, &ParseOutcome::InvalidSyntax),
        SelectionDecision::NoneSatisfiable { overlap_hint: false }
    );
}

#[test]
fn whole_resource_without_header() {
    let r = send_file(ResourceStat::Found(1000), None, None);
    assert_eq!(r.status, 200);
    assert_eq!(r.content_length, Some(1000));
    assert_eq!(r.content_range, None);
    assert_eq!(r.body, BodyPlan::Whole);
}

#[test]
fn single_range_of_thousand_byte_resource() {
    let r = send_file(ResourceStat::Found(1000), Some(b"bytes=200-299"), None);
    assert_eq!(r.status, 206);
    assert_eq!(r.content_length, Some(100));
    assert_eq!(r.content_range.as_deref(), Some("bytes 200-299/1000"));
    assert_eq!(r.body, BodyPlan::Slice { start: 200, length: 100 });
}

#[test]
fn unsatisfiable_range_of_thousand_byte_resource() {
    let r = send_file(ResourceStat::Found(1000), Some(b"bytes=5000-"), None);
    assert_eq!(r.status, 416);
    assert_eq!(r.content_length, None);
    assert_eq!(r.content_range.as_deref(), Some("bytes */1000"));
}

#[test]
fn open_range_equals_explicit_range() {
    let open = send_file(ResourceStat::Found(10), Some(b"bytes=5-"), None);
    let explicit = send_file(ResourceStat::Found(10), Some(b"bytes=5-9"), None);
    assert_eq!(open, explicit);
    assert_eq!(open.status, 206);
    assert_eq!(open.body, BodyPlan::Slice { start: 5, length: 5 });
}

#[test]
fn suffix_range_equals_explicit_range() {
    let suffix = send_file(ResourceStat::Found(10), Some(b"bytes=-5"), None);
    let explicit = send_file(ResourceStat::Found(10), Some(b"bytes=5-9"), None);
    assert_eq!(suffix, explicit);
    let overlong = send_file(ResourceStat::Found(10), Some(b"bytes=-15"), None);
    let whole = send_file(ResourceStat::Found(10), Some(b"bytes=0-9"), None);
    assert_eq!(overlong, whole);
    assert_eq!(overlong.body, BodyPlan::Slice { start: 0, length: 10 });
}

#[test]
fn suffix_range_of_one_byte() {
    let r = send_file(ResourceStat::Found(10), Some(b"bytes=-1"), None);
    assert_eq!(r.status, 206);
    assert_eq!(r.content_length, Some(1));
    assert_eq!(r.content_range.as_deref(), Some("bytes 9-9/10"));
}

#[test]
fn first_byte_of_one_byte_resource() {
    let r = send_file(ResourceStat::Found(1), Some(b"bytes=0-0"), None);
    assert_eq!(r.status, 206);
    assert_eq!(r.content_length, Some(1));
    assert_eq!(r.content_range.as_deref(), Some("bytes 0-0/1"));
    assert_eq!(r.body, BodyPlan::Slice { start: 0, length: 1 });
}

#[test]
fn any_range_of_empty_resource_is_unsatisfiable() {
    let r = send_file(ResourceStat::Found(0), Some(b"bytes=0-0"), None);
    assert_eq!(r.status, 416);
    assert_eq!(r.content_range.as_deref(), Some("bytes */0"));
    let r = send_file(ResourceStat::Found(0), Some(b"bytes=-1"), None);
    assert_eq!(r.status, 416);
}

#[test]
fn multiple_ranges_are_rejected() {
    let r = send_file(ResourceStat::Found(10), Some(b"bytes=1-2,5-"), None);
    assert_eq!(r.status, 400);
    assert_eq!(r.content_length, None);
    assert_eq!(r.content_range, None);
    assert_eq!(r.body, BodyPlan::Message("Multiple ranges not supported".to_string()));
}

#[test]
fn malformed_header_gets_plain_rejection() {
    let r = send_file(ResourceStat::Found(10), Some(b"items=0-5"), None);
    assert_eq!(r.status, 416);
    assert_eq!(r.content_range, None);
    assert_eq!(r.body, BodyPlan::Message("Invalid range".to_string()));
    let r = send_file(ResourceStat::Found(10), Some(b"bytes=a-b"), None);
    assert_eq!(r.status, 416);
    assert_eq!(r.content_range, None);
}

#[test]
fn missing_resource_is_not_found_despite_header() {
    let r = send_file(ResourceStat::NotFound, Some(b"bytes=0-9"), None);
    assert_eq!(r.status, 404);
    assert_eq!(r.body, BodyPlan::Message("Not Found".to_string()));
    let r = send_file(ResourceStat::NotFound, None, None);
    assert_eq!(r.status, 404);
}

#[test]
fn unreadable_size_is_server_error() {
    let r = send_file(ResourceStat::SizeUnknown, Some(b"bytes=0-9"), None);
    assert_eq!(r.status, 500);
    assert_eq!(r.body, BodyPlan::Message("Internal server error".to_string()));
}

#[test]
fn repeated_requests_get_identical_responses() {
    let first = send_file(ResourceStat::Found(1000), Some(b"bytes=200-299"), Some("text/plain"));
    let second = send_file(ResourceStat::Found(1000), Some(b"bytes=200-299"), Some("text/plain"));
    assert_eq!(first, second);
}

#[test]
fn media_type_validity() {
    assert!(is_valid_media_type("text/html"));
    assert!(is_valid_media_type("application/octet-stream"));
    assert!(!is_valid_media_type(""));
    assert!(!is_valid_media_type("texthtml"));
    assert!(!is_valid_media_type("/html"));
    assert!(!is_valid_media_type("text/"));
    assert!(!is_valid_media_type("te xt/html"));
    assert!(!is_valid_media_type("text/ht/ml"));
}

#[test]
fn content_type_set_only_on_success() {
    let r = send_file(ResourceStat::Found(10), None, Some("text/plain"));
    assert_eq!(r.status, 200);
    assert_eq!(r.content_type.as_deref(), Some("text/plain"));
    let r = send_file(ResourceStat::Found(10), Some(b"bytes=0-5"), Some("text/plain"));
    assert_eq!(r.status, 206);
    assert_eq!(r.content_type.as_deref(), Some("text/plain"));
    let r = send_file(ResourceStat::Found(10), None, Some("not a type"));
    assert_eq!(r.content_type, None);
    let r = send_file(ResourceStat::Found(10), Some(b"bytes=50-"), Some("text/plain"));
    assert_eq!(r.status, 416);
    assert_eq!(r.content_type, None);
}

#[test]
fn build_composes_status_and_headers() {
    let r = build(
        SelectionDecision::Single(ByteRange { start: 2, length: 3 }),
        10,
        Some("text/plain"),
    );
    assert_eq!(r.status, 206);
    assert_eq!(r.content_length, Some(3));
    assert_eq!(r.content_range.as_deref(), Some("bytes 2-4/10"));
    assert_eq!(r.content_type.as_deref(), Some("text/plain"));
    assert_eq!(r.body, BodyPlan::Slice { start: 2, length: 3 });

    let r = build(SelectionDecision::Full, 10, None);
    assert_eq!(r.status, 200);
    assert_eq!(r.content_length, Some(10));
    assert_eq!(r.body, BodyPlan::Whole);

    let r = build(SelectionDecision::NoneSatisfiable { overlap_hint: true }, 10, None);
    assert_eq!(r.status, 416);
    assert_eq!(r.content_range.as_deref(), Some("bytes */10"));

    let r = build(SelectionDecision::NoneSatisfiable { overlap_hint: false }, 10, None);
    assert_eq!(r.status, 416);
    assert_eq!(r.content_range, None);

    let r = build(SelectionDecision::TooManyRanges, 10, None);
    assert_eq!(r.status, 400);
}
