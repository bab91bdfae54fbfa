use condow_core::{ClosedRange, CondowError, DownloadRange, InclusiveRange, OffsetRange, OpenRange};

#[test]
fn range_full() {
    let result: DownloadRange = (..).into();
    assert_eq!(result, DownloadRange::Open(OpenRange::Full));
}

#[test]
fn range() {
    let result: DownloadRange = (3..10).into();
    assert_eq!(result, DownloadRange::Closed(ClosedRange::FromTo(3, 10)));
}

#[test]
fn range_inclusive() {
    let result: DownloadRange = (3..=10).into();
    assert_eq!(
        result,
        DownloadRange::Closed(ClosedRange::FromToInclusive(3, 10))
    );
}

#[test]
fn range_from() {
    let result: DownloadRange = (3..).into();
    assert_eq!(result, DownloadRange::Open(OpenRange::From(3)));
}

#[test]
fn range_to() {
    let result: DownloadRange = (..10).into();
    assert_eq!(result, DownloadRange::Closed(ClosedRange::To(10)));
}

#[test]
fn range_to_inclusive() {
    let result: DownloadRange = (..=10).into();
    assert_eq!(result, DownloadRange::Closed(ClosedRange::ToInclusive(10)));
}

#[test]
fn range_from_inclusive_range() {
    let result = DownloadRange::from(InclusiveRange(1, 7));
    assert_eq!(
        result,
        DownloadRange::Closed(ClosedRange::FromToInclusive(1, 7))
    );
}

#[test]
fn range_from_offset_range() {
    let result = OffsetRange::new(5, 10).to_download_range();
    assert_eq!(result, DownloadRange::Closed(ClosedRange::FromTo(5, 15)));
}

#[test]
fn inclusive_range_from_std_range() {
    let result: InclusiveRange = (3..=10).into();
    assert_eq!(result, InclusiveRange(3, 10));
}

#[test]
fn inclusive_range_accessors() {
    let r = InclusiveRange(3, 10);
    assert_eq!(r.start(), 3);
    assert_eq!(r.end_incl(), 10);
    assert_eq!(r.len(), 8);
    assert_eq!(r.to_std_range(), 3..=10);
    assert_eq!(r.to_std_range_usize(), 3usize..=10usize);
    assert_eq!(r.to_std_range_excl(), 3..11);
}

#[test]
fn inclusive_range_http_header_value() {
    assert_eq!(InclusiveRange(0, 9).http_range_value(), "bytes=0-9");
    assert_eq!(
        InclusiveRange(1048576, 2097151).http_range_value(),
        "bytes=1048576-2097151"
    );
}

#[test]
fn http_header_value_at_the_top_of_the_address_space() {
    assert_eq!(
        InclusiveRange(0, u64::MAX).http_range_value(),
        "bytes=0-18446744073709551615"
    );
}

#[test]
fn offset_range_accessors() {
    let r = OffsetRange::new(10, 5);
    assert_eq!(r.start(), 10);
    assert_eq!(r.end_excl(), 15);
    assert_eq!(r.len(), 5);
}

#[test]
fn validate_rejects_reversed_closed_ranges() {
    assert_eq!(
        ClosedRange::FromTo(10, 3).validate(),
        Err(CondowError::InvalidRange)
    );
    assert_eq!(
        ClosedRange::FromToInclusive(10, 3).validate(),
        Err(CondowError::InvalidRange)
    );
    assert_eq!(ClosedRange::FromTo(3, 10).validate(), Ok(()));
    assert_eq!(ClosedRange::To(0).validate(), Ok(()));
    assert_eq!(DownloadRange::Open(OpenRange::Full).validate(), Ok(()));
    assert_eq!(
        DownloadRange::Closed(ClosedRange::FromTo(10, 3)).validate(),
        Err(CondowError::InvalidRange)
    );
}

#[test]
fn sanitize_collapses_empty_ranges() {
    assert_eq!(ClosedRange::FromTo(4, 4).sanitized(), None);
    assert_eq!(ClosedRange::FromTo(5, 3).sanitized(), None);
    assert_eq!(ClosedRange::To(0).sanitized(), None);
    assert_eq!(
        ClosedRange::FromTo(3, 5).sanitized(),
        Some(ClosedRange::FromTo(3, 5))
    );
    assert_eq!(
        ClosedRange::ToInclusive(0).sanitized(),
        Some(ClosedRange::ToInclusive(0))
    );
    assert_eq!(
        DownloadRange::Open(OpenRange::Full).sanitized(),
        Some(DownloadRange::Open(OpenRange::Full))
    );
    assert_eq!(
        DownloadRange::Closed(ClosedRange::FromTo(4, 4)).sanitized(),
        None
    );
}

#[test]
fn resolve_clamps_to_blob_size() {
    // the blob has 26 bytes, positions 0 to 25
    let size = 26;
    assert_eq!(
        DownloadRange::from(..).incl_range_from_size(size),
        Some(InclusiveRange(0, 25))
    );
    assert_eq!(
        DownloadRange::from(..5u64).incl_range_from_size(size),
        Some(InclusiveRange(0, 4))
    );
    assert_eq!(
        DownloadRange::from(..=26u64).incl_range_from_size(size),
        Some(InclusiveRange(0, 25))
    );
    assert_eq!(
        DownloadRange::from(10u64..).incl_range_from_size(size),
        Some(InclusiveRange(10, 25))
    );
    assert_eq!(
        DownloadRange::from(1u64..11).incl_range_from_size(size),
        Some(InclusiveRange(1, 10))
    );
    assert_eq!(
        DownloadRange::from(25u64..=25).incl_range_from_size(size),
        Some(InclusiveRange(25, 25))
    );
}

#[test]
fn resolve_empty_cases() {
    assert_eq!(DownloadRange::from(..).incl_range_from_size(0), None);
    assert_eq!(DownloadRange::from(4u64..4).incl_range_from_size(26), None);
    assert_eq!(DownloadRange::from(..0u64).incl_range_from_size(26), None);
    assert_eq!(DownloadRange::from(26u64..).incl_range_from_size(26), None);
    assert_eq!(DownloadRange::from(30u64..40).incl_range_from_size(26), None);
}

#[test]
fn resolve_without_size() {
    assert_eq!(
        ClosedRange::FromTo(3, 10).incl_range(),
        Some(InclusiveRange(3, 9))
    );
    assert_eq!(
        ClosedRange::FromToInclusive(3, 10).incl_range(),
        Some(InclusiveRange(3, 10))
    );
    assert_eq!(ClosedRange::To(10).incl_range(), Some(InclusiveRange(0, 9)));
    assert_eq!(
        ClosedRange::ToInclusive(10).incl_range(),
        Some(InclusiveRange(0, 10))
    );
    assert_eq!(ClosedRange::To(0).incl_range(), None);
    assert_eq!(ClosedRange::FromTo(4, 4).incl_range(), None);
}

#[test]
fn resolve_is_idempotent_under_reconversion() {
    // resolve, convert the interval back into range forms, resolve again
    let size = 26;
    let first = DownloadRange::from(1u64..11).incl_range_from_size(size).unwrap();
    let again_incl = DownloadRange::from(first).incl_range_from_size(size);
    assert_eq!(again_incl, Some(first));
    let again_std = DownloadRange::from(first.to_std_range()).incl_range_from_size(size);
    assert_eq!(again_std, Some(first));
    let again_excl = DownloadRange::from(first.to_std_range_excl()).incl_range_from_size(size);
    assert_eq!(again_excl, Some(first));
}

#[test]
fn display_strings() {
    assert_eq!(InclusiveRange(3, 10).display_string(), "[3,10]");
    assert_eq!(OffsetRange::new(10, 5).display_string(), "10(5)");
    assert_eq!(ClosedRange::To(7).display_string(), "[0..7[");
    assert_eq!(ClosedRange::ToInclusive(7).display_string(), "[0..7]");
    assert_eq!(ClosedRange::FromTo(3, 7).display_string(), "[3..7[");
    assert_eq!(ClosedRange::FromToInclusive(3, 7).display_string(), "[3..7]");
    assert_eq!(OpenRange::From(3).display_string(), "[3..]");
    assert_eq!(OpenRange::Full.display_string(), "[0..]");
    assert_eq!(
        DownloadRange::Open(OpenRange::From(3)).display_string(),
        "[3..]"
    );
    assert_eq!(
        DownloadRange::Closed(ClosedRange::FromTo(3, 7)).display_string(),
        "[3..7["
    );
}
