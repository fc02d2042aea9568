use diskprobe::probe::{classify_probe, ErrorCode, ProbeOutcome, NO_PARTITION_TABLE_MESSAGE};
use fs_core::ffi::FsCoreErrorCode;

#[test]
fn classify_probe_reports_a_table_when_the_probe_succeeded() {
    assert_eq!(
        classify_probe(ErrorCode::Success, false, ""),
        ProbeOutcome::Table
    );
}

#[test]
fn classify_probe_ignores_stale_last_error_text_when_the_probe_succeeded() {
    assert_eq!(
        classify_probe(ErrorCode::Success, false, NO_PARTITION_TABLE_MESSAGE),
        ProbeOutcome::Table
    );
}

#[test]
fn classify_probe_calls_a_missing_signature_no_table_rather_than_a_failure() {
    assert_eq!(
        classify_probe(ErrorCode::Custom, true, NO_PARTITION_TABLE_MESSAGE),
        ProbeOutcome::NoTable
    );
    assert_eq!(
        classify_probe(
            ErrorCode::Custom,
            true,
            "  no GPT or MBR signature found\n"
        ),
        ProbeOutcome::NoTable,
        "surrounding whitespace should not change the verdict"
    );
}

#[test]
fn classify_probe_keeps_a_real_failure_distinct_from_an_absent_table() {
    for message in [
        "GPT header CRC32 mismatch",
        "GPT partition-entry array CRC32 mismatch",
        "GPT corrupt: protective MBR present but no GPT signature",
        "MBR corrupt: extended chain loops",
        "read failed at offset 0",
    ] {
        assert_eq!(
            classify_probe(ErrorCode::Custom, true, message),
            ProbeOutcome::Failed(message.to_string()),
            "{message} should be reported as a failure"
        );
    }
}

#[test]
fn classify_probe_still_reports_a_failure_when_no_detail_was_recorded() {
    let outcome = classify_probe(ErrorCode::Io, true, "");
    match outcome {
        ProbeOutcome::Failed(detail) => {
            assert!(
                detail.contains("Io"),
                "detail should name the code: {detail}"
            );
        }
        other => panic!("expected a failure, got {other:?}"),
    }
}

#[test]
fn classify_probe_treats_success_with_a_null_list_as_a_broken_promise() {
    match classify_probe(ErrorCode::Success, true, "") {
        ProbeOutcome::Failed(detail) => assert!(detail.contains("NULL")),
        other => panic!("expected a failure, got {other:?}"),
    }
}

#[test]
fn the_no_table_message_is_the_one_that_a_probe_leaves() {
    assert_eq!(
        NO_PARTITION_TABLE_MESSAGE,
        partitions::Error::NoPartitionTable.to_string()
    );
}

#[test]
fn error_codes_are_spelled_as_the_device_layer_spells_them() {
    let pairs = [
        (ErrorCode::Success, FsCoreErrorCode::Ok),
        (ErrorCode::Io, FsCoreErrorCode::Io),
        (ErrorCode::ShortRead, FsCoreErrorCode::ShortRead),
        (ErrorCode::ReadOnly, FsCoreErrorCode::ReadOnly),
        (ErrorCode::OutOfBounds, FsCoreErrorCode::OutOfBounds),
        (ErrorCode::Custom, FsCoreErrorCode::Custom),
        (ErrorCode::NullArg, FsCoreErrorCode::NullArg),
        (ErrorCode::Panic, FsCoreErrorCode::Panic),
        (ErrorCode::BadString, FsCoreErrorCode::BadString),
    ];
    for (code, theirs) in pairs {
        assert_eq!(code.name(), format!("{theirs:?}"));
    }
}

#[test]
fn a_failure_without_detail_names_its_code() {
    assert_eq!(
        classify_probe(ErrorCode::OutOfBounds, true, ""),
        ProbeOutcome::Failed("failed with OutOfBounds (no detail recorded)".to_string())
    );
    assert_eq!(
        classify_probe(ErrorCode::Success, true, "stale"),
        ProbeOutcome::Failed("reported success but returned a NULL partition list".to_string())
    );
}

#[test]
fn a_failure_keeps_its_message_untrimmed() {
    assert_eq!(
        classify_probe(ErrorCode::Io, true, "  short read \n"),
        ProbeOutcome::Failed("  short read \n".to_string())
    );
    assert_eq!(
        classify_probe(ErrorCode::Io, true, " \t"),
        ProbeOutcome::Failed(" \t".to_string())
    );
}

/// Whether the library takes `c` for white space.
fn is_trimmed(c: char) -> bool {
    let padded = format!("{c}{NO_PARTITION_TABLE_MESSAGE}{c}");
    classify_probe(ErrorCode::Custom, true, &padded) == ProbeOutcome::NoTable
}

#[test]
fn white_space_is_what_unicode_says_it_is() {
    let spaces: Vec<u32> = (0u32..0x4000)
        .filter(|&u| char::from_u32(u).map_or(false, is_trimmed))
        .collect();
    let mut expected: Vec<u32> = (0x09..0x0e).collect();
    expected.extend([0x20, 0x85, 0xa0, 0x1680]);
    expected.extend(0x2000..0x200b);
    expected.extend([0x2028, 0x2029, 0x202f, 0x205f, 0x3000]);
    assert_eq!(spaces, expected);
    assert!(('\u{4000}'..=char::MAX).all(|c| !c.is_whitespace()));
}
