use diskprobe::kinds::{fs_kind_label, sniff_outcome, table_kind_label, SNIFF_FAILED_LABEL};
use partitions::capi::{FsKindCode, TableKindCode};

#[test]
fn fs_kind_label_names_every_discriminant_it_mirrors() {
    let expected = [
        (FsKindCode::Unknown, "unknown"),
        (FsKindCode::Ext2, "ext2"),
        (FsKindCode::Ext3, "ext3"),
        (FsKindCode::Ext4, "ext4"),
        (FsKindCode::Ntfs, "ntfs"),
        (FsKindCode::ExFat, "exfat"),
        (FsKindCode::Fat32, "fat32"),
        (FsKindCode::Fat16, "fat16"),
        (FsKindCode::HfsPlus, "hfs_plus"),
        (FsKindCode::Apfs, "apfs"),
        (FsKindCode::LinuxSwap, "linux_swap"),
        (FsKindCode::Iso9660, "iso9660"),
        (FsKindCode::Squashfs, "squashfs"),
    ];
    for (code, label) in expected {
        assert_eq!(fs_kind_label(code as i32), label, "for {code:?}");
    }
}

#[test]
fn fs_kind_label_cannot_tell_the_error_sentinel_from_an_unmapped_code() {
    assert_eq!(fs_kind_label(-1), "unknown");
    assert_eq!(fs_kind_label(FsKindCode::Unknown as i32), "unknown");
    assert_eq!(fs_kind_label(FsKindCode::Squashfs as i32 + 1), "unknown");
    assert_eq!(fs_kind_label(i32::MIN), "unknown");
    assert_eq!(fs_kind_label(i32::MAX), "unknown");
}

#[test]
fn table_kind_label_names_the_two_tables_and_calls_everything_else_none() {
    assert_eq!(table_kind_label(TableKindCode::Gpt as i32), "gpt");
    assert_eq!(table_kind_label(TableKindCode::Mbr as i32), "mbr");
    assert_eq!(table_kind_label(TableKindCode::None as i32), "none");
    assert_eq!(table_kind_label(-1), "none");
    assert_eq!(table_kind_label(99), "none");
}

#[test]
fn the_label_of_a_failed_sniff_is_no_kind() {
    for code in -1..14 {
        assert_ne!(fs_kind_label(code), SNIFF_FAILED_LABEL);
    }
}

#[test]
fn sniff_outcome_labels_a_recognised_filesystem() {
    assert_eq!(
        sniff_outcome(FsKindCode::Ext4 as i32, || unreachable!()),
        Ok("ext4")
    );
    assert_eq!(
        sniff_outcome(FsKindCode::Squashfs as i32, || unreachable!()),
        Ok("squashfs")
    );
}

#[test]
fn sniff_outcome_reports_a_successful_no_match_as_unknown() {
    let asked = std::cell::Cell::new(false);
    let outcome = sniff_outcome(FsKindCode::Unknown as i32, || {
        asked.set(true);
        String::new()
    });
    assert_eq!(outcome, Ok("unknown"));
    assert!(
        !asked.get(),
        "the error detail was fetched on the success path"
    );
}

#[test]
fn sniff_outcome_separates_the_error_sentinel_from_a_successful_no_match() {
    let failed = sniff_outcome(-1, || "read failed at offset 1048576".to_string());
    assert_eq!(failed, Err("read failed at offset 1048576".to_string()));
    assert_ne!(failed, Ok("unknown"));
    assert_eq!(
        sniff_outcome(FsKindCode::Unknown as i32, String::new),
        Ok("unknown")
    );
}

#[test]
fn sniff_outcome_substitutes_a_reason_when_none_was_recorded() {
    match sniff_outcome(-1, String::new) {
        Err(detail) => assert!(
            detail.contains("-1"),
            "detail should name the code: {detail}"
        ),
        Ok(label) => panic!("expected a failure, got {label}"),
    }
}

#[test]
fn sniff_outcome_spells_the_code_out() {
    assert_eq!(
        sniff_outcome(-1, String::new),
        Err("sniff returned -1 with no detail recorded".to_string())
    );
    assert_eq!(
        sniff_outcome(i32::MIN, String::new),
        Err("sniff returned -2147483648 with no detail recorded".to_string())
    );
}
