//! Filesystem and partition-table kinds, and the labels they are reported by.

use vstd::prelude::*;
use vstd::string::*;

use partitions::capi::{FsKindCode, TableKindCode};

use crate::text::{push_signed, signed_decimal};

verus! {

/// The label that stands for a sniff that failed, as distinct from `unknown`,
/// which says that it ran and recognised nothing.
pub const SNIFF_FAILED_LABEL: &'static str = "error";

/// A filesystem that a sniff can recognise.
#[derive(Debug, Clone, Copy, PartialEq, Eq, Structural)]
pub enum FsKind {
    Ext2,
    Ext3,
    Ext4,
    Ntfs,
    ExFat,
    Fat32,
    Fat16,
    HfsPlus,
    Apfs,
    LinuxSwap,
    Iso9660,
    Squashfs,
}

/// A partition table that a probe can find.
#[derive(Debug, Clone, Copy, PartialEq, Eq, Structural)]
pub enum TableKind {
    Gpt,
    Mbr,
}

impl FsKind {
    /// The code that a sniff returns for the filesystem.
    pub open spec fn code(self) -> int {
        match self {
            FsKind::Ext2 => 1,
            FsKind::Ext3 => 2,
            FsKind::Ext4 => 3,
            FsKind::Ntfs => 4,
            FsKind::ExFat => 5,
            FsKind::Fat32 => 6,
            FsKind::Fat16 => 7,
            FsKind::HfsPlus => 8,
            FsKind::Apfs => 9,
            FsKind::LinuxSwap => 10,
            FsKind::Iso9660 => 11,
            FsKind::Squashfs => 12,
        }
    }
}

impl TableKind {
    /// The code that a probe returns for the table.
    pub open spec fn code(self) -> int {
        match self {
            TableKind::Gpt => 1,
            TableKind::Mbr => 2,
        }
    }
}

/// The label of a filesystem code.
pub open spec fn fs_label(code: int) -> Seq<char> {
    if code == FsKind::Ext2.code() {
        "ext2"@
    } else if code == FsKind::Ext3.code() {
        "ext3"@
    } else if code == FsKind::Ext4.code() {
        "ext4"@
    } else if code == FsKind::Ntfs.code() {
        "ntfs"@
    } else if code == FsKind::ExFat.code() {
        "exfat"@
    } else if code == FsKind::Fat32.code() {
        "fat32"@
    } else if code == FsKind::Fat16.code() {
        "fat16"@
    } else if code == FsKind::HfsPlus.code() {
        "hfs_plus"@
    } else if code == FsKind::Apfs.code() {
        "apfs"@
    } else if code == FsKind::LinuxSwap.code() {
        "linux_swap"@
    } else if code == FsKind::Iso9660.code() {
        "iso9660"@
    } else if code == FsKind::Squashfs.code() {
        "squashfs"@
    } else {
        "unknown"@
    }
}

/// The label of a table code.
pub open spec fn table_label(code: int) -> Seq<char> {
    if code == TableKind::Gpt.code() {
        "gpt"@
    } else if code == TableKind::Mbr.code() {
        "mbr"@
    } else {
        "none"@
    }
}

/// The reason that is reported where a sniff failed with `code` and `detail`.
pub open spec fn sniff_failure(code: int, detail: Seq<char>) -> Seq<char> {
    if detail.len() == 0 {
        "sniff returned "@ + signed_decimal(code) + " with no detail recorded"@
    } else {
        detail
    }
}

/// The discriminants of `partitions::capi::FsKindCode`, which that crate keeps
/// stable for its callers. The contract gives the number of each variant.
#[verifier::external_body]
fn fs_kind_code(kind: FsKind) -> (code: i32)
    ensures
        code == kind.code(),
{
    match kind {
        FsKind::Ext2 => FsKindCode::Ext2 as i32,
        FsKind::Ext3 => FsKindCode::Ext3 as i32,
        FsKind::Ext4 => FsKindCode::Ext4 as i32,
        FsKind::Ntfs => FsKindCode::Ntfs as i32,
        FsKind::ExFat => FsKindCode::ExFat as i32,
        FsKind::Fat32 => FsKindCode::Fat32 as i32,
        FsKind::Fat16 => FsKindCode::Fat16 as i32,
        FsKind::HfsPlus => FsKindCode::HfsPlus as i32,
        FsKind::Apfs => FsKindCode::Apfs as i32,
        FsKind::LinuxSwap => FsKindCode::LinuxSwap as i32,
        FsKind::Iso9660 => FsKindCode::Iso9660 as i32,
        FsKind::Squashfs => FsKindCode::Squashfs as i32,
    }
}

/// The discriminants of `partitions::capi::TableKindCode`, which that crate
/// keeps stable for its callers. The contract gives the number of each variant.
#[verifier::external_body]
fn table_kind_code(kind: TableKind) -> (code: i32)
    ensures
        code == kind.code(),
{
    match kind {
        TableKind::Gpt => TableKindCode::Gpt as i32,
        TableKind::Mbr => TableKindCode::Mbr as i32,
    }
}

/// The label of a filesystem code, `unknown` for every code that names no
/// filesystem. The error code of a sniff is one of those, so it has to be told
/// apart before: see [`sniff_outcome`].
pub fn fs_kind_label(code: i32) -> (label: &'static str)
    ensures
        label@ == fs_label(code as int),
{
    if code == fs_kind_code(FsKind::Ext2) {
        "ext2"
    } else if code == fs_kind_code(FsKind::Ext3) {
        "ext3"
    } else if code == fs_kind_code(FsKind::Ext4) {
        "ext4"
    } else if code == fs_kind_code(FsKind::Ntfs) {
        "ntfs"
    } else if code == fs_kind_code(FsKind::ExFat) {
        "exfat"
    } else if code == fs_kind_code(FsKind::Fat32) {
        "fat32"
    } else if code == fs_kind_code(FsKind::Fat16) {
        "fat16"
    } else if code == fs_kind_code(FsKind::HfsPlus) {
        "hfs_plus"
    } else if code == fs_kind_code(FsKind::Apfs) {
        "apfs"
    } else if code == fs_kind_code(FsKind::LinuxSwap) {
        "linux_swap"
    } else if code == fs_kind_code(FsKind::Iso9660) {
        "iso9660"
    } else if code == fs_kind_code(FsKind::Squashfs) {
        "squashfs"
    } else {
        "unknown"
    }
}

/// The label of a table code, `none` for every code that names no table.
pub fn table_kind_label(code: i32) -> (label: &'static str)
    ensures
        label@ == table_label(code as int),
{
    if code == table_kind_code(TableKind::Gpt) {
        "gpt"
    } else if code == table_kind_code(TableKind::Mbr) {
        "mbr"
    } else {
        "none"
    }
}

/// Interprets what a sniff returned.
///
/// A negative code says that the sniff failed; `detail` is asked for the
/// reason then, and only then. Every other code is that of a filesystem, or of
/// none.
pub fn sniff_outcome<D: FnOnce() -> String>(code: i32, detail: D) -> (outcome: Result<
    &'static str,
    String,
>)
    requires
        code < 0 ==> detail.requires(()),
    ensures
        outcome is Ok <==> code >= 0,
        outcome matches Ok(label) ==> label@ == fs_label(code as int),
        outcome matches Err(reason) ==> exists|d: String| #[trigger]
            detail.ensures((), d) && reason@ == sniff_failure(code as int, d@),
{
    if code < 0 {
        let detail: String = detail();
        if detail.as_str().is_empty() {
            let mut reason: String = String::new();
            reason.append("sniff returned ");
            push_signed(&mut reason, code);
            reason.append(" with no detail recorded");
            Err(reason)
        } else {
            Err(detail)
        }
    } else {
        Ok(fs_kind_label(code))
    }
}

proof fn lemma_label_lengths()
    ensures
        "ext2"@.len() == 4,
        "ext3"@.len() == 4,
        "ext4"@.len() == 4,
        "ntfs"@.len() == 4,
        "exfat"@.len() == 5,
        "fat32"@.len() == 5,
        "fat16"@.len() == 5,
        "hfs_plus"@.len() == 8,
        "apfs"@.len() == 4,
        "linux_swap"@.len() == 10,
        "iso9660"@.len() == 7,
        "squashfs"@.len() == 8,
        "unknown"@.len() == 7,
        "error"@.len() == 5,
{
    reveal_strlit("ext2");
    reveal_strlit("ext3");
    reveal_strlit("ext4");
    reveal_strlit("ntfs");
    reveal_strlit("exfat");
    reveal_strlit("fat32");
    reveal_strlit("fat16");
    reveal_strlit("hfs_plus");
    reveal_strlit("apfs");
    reveal_strlit("linux_swap");
    reveal_strlit("iso9660");
    reveal_strlit("squashfs");
    reveal_strlit("unknown");
    reveal_strlit("error");
}

/// The label of a failed sniff is no filesystem's, and not `unknown` either:
/// a document says which of the three it was.
pub proof fn law_failed_sniff_is_told_apart(code: int)
    ensures
        fs_label(code) != SNIFF_FAILED_LABEL@,
{
    lemma_label_lengths();
    reveal_strlit("exfat");
    reveal_strlit("fat32");
    reveal_strlit("fat16");
    reveal_strlit("error");
    assert("error"@[0] == 'e' && "error"@[1] == 'r');
    assert("exfat"@[1] == 'x' && "fat32"@[0] == 'f' && "fat16"@[0] == 'f');
}

/// `unknown` means only what it says: the code is that of no filesystem.
pub proof fn law_unknown_means_unrecognised(code: int)
    ensures
        fs_label(code) == "unknown"@ <==> forall|kind: FsKind| #[trigger] kind.code() != code,
{
    lemma_label_lengths();
    reveal_strlit("iso9660");
    reveal_strlit("unknown");
    assert("iso9660"@[0] == 'i' && "unknown"@[0] == 'u');
    if fs_label(code) != "unknown"@ {
        let kinds = seq![
            FsKind::Ext2,
            FsKind::Ext3,
            FsKind::Ext4,
            FsKind::Ntfs,
            FsKind::ExFat,
            FsKind::Fat32,
            FsKind::Fat16,
            FsKind::HfsPlus,
            FsKind::Apfs,
            FsKind::LinuxSwap,
            FsKind::Iso9660,
            FsKind::Squashfs,
        ];
        assert(kinds[code - 1].code() == code);
    }
}

/// The codes of filesystems are 1 to 12, and every other code is `unknown`,
/// however large or small.
pub proof fn law_other_codes_are_unknown(code: int)
    ensures
        fs_label(code) == "unknown"@ <==> !(1 <= code <= 12),
        fs_label(code) != "error"@,
{
    law_unknown_means_unrecognised(code);
    law_failed_sniff_is_told_apart(code);
    assert(forall|kind: FsKind| 1 <= #[trigger] kind.code() <= 12);
}

/// Two filesystems never share a label.
pub proof fn law_labels_tell_filesystems_apart(code: int, other: int)
    requires
        1 <= code <= 12,
        1 <= other <= 12,
        fs_label(code) == fs_label(other),
    ensures
        code == other,
{
    lemma_label_lengths();
    reveal_strlit("ext2");
    reveal_strlit("ext3");
    reveal_strlit("ext4");
    reveal_strlit("ntfs");
    reveal_strlit("exfat");
    reveal_strlit("fat32");
    reveal_strlit("fat16");
    reveal_strlit("hfs_plus");
    reveal_strlit("apfs");
    reveal_strlit("squashfs");
    assert("ext2"@[3] == '2' && "ext3"@[3] == '3' && "ext4"@[3] == '4');
    assert("ext2"@[0] == 'e' && "ext3"@[0] == 'e' && "ext4"@[0] == 'e');
    assert("ntfs"@[0] == 'n' && "apfs"@[0] == 'a');
    assert("exfat"@[0] == 'e' && "fat32"@[0] == 'f' && "fat16"@[0] == 'f');
    assert("fat32"@[3] == '3' && "fat16"@[3] == '1');
    assert("hfs_plus"@[0] == 'h' && "squashfs"@[0] == 's');
}

/// There are two tables, with the codes 1 and 2, and every other code is that
/// of none.
pub proof fn law_other_tables_are_none(code: int)
    ensures
        table_label(code) == "gpt"@ <==> code == 1,
        table_label(code) == "mbr"@ <==> code == 2,
        table_label(code) == "none"@ <==> code != 1 && code != 2,
{
    reveal_strlit("gpt");
    reveal_strlit("mbr");
    reveal_strlit("none");
    assert("gpt"@[0] == 'g' && "mbr"@[0] == 'm');
    assert("gpt"@.len() == 3 && "mbr"@.len() == 3 && "none"@.len() == 4);
}

/// The reason of a failed sniff is the recorded one in full, and names the code
/// where none was recorded.
pub proof fn law_reason_is_kept(code: int, detail: Seq<char>)
    ensures
        detail.len() > 0 ==> sniff_failure(code, detail) == detail,
        detail.len() == 0 ==> sniff_failure(code, detail) == "sniff returned "@ + signed_decimal(
            code,
        ) + " with no detail recorded"@,
{
}

} // verus!
