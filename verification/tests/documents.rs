use diskprobe::container::Container;
use diskprobe::guid::fmt_guid;
use diskprobe::json::{json_envelope, json_escape, sniff_error_field};
use diskprobe::report::{
    device_document, label_text, partition_entry, table_document, Entry, Image, Partition,
};

fn partition(label: Option<&[u8]>) -> Partition {
    Partition {
        start: 1048576,
        length: 268435456,
        type_byte: 0,
        type_guid: [
            0xaf, 0x3d, 0xc6, 0x0f, 0x83, 0x84, 0x72, 0x47, 0x8e, 0x79, 0x3d, 0x69, 0xd8, 0x47,
            0x7d, 0xe4,
        ],
        label: label.map(|l| l.to_vec()),
    }
}

#[test]
fn the_json_envelope_opens_with_the_contracted_keys() {
    let out = json_envelope("/a\"b", Container::Qcow2, 4096, "gpt", ",\"partitions\":[]");
    assert_eq!(
        out,
        "{\"path\":\"/a\\\"b\",\"container\":\"qcow2\",\"container_size_bytes\":4096,\"table\":\"gpt\",\"partitions\":[]}"
    );
}

#[test]
fn both_documents_share_an_opening() {
    let no_table = json_envelope("/x", Container::Raw, 1, "none", ",\"partitions\":[]");
    let with_table = json_envelope("/x", Container::Raw, 1, "mbr", ",\"partitions\":[]");
    let prefix = "{\"path\":\"/x\",\"container\":\"raw\",\"container_size_bytes\":1,\"table\":\"";
    assert!(no_table.starts_with(prefix), "{no_table}");
    assert!(with_table.starts_with(prefix), "{with_table}");
}

#[test]
fn json_escape_leaves_ordinary_text_untouched() {
    assert_eq!(json_escape(""), "");
    assert_eq!(json_escape("boot"), "boot");
    assert_eq!(
        json_escape("/Volumes/My Disk/image.img"),
        "/Volumes/My Disk/image.img"
    );
}

#[test]
fn json_escape_escapes_the_characters_json_requires() {
    assert_eq!(json_escape("say \"hi\""), "say \\\"hi\\\"");
    assert_eq!(json_escape("C:\\disks"), "C:\\\\disks");
    assert_eq!(json_escape("a\nb"), "a\\nb");
    assert_eq!(json_escape("a\rb"), "a\\rb");
    assert_eq!(json_escape("a\tb"), "a\\tb");
}

#[test]
fn json_escape_renders_other_control_characters_as_u_sequences() {
    assert_eq!(json_escape("\u{0}"), "\\u0000");
    assert_eq!(json_escape("\u{8}"), "\\u0008");
    assert_eq!(json_escape("\u{b}"), "\\u000b");
    assert_eq!(json_escape("\u{1f}"), "\\u001f");
}

#[test]
fn json_escape_passes_through_del_and_non_ascii() {
    assert_eq!(json_escape("\u{7f}"), "\u{7f}");
    assert_eq!(json_escape("Système"), "Système");
    assert_eq!(json_escape("ボリューム"), "ボリューム");
}

#[test]
fn fmt_guid_renders_a_known_gpt_type_guid() {
    let on_disk = [
        0xaf, 0x3d, 0xc6, 0x0f, 0x83, 0x84, 0x72, 0x47, 0x8e, 0x79, 0x3d, 0x69, 0xd8, 0x47, 0x7d,
        0xe4,
    ];
    assert_eq!(fmt_guid(&on_disk), "0fc63daf-8483-4772-8e79-3d69d8477de4");
}

#[test]
fn fmt_guid_byte_swaps_the_first_three_fields_and_not_the_last_two() {
    let ascending: [u8; 16] = [
        0x00, 0x01, 0x02, 0x03, 0x04, 0x05, 0x06, 0x07, 0x08, 0x09, 0x0a, 0x0b, 0x0c, 0x0d, 0x0e,
        0x0f,
    ];
    assert_eq!(fmt_guid(&ascending), "03020100-0504-0706-0809-0a0b0c0d0e0f");
}

#[test]
fn fmt_guid_zero_pads_every_field() {
    assert_eq!(fmt_guid(&[0u8; 16]), "00000000-0000-0000-0000-000000000000");
    let mut sparse = [0u8; 16];
    sparse[0] = 0x01;
    sparse[15] = 0x02;
    assert_eq!(fmt_guid(&sparse), "00000001-0000-0000-0000-000000000002");
}

#[test]
fn fmt_guid_fills_every_digit() {
    assert_eq!(
        fmt_guid(&[0xffu8; 16]),
        "ffffffff-ffff-ffff-ffff-ffffffffffff"
    );
}

#[test]
fn sniff_error_field_adds_nothing_when_the_sniff_succeeded() {
    assert_eq!(sniff_error_field("fs_kind_error", None), "");
}

#[test]
fn sniff_error_field_emits_an_escaped_json_pair() {
    assert_eq!(
        sniff_error_field("fs_kind_error", Some("read \"failed\"")),
        ",\"fs_kind_error\":\"read \\\"failed\\\"\""
    );
    assert_eq!(
        sniff_error_field("device_fs_error", Some("line one\nline two")),
        ",\"device_fs_error\":\"line one\\nline two\""
    );
}

#[test]
fn numbers_are_written_in_full() {
    let out = json_envelope("", Container::Vmdk, u64::MAX, "none", "");
    assert_eq!(
        out,
        "{\"path\":\"\",\"container\":\"vmdk\",\"container_size_bytes\":18446744073709551615,\"table\":\"none\"}"
    );
    let zero = json_envelope("", Container::Vmdk, 0, "none", "");
    assert!(zero.contains("\"container_size_bytes\":0,"));
}

#[test]
fn a_label_is_shown_where_it_is_text() {
    assert_eq!(label_text(&None), None);
    assert_eq!(label_text(&Some(vec![])), None);
    assert_eq!(label_text(&Some(b"boot".to_vec())), Some("boot"));
    assert_eq!(
        label_text(&Some("Système".as_bytes().to_vec())),
        Some("Système")
    );
    assert_eq!(label_text(&Some(vec![0xff, 0xfe])), None);
    assert_eq!(label_text(&Some(vec![0xc0, 0x80])), None);
    assert_eq!(label_text(&Some(vec![0xed, 0xa0, 0x80])), None);
}

#[test]
fn an_entry_with_a_label() {
    let entry = Entry {
        index: 0,
        partition: partition(Some(b"bo\"ot")),
        fs_label: "ext4",
        fs_error: None,
    };
    assert_eq!(
        partition_entry(&entry),
        "{\"index\":0,\"start\":1048576,\"length\":268435456,\"fs_kind\":\"ext4\",\"type_byte\":0,\"type_guid\":\"0fc63daf-8483-4772-8e79-3d69d8477de4\",\"label\":\"bo\\\"ot\"}"
    );
}

#[test]
fn an_entry_whose_sniff_failed() {
    let entry = Entry {
        index: 7,
        partition: Partition {
            start: 0,
            length: 1,
            type_byte: 131,
            type_guid: [0u8; 16],
            label: None,
        },
        fs_label: "error",
        fs_error: Some("read failed".to_string()),
    };
    assert_eq!(
        partition_entry(&entry),
        "{\"index\":7,\"start\":0,\"length\":1,\"fs_kind\":\"error\",\"type_byte\":131,\"type_guid\":\"00000000-0000-0000-0000-000000000000\",\"fs_kind_error\":\"read failed\"}"
    );
}

#[test]
fn a_table_document_joins_its_entries() {
    let image = Image {
        path: "/d.img".to_string(),
        container: Container::Raw,
        size_bytes: 4096,
    };
    let entry = |index: usize| Entry {
        index,
        partition: partition(None),
        fs_label: "unknown",
        fs_error: None,
    };
    let none = table_document(&image, 2, &vec![]);
    assert_eq!(
        none,
        "{\"path\":\"/d.img\",\"container\":\"raw\",\"container_size_bytes\":4096,\"table\":\"mbr\",\"partitions\":[]}"
    );
    let entries = vec![entry(0), entry(1), entry(4)];
    let three = table_document(&image, 1, &entries);
    let expected = format!(
        "{{\"path\":\"/d.img\",\"container\":\"raw\",\"container_size_bytes\":4096,\"table\":\"gpt\",\"partitions\":[{},{},{}]}}",
        partition_entry(&entries[0]),
        partition_entry(&entries[1]),
        partition_entry(&entries[2])
    );
    assert_eq!(three, expected);
}

#[test]
fn a_device_document_names_the_filesystem() {
    let image = Image {
        path: "/d.img".to_string(),
        container: Container::Vhd,
        size_bytes: 512,
    };
    assert_eq!(
        device_document(&image, "ext4", &None),
        "{\"path\":\"/d.img\",\"container\":\"vhd\",\"container_size_bytes\":512,\"table\":\"none\",\"device_fs_kind\":\"ext4\",\"partitions\":[]}"
    );
    assert_eq!(
        device_document(&image, "error", &Some("short\tread".to_string())),
        "{\"path\":\"/d.img\",\"container\":\"vhd\",\"container_size_bytes\":512,\"table\":\"none\",\"device_fs_kind\":\"error\",\"device_fs_error\":\"short\\tread\",\"partitions\":[]}"
    );
}
