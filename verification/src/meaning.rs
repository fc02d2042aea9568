//! What the documents mean to whoever parses them.

use vstd::prelude::*;
use vstd::utf8::{
    decode_utf8, decode_utf8_encode_utf8, encode_utf8, encode_utf8_valid_utf8, valid_utf8,
};

use crate::container::Container;
use crate::guid::{guid_text, law_guid_is_padded, law_guid_is_spelled_out, spells};
use crate::json::{error_field_text, escaped, escaped_char};
use crate::kinds::{fs_label, law_other_tables_are_none, table_label, SNIFF_FAILED_LABEL};
use crate::report::{
    device_document_text, entries_text, entry_text, law_label_is_shown, table_document_text, views,
    Entry, EntryView, Image, ImageView, Partition,
};
use crate::text::{decimal, digit};
use crate::value::{
    law_written_value_reads_back, lemma_plain_text, plain, quoted, read_document, written,
    written_items, written_members, Json,
};

verus! {

/// Whether this is a label that a filesystem can be reported by.
pub open spec fn is_fs_label(label: Seq<char>) -> bool {
    label == SNIFF_FAILED_LABEL@ || exists|code: int| label == #[trigger] fs_label(code)
}

/// The members that every document opens with.
pub open spec fn image_members(image: ImageView, table: Seq<char>) -> Seq<(Seq<char>, Json)> {
    seq![
        ("path"@, Json::Text(image.path)),
        ("container"@, Json::Text(image.container.name())),
        ("container_size_bytes"@, Json::Number(image.size_bytes)),
        ("table"@, Json::Text(table)),
    ]
}

/// Members with one more behind them, where there is a text for it.
pub open spec fn with_text(
    members: Seq<(Seq<char>, Json)>,
    key: Seq<char>,
    text: Option<Seq<char>>,
) -> Seq<(Seq<char>, Json)> {
    match text {
        Some(text) => members.push((key, Json::Text(text))),
        None => members,
    }
}

/// The record of one partition.
pub open spec fn entry_json(entry: EntryView) -> Json {
    let members = seq![
        ("index"@, Json::Number(entry.index)),
        ("start"@, Json::Number(entry.partition.start)),
        ("length"@, Json::Number(entry.partition.length)),
        ("fs_kind"@, Json::Text(entry.fs_label)),
        ("type_byte"@, Json::Number(entry.partition.type_byte)),
        ("type_guid"@, Json::Text(guid_text(entry.partition.type_guid))),
    ];
    Json::Record(
        with_text(
            with_text(members, "fs_kind_error"@, entry.fs_error),
            "label"@,
            entry.partition.label,
        ),
    )
}

/// The records of these partitions, in order.
pub open spec fn entries_json(entries: Seq<EntryView>) -> Seq<Json> {
    entries.map_values(|entry: EntryView| entry_json(entry))
}

/// What the document of an image with a partition table says.
pub open spec fn table_json(image: ImageView, table: int, entries: Seq<EntryView>) -> Json {
    Json::Record(
        image_members(image, table_label(table)).push(
            ("partitions"@, Json::List(entries_json(entries))),
        ),
    )
}

/// What the document of an image without a partition table says.
pub open spec fn device_json(
    image: ImageView,
    fs_label: Seq<char>,
    fs_error: Option<Seq<char>>,
) -> Json {
    Json::Record(
        with_text(
            image_members(image, "none"@).push(("device_fs_kind"@, Json::Text(fs_label))),
            "device_fs_error"@,
            fs_error,
        ).push(("partitions"@, Json::List(Seq::empty()))),
    )
}

proof fn lemma_pushed_member(members: Seq<(Seq<char>, Json)>, key: Seq<char>, v: Json)
    requires
        members.len() > 0,
    ensures
        written_members(members.push((key, v))) == written_members(members) + seq![','] + quoted(
            key,
        ) + seq![':'] + written(v),
    decreases members.len(),
{
    let all = members.push((key, v));
    if members.len() == 1 {
        assert(all.drop_first() =~= seq![(key, v)]);
        reveal_with_fuel(written_members, 3);
    } else {
        assert(all.drop_first() =~= members.drop_first().push((key, v)));
        lemma_pushed_member(members.drop_first(), key, v);
    }
    assert(written_members(all) =~= written_members(members) + seq![','] + quoted(key) + seq![':']
        + written(v));
}

proof fn lemma_pushed_item(items: Seq<Json>, v: Json)
    requires
        items.len() > 0,
    ensures
        written_items(items.push(v)) == written_items(items) + seq![','] + written(v),
    decreases items.len(),
{
    let all = items.push(v);
    if items.len() == 1 {
        assert(all.drop_first() =~= seq![v]);
        reveal_with_fuel(written_items, 3);
    } else {
        assert(all.drop_first() =~= items.drop_first().push(v));
        lemma_pushed_item(items.drop_first(), v);
    }
    assert(written_items(all) =~= written_items(items) + seq![','] + written(v));
}

proof fn lemma_plain_quoted(s: Seq<char>)
    requires
        plain(s),
    ensures
        quoted(s) == seq!['"'] + s + seq!['"'],
{
    lemma_plain_text(s);
}

proof fn lemma_keys_are_plain()
    ensures
        plain("path"@),
        plain("container"@),
        plain("container_size_bytes"@),
        plain("table"@),
        plain("partitions"@),
        plain("device_fs_kind"@),
        plain("device_fs_error"@),
        plain("index"@),
        plain("start"@),
        plain("length"@),
        plain("fs_kind"@),
        plain("type_byte"@),
        plain("type_guid"@),
        plain("fs_kind_error"@),
        plain("label"@),
{
    reveal_strlit("path");
    assert("path"@ =~= seq!['p', 'a', 't', 'h']);
    reveal_strlit("container");
    assert("container"@ =~= seq!['c', 'o', 'n', 't', 'a', 'i', 'n', 'e', 'r']);
    reveal_strlit("container_size_bytes");
    assert("container_size_bytes"@ =~= seq!['c', 'o', 'n', 't', 'a', 'i', 'n', 'e', 'r', '_', 's', 'i', 'z', 'e', '_', 'b', 'y', 't', 'e', 's']);
    reveal_strlit("table");
    assert("table"@ =~= seq!['t', 'a', 'b', 'l', 'e']);
    reveal_strlit("partitions");
    assert("partitions"@ =~= seq!['p', 'a', 'r', 't', 'i', 't', 'i', 'o', 'n', 's']);
    reveal_strlit("device_fs_kind");
    assert("device_fs_kind"@ =~= seq!['d', 'e', 'v', 'i', 'c', 'e', '_', 'f', 's', '_', 'k', 'i', 'n', 'd']);
    reveal_strlit("device_fs_error");
    assert("device_fs_error"@ =~= seq!['d', 'e', 'v', 'i', 'c', 'e', '_', 'f', 's', '_', 'e', 'r', 'r', 'o', 'r']);
    reveal_strlit("index");
    assert("index"@ =~= seq!['i', 'n', 'd', 'e', 'x']);
    reveal_strlit("start");
    assert("start"@ =~= seq!['s', 't', 'a', 'r', 't']);
    reveal_strlit("length");
    assert("length"@ =~= seq!['l', 'e', 'n', 'g', 't', 'h']);
    reveal_strlit("fs_kind");
    assert("fs_kind"@ =~= seq!['f', 's', '_', 'k', 'i', 'n', 'd']);
    reveal_strlit("type_byte");
    assert("type_byte"@ =~= seq!['t', 'y', 'p', 'e', '_', 'b', 'y', 't', 'e']);
    reveal_strlit("type_guid");
    assert("type_guid"@ =~= seq!['t', 'y', 'p', 'e', '_', 'g', 'u', 'i', 'd']);
    reveal_strlit("fs_kind_error");
    assert("fs_kind_error"@ =~= seq!['f', 's', '_', 'k', 'i', 'n', 'd', '_', 'e', 'r', 'r', 'o', 'r']);
    reveal_strlit("label");
    assert("label"@ =~= seq!['l', 'a', 'b', 'e', 'l']);
}

proof fn lemma_container_names_are_plain(kind: Container)
    ensures
        plain(kind.name()),
{
    reveal_strlit("raw");
    assert("raw"@ =~= seq!['r', 'a', 'w']);
    reveal_strlit("qcow2");
    assert("qcow2"@ =~= seq!['q', 'c', 'o', 'w', '2']);
    reveal_strlit("vhd");
    assert("vhd"@ =~= seq!['v', 'h', 'd']);
    reveal_strlit("vhdx");
    assert("vhdx"@ =~= seq!['v', 'h', 'd', 'x']);
    reveal_strlit("vmdk");
    assert("vmdk"@ =~= seq!['v', 'm', 'd', 'k']);
}

proof fn lemma_table_labels_are_plain(code: int)
    ensures
        plain(table_label(code)),
        plain("none"@),
{
    reveal_strlit("gpt");
    assert("gpt"@ =~= seq!['g', 'p', 't']);
    reveal_strlit("mbr");
    assert("mbr"@ =~= seq!['m', 'b', 'r']);
    reveal_strlit("none");
    assert("none"@ =~= seq!['n', 'o', 'n', 'e']);
}

pub(crate) proof fn lemma_fs_labels_are_plain(label: Seq<char>)
    requires
        is_fs_label(label),
    ensures
        plain(label),
{
    reveal_strlit("ext2");
    assert("ext2"@ =~= seq!['e', 'x', 't', '2']);
    reveal_strlit("ext3");
    assert("ext3"@ =~= seq!['e', 'x', 't', '3']);
    reveal_strlit("ext4");
    assert("ext4"@ =~= seq!['e', 'x', 't', '4']);
    reveal_strlit("ntfs");
    assert("ntfs"@ =~= seq!['n', 't', 'f', 's']);
    reveal_strlit("exfat");
    assert("exfat"@ =~= seq!['e', 'x', 'f', 'a', 't']);
    reveal_strlit("fat32");
    assert("fat32"@ =~= seq!['f', 'a', 't', '3', '2']);
    reveal_strlit("fat16");
    assert("fat16"@ =~= seq!['f', 'a', 't', '1', '6']);
    reveal_strlit("hfs_plus");
    assert("hfs_plus"@ =~= seq!['h', 'f', 's', '_', 'p', 'l', 'u', 's']);
    reveal_strlit("apfs");
    assert("apfs"@ =~= seq!['a', 'p', 'f', 's']);
    reveal_strlit("linux_swap");
    assert("linux_swap"@ =~= seq!['l', 'i', 'n', 'u', 'x', '_', 's', 'w', 'a', 'p']);
    reveal_strlit("iso9660");
    assert("iso9660"@ =~= seq!['i', 's', 'o', '9', '6', '6', '0']);
    reveal_strlit("squashfs");
    assert("squashfs"@ =~= seq!['s', 'q', 'u', 'a', 's', 'h', 'f', 's']);
    reveal_strlit("unknown");
    assert("unknown"@ =~= seq!['u', 'n', 'k', 'n', 'o', 'w', 'n']);
    reveal_strlit("error");
    assert("error"@ =~= seq!['e', 'r', 'r', 'o', 'r']);
}

proof fn lemma_guid_is_plain(guid: Seq<u8>)
    requires
        guid.len() == 16,
    ensures
        plain(guid_text(guid)),
{
    law_guid_is_padded(guid);
    let text = guid_text(guid);
    assert forall|i: int| 0 <= i < text.len() implies escaped_char(#[trigger] text[i]) == seq![
        text[i],
    ] by {
        if i != 8 && i != 13 && i != 18 && i != 23 {
            let d = choose|d: int| 0 <= d < 16 && text[i] == #[trigger] digit(d);
            assert(text[i] == digit(d));
        }
    }
}

proof fn lemma_literal_path()
    ensures
        "{\"path\":\""@ == seq!['{', '"'] + "path"@ + seq!['"', ':', '"'],
{
    reveal_strlit("{\"path\":\"");
    reveal_strlit("path");
    assert("{\"path\":\""@ =~= seq!['{', '"'] + "path"@ + seq!['"', ':', '"']);
}

proof fn lemma_literal_container()
    ensures
        "\",\"container\":\""@ == seq!['"', ',', '"'] + "container"@ + seq!['"', ':', '"'],
{
    reveal_strlit("\",\"container\":\"");
    reveal_strlit("container");
    assert("\",\"container\":\""@ =~= seq!['"', ',', '"'] + "container"@ + seq!['"', ':', '"']);
}

proof fn lemma_literal_container_size_bytes()
    ensures
        "\",\"container_size_bytes\":"@ == seq!['"', ',', '"'] + "container_size_bytes"@ + seq!['"', ':'],
{
    reveal_strlit("\",\"container_size_bytes\":");
    reveal_strlit("container_size_bytes");
    assert("\",\"container_size_bytes\":"@ =~= seq!['"', ',', '"'] + "container_size_bytes"@ + seq!['"', ':']);
}

proof fn lemma_literal_table()
    ensures
        ",\"table\":\""@ == seq![',', '"'] + "table"@ + seq!['"', ':', '"'],
{
    reveal_strlit(",\"table\":\"");
    reveal_strlit("table");
    assert(",\"table\":\""@ =~= seq![',', '"'] + "table"@ + seq!['"', ':', '"']);
}

proof fn lemma_literal_index()
    ensures
        "{\"index\":"@ == seq!['{', '"'] + "index"@ + seq!['"', ':'],
{
    reveal_strlit("{\"index\":");
    reveal_strlit("index");
    assert("{\"index\":"@ =~= seq!['{', '"'] + "index"@ + seq!['"', ':']);
}

proof fn lemma_literal_start()
    ensures
        ",\"start\":"@ == seq![',', '"'] + "start"@ + seq!['"', ':'],
{
    reveal_strlit(",\"start\":");
    reveal_strlit("start");
    assert(",\"start\":"@ =~= seq![',', '"'] + "start"@ + seq!['"', ':']);
}

proof fn lemma_literal_length()
    ensures
        ",\"length\":"@ == seq![',', '"'] + "length"@ + seq!['"', ':'],
{
    reveal_strlit(",\"length\":");
    reveal_strlit("length");
    assert(",\"length\":"@ =~= seq![',', '"'] + "length"@ + seq!['"', ':']);
}

proof fn lemma_literal_fs_kind()
    ensures
        ",\"fs_kind\":\""@ == seq![',', '"'] + "fs_kind"@ + seq!['"', ':', '"'],
{
    reveal_strlit(",\"fs_kind\":\"");
    reveal_strlit("fs_kind");
    assert(",\"fs_kind\":\""@ =~= seq![',', '"'] + "fs_kind"@ + seq!['"', ':', '"']);
}

proof fn lemma_literal_type_byte()
    ensures
        "\",\"type_byte\":"@ == seq!['"', ',', '"'] + "type_byte"@ + seq!['"', ':'],
{
    reveal_strlit("\",\"type_byte\":");
    reveal_strlit("type_byte");
    assert("\",\"type_byte\":"@ =~= seq!['"', ',', '"'] + "type_byte"@ + seq!['"', ':']);
}

proof fn lemma_literal_type_guid()
    ensures
        ",\"type_guid\":\""@ == seq![',', '"'] + "type_guid"@ + seq!['"', ':', '"'],
{
    reveal_strlit(",\"type_guid\":\"");
    reveal_strlit("type_guid");
    assert(",\"type_guid\":\""@ =~= seq![',', '"'] + "type_guid"@ + seq!['"', ':', '"']);
}

proof fn lemma_literal_label()
    ensures
        ",\"label\":\""@ == seq![',', '"'] + "label"@ + seq!['"', ':', '"'],
{
    reveal_strlit(",\"label\":\"");
    reveal_strlit("label");
    assert(",\"label\":\""@ =~= seq![',', '"'] + "label"@ + seq!['"', ':', '"']);
}

proof fn lemma_literal_partitions()
    ensures
        ",\"partitions\":["@ == seq![',', '"'] + "partitions"@ + seq!['"', ':', '['],
{
    reveal_strlit(",\"partitions\":[");
    reveal_strlit("partitions");
    assert(",\"partitions\":["@ =~= seq![',', '"'] + "partitions"@ + seq!['"', ':', '[']);
}

proof fn lemma_literal_device_fs_kind()
    ensures
        ",\"device_fs_kind\":\""@ == seq![',', '"'] + "device_fs_kind"@ + seq!['"', ':', '"'],
{
    reveal_strlit(",\"device_fs_kind\":\"");
    reveal_strlit("device_fs_kind");
    assert(",\"device_fs_kind\":\""@ =~= seq![',', '"'] + "device_fs_kind"@ + seq!['"', ':', '"']);
}

proof fn lemma_literal_partitions_empty()
    ensures
        ",\"partitions\":[]"@ == seq![',', '"'] + "partitions"@ + seq!['"', ':', '[', ']'],
{
    reveal_strlit(",\"partitions\":[]");
    reveal_strlit("partitions");
    assert(",\"partitions\":[]"@ =~= seq![',', '"'] + "partitions"@ + seq!['"', ':', '[', ']']);
}

proof fn lemma_punctuation()
    ensures
        "\""@ == seq!['"'],
        "}"@ == seq!['}'],
        "]"@ == seq![']'],
        ","@ == seq![','],
        ",\""@ == seq![',', '"'],
        "\":\""@ == seq!['"', ':', '"'],
{
    reveal_strlit("\"");
    assert("\""@ =~= seq!['"']);
    reveal_strlit("}");
    assert("}"@ =~= seq!['}']);
    reveal_strlit("]");
    assert("]"@ =~= seq![']']);
    reveal_strlit(",");
    assert(","@ =~= seq![',']);
    reveal_strlit(",\"");
    assert(",\""@ =~= seq![',', '"']);
    reveal_strlit("\":\"");
    assert("\":\""@ =~= seq!['"', ':', '"']);
}

proof fn lemma_first_member(key: Seq<char>, v: Json)
    ensures
        written_members(seq![(key, v)]) == quoted(key) + seq![':'] + written(v),
{
}

/// The record that opens with these members, so far: without the quote that
/// closes the last of them, where that is a text.
spec fn opened(members: Seq<(Seq<char>, Json)>, quote: bool, text: Seq<char>) -> bool {
    &&& members.len() > 0
    &&& seq!['{'] + written_members(members) == if quote {
        text + seq!['"']
    } else {
        text
    }
}

/// What stands between two members: the quote that closes the first, the key
/// of the second, and the quote that opens it.
spec fn between(quote: bool, key: Seq<char>, quote_after: bool) -> Seq<char> {
    let start = if quote {
        seq!['"', ',', '"']
    } else {
        seq![',', '"']
    };
    let end = if quote_after {
        seq!['"', ':', '"']
    } else {
        seq!['"', ':']
    };
    start + key + end
}

proof fn lemma_add_text(
    members: Seq<(Seq<char>, Json)>,
    quote: bool,
    text: Seq<char>,
    key: Seq<char>,
    value: Seq<char>,
)
    requires
        opened(members, quote, text),
        plain(key),
    ensures
        opened(
            members.push((key, Json::Text(value))),
            true,
            text + between(quote, key, true) + escaped(value),
        ),
{
    let v = Json::Text(value);
    let all = members.push((key, v));
    lemma_pushed_member(members, key, v);
    lemma_plain_quoted(key);
    let w = written_members(members);
    let e = escaped(value);
    assert(seq!['{'] + written_members(all) =~= (seq!['{'] + w) + (seq![',', '"'] + key + seq![
        '"',
        ':',
        '"',
    ]) + e + seq!['"']);
    assert((seq!['{'] + w) + (seq![',', '"'] + key + seq!['"', ':', '"']) =~= text + between(
        quote,
        key,
        true,
    ));
}

proof fn lemma_add_number(
    members: Seq<(Seq<char>, Json)>,
    quote: bool,
    text: Seq<char>,
    key: Seq<char>,
    value: nat,
)
    requires
        opened(members, quote, text),
        plain(key),
    ensures
        opened(
            members.push((key, Json::Number(value))),
            false,
            text + between(quote, key, false) + decimal(value),
        ),
{
    let v = Json::Number(value);
    let all = members.push((key, v));
    lemma_pushed_member(members, key, v);
    lemma_plain_quoted(key);
    let w = written_members(members);
    let d = decimal(value);
    assert(seq!['{'] + written_members(all) =~= (seq!['{'] + w) + (seq![',', '"'] + key + seq![
        '"',
        ':',
    ]) + d);
    assert((seq!['{'] + w) + (seq![',', '"'] + key + seq!['"', ':']) =~= text + between(
        quote,
        key,
        false,
    ));
}

proof fn lemma_opening(image: ImageView, table: Seq<char>)
    requires
        plain(table),
    ensures
        opened(
            image_members(image, table),
            true,
            "{\"path\":\""@ + escaped(image.path) + "\",\"container\":\""@
                + image.container.name() + "\",\"container_size_bytes\":"@ + decimal(
                image.size_bytes,
            ) + ",\"table\":\""@ + table,
        ),
{
    lemma_keys_are_plain();
    lemma_container_names_are_plain(image.container);
    lemma_plain_text(image.container.name());
    lemma_plain_text(table);
    lemma_plain_quoted("path"@);
    lemma_literal_path();
    lemma_literal_container();
    lemma_literal_container_size_bytes();
    lemma_literal_table();
    let m1 = seq![("path"@, Json::Text(image.path))];
    let m2 = m1.push(("container"@, Json::Text(image.container.name())));
    let m3 = m2.push(("container_size_bytes"@, Json::Number(image.size_bytes)));
    let m4 = m3.push(("table"@, Json::Text(table)));
    lemma_first_member("path"@, Json::Text(image.path));
    let t1 = "{\"path\":\""@ + escaped(image.path);
    assert(seq!['{'] + written_members(m1) =~= t1 + seq!['"']);
    assert(opened(m1, true, t1));
    lemma_add_text(m1, true, t1, "container"@, image.container.name());
    let t2 = t1 + "\",\"container\":\""@ + image.container.name();
    lemma_add_number(m2, true, t2, "container_size_bytes"@, image.size_bytes);
    let t3 = t2 + "\",\"container_size_bytes\":"@ + decimal(image.size_bytes);
    lemma_add_text(m3, false, t3, "table"@, table);
    assert(image_members(image, table) =~= m4);
}

proof fn lemma_add_optional(
    members: Seq<(Seq<char>, Json)>,
    text: Seq<char>,
    key: Seq<char>,
    value: Option<Seq<char>>,
)
    requires
        opened(members, false, text),
        plain(key),
    ensures
        opened(with_text(members, key, value), false, text + error_field_text(key, value)),
{
    match value {
        Some(value) => {
            lemma_add_text(members, false, text, key, value);
            lemma_punctuation();
            assert(text + between(false, key, true) + escaped(value) + seq!['"'] =~= text
                + error_field_text(key, Some(value)));
        },
        None => {
            assert(text + error_field_text(key, value) =~= text);
        },
    }
}

proof fn lemma_close_quote(members: Seq<(Seq<char>, Json)>, text: Seq<char>)
    requires
        opened(members, true, text),
    ensures
        opened(members, false, text + "\""@),
{
    lemma_punctuation();
}

proof fn lemma_close_record(members: Seq<(Seq<char>, Json)>, text: Seq<char>)
    requires
        opened(members, false, text),
    ensures
        written(Json::Record(members)) == text + "}"@,
{
    lemma_punctuation();
}

proof fn lemma_entry(entry: EntryView)
    requires
        entry.partition.type_guid.len() == 16,
        plain(entry.fs_label),
    ensures
        written(entry_json(entry)) == entry_text(entry),
{
    let part = entry.partition;
    let guid = guid_text(part.type_guid);
    lemma_keys_are_plain();
    lemma_plain_text(entry.fs_label);
    lemma_guid_is_plain(part.type_guid);
    lemma_plain_text(guid);
    lemma_plain_quoted("index"@);
    lemma_literal_index();
    lemma_literal_start();
    lemma_literal_length();
    lemma_literal_fs_kind();
    lemma_literal_type_byte();
    lemma_literal_type_guid();
    let m1 = seq![("index"@, Json::Number(entry.index))];
    let m2 = m1.push(("start"@, Json::Number(part.start)));
    let m3 = m2.push(("length"@, Json::Number(part.length)));
    let m4 = m3.push(("fs_kind"@, Json::Text(entry.fs_label)));
    let m5 = m4.push(("type_byte"@, Json::Number(part.type_byte)));
    let m6 = m5.push(("type_guid"@, Json::Text(guid)));
    lemma_first_member("index"@, Json::Number(entry.index));
    let t1 = "{\"index\":"@ + decimal(entry.index);
    assert(seq!['{'] + written_members(m1) =~= t1);
    assert(opened(m1, false, t1));
    lemma_add_number(m1, false, t1, "start"@, part.start);
    let t2 = t1 + ",\"start\":"@ + decimal(part.start);
    lemma_add_number(m2, false, t2, "length"@, part.length);
    let t3 = t2 + ",\"length\":"@ + decimal(part.length);
    lemma_add_text(m3, false, t3, "fs_kind"@, entry.fs_label);
    let t4 = t3 + ",\"fs_kind\":\""@ + entry.fs_label;
    lemma_add_number(m4, true, t4, "type_byte"@, part.type_byte);
    let t5 = t4 + "\",\"type_byte\":"@ + decimal(part.type_byte);
    lemma_add_text(m5, false, t5, "type_guid"@, guid);
    let t6 = t5 + ",\"type_guid\":\""@ + guid;
    lemma_close_quote(m6, t6);
    lemma_add_optional(m6, t6 + "\""@, "fs_kind_error"@, entry.fs_error);
    let m7 = with_text(m6, "fs_kind_error"@, entry.fs_error);
    let t7 = t6 + "\""@ + error_field_text("fs_kind_error"@, entry.fs_error);
    lemma_add_optional(m7, t7, "label"@, part.label);
    let m8 = with_text(m7, "label"@, part.label);
    lemma_close_record(m8, t7 + error_field_text("label"@, part.label));
    assert(seq![
        ("index"@, Json::Number(entry.index)),
        ("start"@, Json::Number(part.start)),
        ("length"@, Json::Number(part.length)),
        ("fs_kind"@, Json::Text(entry.fs_label)),
        ("type_byte"@, Json::Number(part.type_byte)),
        ("type_guid"@, Json::Text(guid)),
    ] =~= m6);
    lemma_literal_label();
    lemma_punctuation();
    if let Some(label) = part.label {
        assert(",\"label\":\""@ + escaped(label) + "\""@ =~= error_field_text(
            "label"@,
            Some(label),
        ));
    }
}

proof fn lemma_entries(entries: Seq<EntryView>)
    requires
        forall|i: int|
            0 <= i < entries.len() ==> (#[trigger] entries[i]).partition.type_guid.len() == 16
                && plain(entries[i].fs_label),
    ensures
        written_items(entries_json(entries)) == entries_text(entries),
    decreases entries.len(),
{
    let items = entries_json(entries);
    if entries.len() > 0 {
        let init = entries.drop_last();
        let last = entries.last();
        assert(last == entries[entries.len() - 1]);
        lemma_entry(last);
        if entries.len() > 1 {
            assert forall|i: int| 0 <= i < init.len() implies (
            #[trigger] init[i]).partition.type_guid.len() == 16 && plain(
                init[i].fs_label,
            ) by {
                assert(init[i] == entries[i]);
            }
            lemma_entries(init);
            lemma_pushed_item(entries_json(init), entry_json(last));
            assert(items =~= entries_json(init).push(entry_json(last)));
            lemma_punctuation();
        }
    }
}

proof fn lemma_add_list(
    members: Seq<(Seq<char>, Json)>,
    text: Seq<char>,
    items: Seq<Json>,
)
    requires
        opened(members, false, text),
    ensures
        opened(
            members.push(("partitions"@, Json::List(items))),
            false,
            text + ",\"partitions\":["@ + written_items(items) + "]"@,
        ),
{
    let v = Json::List(items);
    lemma_keys_are_plain();
    lemma_plain_quoted("partitions"@);
    lemma_pushed_member(members, "partitions"@, v);
    lemma_literal_partitions();
    lemma_punctuation();
    assert(seq!['{'] + written_members(members.push(("partitions"@, v))) =~= (seq!['{']
        + written_members(members)) + (seq![',', '"'] + "partitions"@ + seq!['"', ':', '['])
        + written_items(items) + seq![']']);
}

/// The document of an image with a partition table is one JSON record, and
/// whoever parses it gets back the path, the container, the size, the table
/// and every partition, with every character of its label.
pub proof fn law_table_document_reads_back(
    image: ImageView,
    table: int,
    entries: Seq<EntryView>,
)
    requires
        forall|i: int|
            0 <= i < entries.len() ==> (#[trigger] entries[i]).partition.type_guid.len() == 16
                && is_fs_label(entries[i].fs_label),
    ensures
        read_document(table_document_text(image, table, entries)) == Some(
            table_json(image, table, entries),
        ),
{
    assert forall|i: int| 0 <= i < entries.len() implies (
    #[trigger] entries[i]).partition.type_guid.len() == 16 && plain(entries[i].fs_label) by {
        lemma_fs_labels_are_plain(entries[i].fs_label);
    }
    lemma_table_document(image, table, entries);
}

proof fn lemma_table_document(image: ImageView, table: int, entries: Seq<EntryView>)
    requires
        forall|i: int|
            0 <= i < entries.len() ==> (#[trigger] entries[i]).partition.type_guid.len() == 16
                && plain(entries[i].fs_label),
    ensures
        read_document(table_document_text(image, table, entries)) == Some(
            table_json(image, table, entries),
        ),
{
    lemma_entries(entries);
    lemma_written_table(image, table, entries);
}

proof fn lemma_written_table(image: ImageView, table: int, entries: Seq<EntryView>)
    requires
        written_items(entries_json(entries)) == entries_text(entries),
    ensures
        read_document(table_document_text(image, table, entries)) == Some(
            table_json(image, table, entries),
        ),
{
    let members = image_members(image, table_label(table));
    lemma_table_labels_are_plain(table);
    lemma_opening(image, table_label(table));
    let open = "{\"path\":\""@ + escaped(image.path) + "\",\"container\":\""@
        + image.container.name() + "\",\"container_size_bytes\":"@ + decimal(image.size_bytes)
        + ",\"table\":\""@ + table_label(table);
    lemma_close_quote(members, open);
    lemma_add_list(members, open + "\""@, entries_json(entries));
    let text = open + "\""@ + ",\"partitions\":["@ + entries_text(entries) + "]"@;
    lemma_close_record(
        members.push(("partitions"@, Json::List(entries_json(entries)))),
        text,
    );
    assert(text =~= open + "\""@ + (",\"partitions\":["@ + entries_text(entries) + "]"@));
    law_written_value_reads_back(table_json(image, table, entries));
}

proof fn lemma_device_body(
    members: Seq<(Seq<char>, Json)>,
    t1: Seq<char>,
    fs_label: Seq<char>,
    fs_error: Option<Seq<char>>,
)
    requires
        opened(members, false, t1),
        plain(fs_label),
    ensures
        written(
            Json::Record(
                with_text(
                    members.push(("device_fs_kind"@, Json::Text(fs_label))),
                    "device_fs_error"@,
                    fs_error,
                ).push(("partitions"@, Json::List(Seq::empty()))),
            ),
        ) == t1 + (",\"device_fs_kind\":\""@ + fs_label + "\""@ + error_field_text(
            "device_fs_error"@,
            fs_error,
        ) + ",\"partitions\":[]"@) + "}"@,
{
    lemma_keys_are_plain();
    lemma_plain_text(fs_label);
    lemma_add_text(members, false, t1, "device_fs_kind"@, fs_label);
    lemma_literal_device_fs_kind();
    let m2 = members.push(("device_fs_kind"@, Json::Text(fs_label)));
    let t2 = t1 + ",\"device_fs_kind\":\""@ + fs_label;
    lemma_close_quote(m2, t2);
    let error = error_field_text("device_fs_error"@, fs_error);
    lemma_add_optional(m2, t2 + "\""@, "device_fs_error"@, fs_error);
    let m3 = with_text(m2, "device_fs_error"@, fs_error);
    let t3 = t2 + "\""@ + error;
    lemma_add_list(m3, t3, Seq::empty());
    let t4 = t3 + ",\"partitions\":["@ + written_items(Seq::empty()) + "]"@;
    lemma_empty_list(t3);
    lemma_close_record(m3.push(("partitions"@, Json::List(Seq::empty()))), t4);
    assert(t3 + ",\"partitions\":[]"@ =~= t1 + (",\"device_fs_kind\":\""@ + fs_label + "\""@ + error
        + ",\"partitions\":[]"@));
}

proof fn lemma_empty_list(text: Seq<char>)
    ensures
        text + ",\"partitions\":["@ + written_items(Seq::empty()) + "]"@ == text
            + ",\"partitions\":[]"@,
{
    lemma_literal_partitions();
    lemma_literal_partitions_empty();
    lemma_punctuation();
    assert(text + ",\"partitions\":["@ + written_items(Seq::empty()) + "]"@ =~= text
        + ",\"partitions\":[]"@);
}

/// The document of an image without a partition table is one JSON record, and
/// whoever parses it gets back the path, the container, the size and what was
/// found on the whole device.
pub proof fn law_device_document_reads_back(
    image: ImageView,
    fs_label: Seq<char>,
    fs_error: Option<Seq<char>>,
)
    requires
        is_fs_label(fs_label),
    ensures
        read_document(device_document_text(image, fs_label, fs_error)) == Some(
            device_json(image, fs_label, fs_error),
        ),
{
    lemma_fs_labels_are_plain(fs_label);
    lemma_device_document(image, fs_label, fs_error);
}

proof fn lemma_device_document(
    image: ImageView,
    fs_label: Seq<char>,
    fs_error: Option<Seq<char>>,
)
    requires
        plain(fs_label),
    ensures
        read_document(device_document_text(image, fs_label, fs_error)) == Some(
            device_json(image, fs_label, fs_error),
        ),
{
    let members = image_members(image, "none"@);
    lemma_table_labels_are_plain(0);
    lemma_opening(image, "none"@);
    let open = "{\"path\":\""@ + escaped(image.path) + "\",\"container\":\""@
        + image.container.name() + "\",\"container_size_bytes\":"@ + decimal(image.size_bytes)
        + ",\"table\":\""@ + "none"@;
    lemma_close_quote(members, open);
    lemma_device_body(members, open + "\""@, fs_label, fs_error);
    law_written_value_reads_back(device_json(image, fs_label, fs_error));
}

/// Whether a text needs no escaping: it holds no quote, no backslash and no
/// control character.
pub open spec fn ordinary(s: Seq<char>) -> bool {
    forall|i: int|
        0 <= i < s.len() ==> (#[trigger] s[i]) as u32 >= 0x20 && s[i] != '"' && s[i] != '\\'
}

/// Whether a value is the record of a partition: its place, start and length,
/// the label of its filesystem, its type byte, its type GUID spelled out, why
/// the sniff failed where there is a reason, and the text of its label where
/// there is one, in this order and nothing else.
pub open spec fn describes(
    item: Json,
    index: nat,
    partition: Partition,
    fs_label: Seq<char>,
    fs_error: Option<Seq<char>>,
) -> bool {
    let label = label_bytes(partition);
    let errors: int = if fs_error is Some {
        1
    } else {
        0
    };
    let labels: int = if label.len() > 0 && valid_utf8(label) {
        1
    } else {
        0
    };
    &&& item is Record
    &&& item->Record_0.len() == 6 + errors + labels
    &&& item->Record_0[0] == ("index"@, Json::Number(index))
    &&& item->Record_0[1] == ("start"@, Json::Number(partition.start as nat))
    &&& item->Record_0[2] == ("length"@, Json::Number(partition.length as nat))
    &&& item->Record_0[3] == ("fs_kind"@, Json::Text(fs_label))
    &&& item->Record_0[4] == ("type_byte"@, Json::Number(partition.type_byte as nat))
    &&& item->Record_0[5].0 == "type_guid"@
    &&& item->Record_0[5].1 is Text
    &&& spells(item->Record_0[5].1->Text_0, partition.type_guid@)
    &&& fs_error matches Some(error) ==> item->Record_0[6] == ("fs_kind_error"@, Json::Text(error))
    &&& labels == 1 ==> item->Record_0[6 + errors] == ("label"@, Json::Text(decode_utf8(label)))
}

/// The bytes of a partition's label, none where it has no label.
pub open spec fn label_bytes(partition: Partition) -> Seq<u8> {
    match partition.label {
        Some(bytes) => bytes@,
        None => Seq::empty(),
    }
}

/// Whether a value is a document about an image: its path, its container, the
/// size of the disk inside and the label of the table come first, in this
/// order, and the list of partitions comes last.
pub open spec fn tells_of(
    document: Json,
    path: Seq<char>,
    container: Container,
    size_bytes: nat,
    table: Seq<char>,
) -> bool {
    &&& document is Record
    &&& document->Record_0.len() >= 5
    &&& document->Record_0[0] == ("path"@, Json::Text(path))
    &&& document->Record_0[1] == ("container"@, Json::Text(container.name()))
    &&& document->Record_0[2] == ("container_size_bytes"@, Json::Number(size_bytes))
    &&& document->Record_0[3] == ("table"@, Json::Text(table))
    &&& document->Record_0.last().0 == "partitions"@
    &&& document->Record_0.last().1 is List
}

/// The partitions that a document lists.
pub open spec fn partitions_of(document: Json) -> Seq<Json> {
    document->Record_0.last().1->List_0
}

/// Whether a value is the document of a disk without a table: between the table
/// and the empty list of partitions stands what was found on the whole device,
/// and why the sniff failed where there is a reason.
pub open spec fn tells_of_device(
    document: Json,
    fs_label: Seq<char>,
    fs_error: Option<Seq<char>>,
) -> bool {
    &&& document is Record
    &&& document->Record_0.len() == if fs_error is Some {
        7int
    } else {
        6int
    }
    &&& document->Record_0[4] == ("device_fs_kind"@, Json::Text(fs_label))
    &&& fs_error matches Some(error) ==> document->Record_0[5] == (
        "device_fs_error"@,
        Json::Text(error),
    )
}

pub(crate) proof fn lemma_described(
    index: nat,
    partition: Partition,
    fs_label: Seq<char>,
    fs_error: Option<Seq<char>>,
)
    ensures
        describes(
            entry_json(EntryView { index, partition: partition@, fs_label, fs_error }),
            index,
            partition,
            fs_label,
            fs_error,
        ),
{
    law_guid_is_spelled_out(partition.type_guid@);
    let label = label_bytes(partition);
    law_label_is_shown(partition.label, decode_utf8(label));
    if label.len() > 0 && valid_utf8(label) {
        decode_utf8_encode_utf8(label);
        if decode_utf8(label).len() == 0 {
            assert(encode_utf8(decode_utf8(label)).len() == 0);
        }
    } else {
        if let Some(text) = partition@.label {
            law_label_is_shown(partition.label, text);
            encode_utf8_valid_utf8(text);
        }
    }
}

/// Whoever parses the object of a partition finds what it was written from,
/// whatever the numbers, the bytes of the GUID, the reason and the label are.
pub proof fn law_entry_reads_back(entry: Entry, text: Seq<char>)
    requires
        text == entry_text(entry@),
        ordinary(entry.fs_label@),
    ensures
        read_document(text) is Some,
        describes(
            read_document(text)->0,
            entry.index as nat,
            entry.partition,
            entry.fs_label@,
            match entry.fs_error {
                Some(error) => Some(error@),
                None => None,
            },
        ),
{
    let error = match entry.fs_error {
        Some(error) => Some(error@),
        None => None,
    };
    assert(plain(entry.fs_label@));
    lemma_entry(entry@);
    law_written_value_reads_back(entry_json(entry@));
    lemma_described(entry.index as nat, entry.partition, entry.fs_label@, error);
}

/// Whoever parses the document of an image with a table finds the image, the
/// table, and every partition at its place in the list.
pub proof fn law_table_document_tells_all(
    image: Image,
    table: i32,
    entries: Seq<Entry>,
    text: Seq<char>,
)
    requires
        text == table_document_text(image@, table as int, views(entries)),
        forall|i: int| 0 <= i < entries.len() ==> ordinary((#[trigger] entries[i]).fs_label@),
    ensures
        read_document(text) is Some,
        tells_of(
            read_document(text)->0,
            image.path@,
            image.container,
            image.size_bytes as nat,
            if table == 1 {
                "gpt"@
            } else if table == 2 {
                "mbr"@
            } else {
                "none"@
            },
        ),
        read_document(text)->0->Record_0.len() == 5,
        partitions_of(read_document(text)->0).len() == entries.len(),
        forall|i: int|
            0 <= i < entries.len() ==> describes(
                #[trigger] partitions_of(read_document(text)->0)[i],
                entries[i].index as nat,
                entries[i].partition,
                entries[i].fs_label@,
                match entries[i].fs_error {
                    Some(error) => Some(error@),
                    None => None,
                },
            ),
{
    let shown = views(entries);
    assert forall|i: int| 0 <= i < shown.len() implies (
    #[trigger] shown[i]).partition.type_guid.len() == 16 && plain(shown[i].fs_label) by {
        assert(shown[i] == entries[i]@);
        assert(ordinary(entries[i].fs_label@));
    }
    lemma_table_document(image@, table as int, shown);
    law_other_tables_are_none(table as int);
    let items = entries_json(shown);
    assert(partitions_of(read_document(text)->0) == items);
    assert forall|i: int| 0 <= i < entries.len() implies describes(
        #[trigger] items[i],
        entries[i].index as nat,
        entries[i].partition,
        entries[i].fs_label@,
        match entries[i].fs_error {
            Some(error) => Some(error@),
            None => None,
        },
    ) by {
        let error = match entries[i].fs_error {
            Some(error) => Some(error@),
            None => None,
        };
        lemma_described(
            entries[i].index as nat,
            entries[i].partition,
            entries[i].fs_label@,
            error,
        );
        assert(items[i] == entry_json(entries[i]@));
    }
}

/// Whoever parses the document of an image without a table finds the image and
/// what was found on the whole device.
pub proof fn law_device_document_tells_all(
    image: Image,
    fs_label: Seq<char>,
    fs_error: Option<Seq<char>>,
    text: Seq<char>,
)
    requires
        text == device_document_text(image@, fs_label, fs_error),
        ordinary(fs_label),
    ensures
        read_document(text) is Some,
        tells_of(
            read_document(text)->0,
            image.path@,
            image.container,
            image.size_bytes as nat,
            "none"@,
        ),
        partitions_of(read_document(text)->0).len() == 0,
        tells_of_device(read_document(text)->0, fs_label, fs_error),
{
    assert(plain(fs_label));
    lemma_device_document(image@, fs_label, fs_error);
}

} // verus!
