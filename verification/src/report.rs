//! The documents: what was found on an image, written as JSON.

use vstd::prelude::*;
use vstd::string::*;
use vstd::utf8::{
    decode_utf8, decode_utf8_encode_utf8, encode_utf8, encode_utf8_decode_utf8,
    encode_utf8_valid_utf8, valid_utf8,
};

use crate::container::Container;
use crate::guid::{fmt_guid, guid_text};
use crate::json::{
    envelope_text, error_field_text, escaped, json_envelope, json_escape, sniff_error_field,
};
use crate::kinds::{table_kind_label, table_label};
use crate::text::{decimal, push_decimal};

verus! {

/// An image that has been opened.
pub struct Image {
    pub path: String,
    pub container: Container,
    /// The size of the disk inside the container.
    pub size_bytes: u64,
}

/// One partition, as its table describes it.
pub struct Partition {
    pub start: u64,
    pub length: u64,
    /// The MBR type byte, 0 in a GPT.
    pub type_byte: u8,
    /// The GPT type GUID as stored, zeros in an MBR.
    pub type_guid: [u8; 16],
    /// The bytes of the label, where the partition has one.
    pub label: Option<Vec<u8>>,
}

/// One partition with what a sniff found on it.
pub struct Entry {
    pub index: usize,
    pub partition: Partition,
    pub fs_label: &'static str,
    /// Why the sniff failed, where it did.
    pub fs_error: Option<String>,
}

/// An [`Image`] as the document shows it.
pub struct ImageView {
    pub path: Seq<char>,
    pub container: Container,
    pub size_bytes: nat,
}

/// A [`Partition`] as the document shows it.
pub struct PartitionView {
    pub start: nat,
    pub length: nat,
    pub type_byte: nat,
    pub type_guid: Seq<u8>,
    pub label: Option<Seq<char>>,
}

/// An [`Entry`] as the document shows it.
pub struct EntryView {
    pub index: nat,
    pub partition: PartitionView,
    pub fs_label: Seq<char>,
    pub fs_error: Option<Seq<char>>,
}

/// The text of an optional string.
pub open spec fn text_of(s: Option<String>) -> Option<Seq<char>> {
    match s {
        Some(s) => Some(s@),
        None => None,
    }
}

/// The label that is shown for these label bytes: none where there are none,
/// where there is no byte, and where they are not UTF-8.
pub open spec fn shown_label(bytes: Option<Vec<u8>>) -> Option<Seq<char>> {
    match bytes {
        Some(bytes) => if bytes@.len() > 0 && valid_utf8(bytes@) {
            Some(decode_utf8(bytes@))
        } else {
            None
        },
        None => None,
    }
}

impl View for Image {
    type V = ImageView;

    open spec fn view(&self) -> ImageView {
        ImageView {
            path: self.path@,
            container: self.container,
            size_bytes: self.size_bytes as nat,
        }
    }
}

impl View for Partition {
    type V = PartitionView;

    open spec fn view(&self) -> PartitionView {
        PartitionView {
            start: self.start as nat,
            length: self.length as nat,
            type_byte: self.type_byte as nat,
            type_guid: self.type_guid@,
            label: shown_label(self.label),
        }
    }
}

impl View for Entry {
    type V = EntryView;

    open spec fn view(&self) -> EntryView {
        EntryView {
            index: self.index as nat,
            partition: self.partition@,
            fs_label: self.fs_label@,
            fs_error: text_of(self.fs_error),
        }
    }
}

/// The entries as the document shows them.
pub open spec fn views(entries: Seq<Entry>) -> Seq<EntryView> {
    entries.map_values(|entry: Entry| entry@)
}

/// The object that describes one partition.
pub open spec fn entry_text(entry: EntryView) -> Seq<char> {
    "{\"index\":"@ + decimal(entry.index) + ",\"start\":"@ + decimal(entry.partition.start)
        + ",\"length\":"@ + decimal(entry.partition.length) + ",\"fs_kind\":\""@ + entry.fs_label
        + "\",\"type_byte\":"@ + decimal(entry.partition.type_byte) + ",\"type_guid\":\""@
        + guid_text(entry.partition.type_guid) + "\""@ + error_field_text(
        "fs_kind_error"@,
        entry.fs_error,
    ) + (match entry.partition.label {
        Some(label) => ",\"label\":\""@ + escaped(label) + "\""@,
        None => Seq::empty(),
    }) + "}"@
}

/// The objects of these entries, with commas between them.
pub open spec fn entries_text(entries: Seq<EntryView>) -> Seq<char>
    decreases entries.len(),
{
    if entries.len() == 0 {
        Seq::empty()
    } else if entries.len() == 1 {
        entry_text(entries[0])
    } else {
        entries_text(entries.drop_last()) + ","@ + entry_text(entries.last())
    }
}

/// The document of an image with a partition table.
pub open spec fn table_document_text(image: ImageView, table: int, entries: Seq<EntryView>) -> Seq<
    char,
> {
    envelope_text(
        image.path,
        image.container,
        image.size_bytes,
        table_label(table),
        ",\"partitions\":["@ + entries_text(entries) + "]"@,
    )
}

/// The document of an image without a partition table.
pub open spec fn device_document_text(
    image: ImageView,
    fs_label: Seq<char>,
    fs_error: Option<Seq<char>>,
) -> Seq<char> {
    envelope_text(
        image.path,
        image.container,
        image.size_bytes,
        "none"@,
        ",\"device_fs_kind\":\""@ + fs_label + "\""@ + error_field_text(
            "device_fs_error"@,
            fs_error,
        ) + ",\"partitions\":[]"@,
    )
}

/// `std::str::from_utf8` gives the text of bytes that are valid UTF-8, and an
/// error, shown here as `None`, for all others.
#[verifier::external_body]
fn utf8_text(bytes: &[u8]) -> (text: Option<&str>)
    ensures
        text is Some <==> valid_utf8(bytes@),
        text matches Some(s) ==> s@ == decode_utf8(bytes@),
{
    std::str::from_utf8(bytes).ok()
}

/// The label of a partition as text.
pub fn label_text(label: &Option<Vec<u8>>) -> (text: Option<&str>)
    ensures
        text is Some <==> shown_label(*label) is Some,
        text matches Some(s) ==> Some(s@) == shown_label(*label),
{
    match label {
        Some(bytes) => if bytes.len() > 0 {
            utf8_text(bytes.as_slice())
        } else {
            None
        },
        None => None,
    }
}

fn text_ref(s: &Option<String>) -> (r: Option<&str>)
    ensures
        r is Some <==> s is Some,
        r matches Some(t) ==> Some(t@) == text_of(*s),
{
    match s {
        Some(s) => Some(s.as_str()),
        None => None,
    }
}

/// Writes the object that describes one partition.
pub fn partition_entry(entry: &Entry) -> (out: String)
    ensures
        out@ == entry_text(entry@),
{
    let mut out: String = String::new();
    out.append("{\"index\":");
    push_decimal(&mut out, entry.index as u64);
    out.append(",\"start\":");
    push_decimal(&mut out, entry.partition.start);
    out.append(",\"length\":");
    push_decimal(&mut out, entry.partition.length);
    out.append(",\"fs_kind\":\"");
    out.append(entry.fs_label);
    out.append("\",\"type_byte\":");
    push_decimal(&mut out, entry.partition.type_byte as u64);
    out.append(",\"type_guid\":\"");
    out.append(fmt_guid(&entry.partition.type_guid).as_str());
    out.append("\"");
    out.append(sniff_error_field("fs_kind_error", text_ref(&entry.fs_error)).as_str());
    if let Some(label) = label_text(&entry.partition.label) {
        out.append(",\"label\":\"");
        out.append(json_escape(label).as_str());
        out.append("\"");
    }
    out.append("}");
    assert(out@ =~= entry_text(entry@));
    out
}

fn joined_entries(entries: &Vec<Entry>) -> (out: String)
    ensures
        out@ == entries_text(views(entries@)),
{
    let mut out: String = String::new();
    let mut i: usize = 0;
    while i < entries.len()
        invariant
            i <= entries@.len(),
            out@ == entries_text(views(entries@.take(i as int))),
        decreases entries@.len() - i,
    {
        let ghost before = out@;
        let ghost shown = views(entries@.take(i + 1));
        assert(shown.drop_last() =~= views(entries@.take(i as int)));
        if i > 0 {
            out.append(",");
        } else {
            assert(before =~= Seq::empty());
        }
        out.append(partition_entry(&entries[i]).as_str());
        assert(out@ =~= entries_text(shown));
        i = i + 1;
    }
    assert(entries@.take(entries@.len() as int) =~= entries@);
    out
}

/// Writes the document of an image with a partition table. `table` is the code
/// of the table.
pub fn table_document(image: &Image, table: i32, entries: &Vec<Entry>) -> (out: String)
    ensures
        out@ == table_document_text(image@, table as int, views(entries@)),
{
    let mut body: String = String::new();
    body.append(",\"partitions\":[");
    body.append(joined_entries(entries).as_str());
    body.append("]");
    json_envelope(
        image.path.as_str(),
        image.container,
        image.size_bytes,
        table_kind_label(table),
        body.as_str(),
    )
}

/// Writes the document of an image without a partition table, with what a
/// sniff found on the whole device.
pub fn device_document(image: &Image, fs_label: &str, fs_error: &Option<String>) -> (out: String)
    ensures
        out@ == device_document_text(image@, fs_label@, text_of(*fs_error)),
{
    let mut body: String = String::new();
    body.append(",\"device_fs_kind\":\"");
    body.append(fs_label);
    body.append("\"");
    body.append(sniff_error_field("device_fs_error", text_ref(fs_error)).as_str());
    body.append(",\"partitions\":[]");
    json_envelope(
        image.path.as_str(),
        image.container,
        image.size_bytes,
        "none",
        body.as_str(),
    )
}

/// Whatever text a label is the UTF-8 encoding of, of any length, that text is
/// shown. A label without bytes, and one that is not UTF-8, is not.
pub proof fn law_label_is_shown(label: Option<Vec<u8>>, text: Seq<char>)
    ensures
        label matches Some(bytes) ==> {
            &&& text.len() > 0 && bytes@ == encode_utf8(text) ==> shown_label(label) == Some(text)
            &&& shown_label(label) == Some(text) ==> text.len() > 0 && bytes@ == encode_utf8(text)
            &&& shown_label(label) is None ==> bytes@.len() == 0 || !valid_utf8(bytes@)
        },
        label is None ==> shown_label(label) is None,
{
    if let Some(bytes) = label {
        if text.len() > 0 && bytes@ == encode_utf8(text) {
            encode_utf8_valid_utf8(text);
            encode_utf8_decode_utf8(text);
            assert(bytes@.len() > 0) by {
                if bytes@.len() == 0 {
                    assert(decode_utf8(bytes@).len() == 0);
                }
            }
        }
        if valid_utf8(bytes@) && bytes@.len() > 0 {
            decode_utf8_encode_utf8(bytes@);
            if decode_utf8(bytes@).len() == 0 {
                assert(encode_utf8(decode_utf8(bytes@)).len() == 0);
            }
        }
    }
}

} // verus!
