//! Container formats: their names, and how an image tells which one it is.

use vstd::prelude::*;

use crate::magic;
use crate::read::{
    fills, handed, handed_over, interruptions, law_failure_is_returned, law_pieces_fill_the_buffer,
    orderly, read_up_to, serves,
};
use crate::source::{
    law_log_tells_the_reads, reads, IoStep, ReadCall, ReadOutcome, Source,
};
use crate::text::{begins_with, same_bytes, same_text};

verus! {

/// Bytes in a VHD footer, and the distance back from the end of a fixed image
/// at which it starts. The format says so: it is no sector size.
pub const VHD_FOOTER_SIZE: u64 = 512;

/// How much of the start of an image is looked at.
pub const HEAD_SIZE: usize = 16;

/// How much of a footer is looked at: the signature that it starts with.
pub const FOOTER_HEAD_SIZE: usize = 8;

/// The format that a disk image is wrapped in.
#[derive(Debug, Clone, Copy, PartialEq, Eq, Structural)]
pub enum Container {
    Raw,
    Qcow2,
    Vhd,
    Vhdx,
    Vmdk,
}

impl Container {
    /// The name of the format in the JSON document and on the command line.
    pub open spec fn name(self) -> Seq<char> {
        match self {
            Container::Raw => "raw"@,
            Container::Qcow2 => "qcow2"@,
            Container::Vhd => "vhd"@,
            Container::Vhdx => "vhdx"@,
            Container::Vmdk => "vmdk"@,
        }
    }

    /// The format of that name.
    pub open spec fn named(name: Seq<char>) -> Option<Container> {
        if name == "raw"@ {
            Some(Container::Raw)
        } else if name == "qcow2"@ {
            Some(Container::Qcow2)
        } else if name == "vhd"@ {
            Some(Container::Vhd)
        } else if name == "vhdx"@ {
            Some(Container::Vhdx)
        } else if name == "vmdk"@ {
            Some(Container::Vmdk)
        } else {
            None
        }
    }

    /// The name of the format in the JSON document.
    pub fn label(self) -> (label: &'static str)
        ensures
            label@ == self.name(),
    {
        match self {
            Container::Raw => "raw",
            Container::Qcow2 => "qcow2",
            Container::Vhd => "vhd",
            Container::Vhdx => "vhdx",
            Container::Vmdk => "vmdk",
        }
    }

    /// The format of that name, which must match in every letter.
    pub fn parse(s: &str) -> (kind: Option<Self>)
        ensures
            kind == Container::named(s@),
    {
        if same_text(s, "raw") {
            Some(Container::Raw)
        } else if same_text(s, "qcow2") {
            Some(Container::Qcow2)
        } else if same_text(s, "vhd") {
            Some(Container::Vhd)
        } else if same_text(s, "vhdx") {
            Some(Container::Vhdx)
        } else if same_text(s, "vmdk") {
            Some(Container::Vmdk)
        } else {
            None
        }
    }
}

/// The container whose signature these bytes open with.
pub open spec fn signature_of(bytes: Seq<u8>) -> Option<Container> {
    if begins_with(bytes, magic::QCOW2@) {
        Some(Container::Qcow2)
    } else if begins_with(bytes, magic::VHDX@) {
        Some(Container::Vhdx)
    } else if begins_with(bytes, magic::VMDK@) {
        Some(Container::Vmdk)
    } else if begins_with(bytes, magic::VHD@) {
        Some(Container::Vhd)
    } else {
        None
    }
}

/// The first `n` bytes of a buffer, or all of it where it is shorter.
pub open spec fn filled_part(buffer: Seq<u8>, n: usize) -> Seq<u8> {
    if n < buffer.len() {
        buffer.take(n as int)
    } else {
        buffer
    }
}

/// Whether an image of `image.len()` bytes ends in a VHD footer.
pub open spec fn has_vhd_footer(image: Seq<u8>) -> bool {
    image.len() >= VHD_FOOTER_SIZE && begins_with(
        image.skip(image.len() - VHD_FOOTER_SIZE),
        magic::VHD@,
    )
}

/// The container that an image of these bytes is in: the one whose signature
/// it opens with, else a fixed VHD where it ends in a footer, else none.
pub open spec fn container_of(image: Seq<u8>) -> Container {
    match signature_of(image) {
        Some(kind) => kind,
        None => if has_vhd_footer(image) {
            Container::Vhd
        } else {
            Container::Raw
        },
    }
}

/// Where the footer of a fixed VHD of that length starts.
pub open spec fn footer_offset(length: u64) -> Option<u64> {
    if length >= VHD_FOOTER_SIZE {
        Some((length - VHD_FOOTER_SIZE) as u64)
    } else {
        None
    }
}

/// What reading into a buffer came to: what the buffer held then, and the
/// result.
pub struct Window {
    pub buffer: Seq<u8>,
    pub result: Result<usize, std::io::Error>,
}

/// What the start of an image says: a container, or nothing.
pub open spec fn head_says(head: Window) -> Result<Option<Container>, std::io::Error> {
    match head.result {
        Ok(n) => Ok(signature_of(filled_part(head.buffer, n))),
        Err(e) => Err(e),
    }
}

/// What the length of an image says: where its footer would be, or that there
/// is no room for one.
pub open spec fn length_says(length: Result<u64, std::io::Error>) -> Result<
    Option<u64>,
    std::io::Error,
> {
    match length {
        Ok(length) => Ok(footer_offset(length)),
        Err(e) => Err(e),
    }
}

/// What the bytes at the start of the footer say, where the signatures at
/// offset 0 said nothing: a fixed VHD, or no container.
pub open spec fn footer_says(footer: Window) -> Result<Container, std::io::Error> {
    match footer.result {
        Ok(n) => if n == footer.buffer.len() && footer.buffer == magic::VHD@ {
            Ok(Container::Vhd)
        } else {
            Ok(Container::Raw)
        },
        Err(e) => Err(e),
    }
}

/// Everything that a search for a container came to: the reads at the start of
/// the file, its length, the move to its footer, and the reads there.
pub struct Search {
    pub head_reads: Seq<ReadCall>,
    pub head: Window,
    pub length: Result<u64, std::io::Error>,
    pub moved: Result<u64, std::io::Error>,
    pub footer_reads: Seq<ReadCall>,
    pub footer: Window,
}

impl Search {
    /// Whether the length of the file is asked for: the head was read and holds
    /// no signature.
    pub open spec fn asks_for_length(self) -> bool {
        head_says(self.head) == Ok::<Option<Container>, std::io::Error>(None)
    }

    /// Where the footer is looked for: the length was asked for and leaves room
    /// for one.
    pub open spec fn looks_at(self) -> Option<u64> {
        if self.asks_for_length() {
            match length_says(self.length) {
                Ok(offset) => offset,
                Err(_) => None,
            }
        } else {
            None
        }
    }

    /// Whether the footer is read: moving there succeeded.
    pub open spec fn reads_footer(self) -> bool {
        self.looks_at() is Some && self.moved is Ok
    }

    /// What is found. The first step that settles it counts, and the first that
    /// failed is the failure.
    pub open spec fn found(self) -> Result<Container, std::io::Error> {
        match head_says(self.head) {
            Err(e) => Err(e),
            Ok(Some(kind)) => Ok(kind),
            Ok(None) => match length_says(self.length) {
                Err(e) => Err(e),
                Ok(None) => Ok(Container::Raw),
                Ok(Some(_)) => match self.moved {
                    Err(e) => Err(e),
                    Ok(_) => footer_says(self.footer),
                },
            },
        }
    }

    /// What is done to the source, in order.
    pub open spec fn steps(self) -> Seq<IoStep> {
        match self.looks_at() {
            None => reads(self.head_reads),
            Some(offset) => {
                let up_to_move = reads(self.head_reads).push(
                    IoStep::Seek { offset, moved: self.moved },
                );
                if self.moved is Ok {
                    up_to_move + reads(self.footer_reads)
                } else {
                    up_to_move
                }
            },
        }
    }

    /// Whether what was read is what the reads handed over, from blank buffers
    /// on: at most [`HEAD_SIZE`] bytes at the start, and at most
    /// [`FOOTER_HEAD_SIZE`] at the footer.
    pub open spec fn is_read(self) -> bool {
        &&& fills(
            self.head_reads,
            blank(HEAD_SIZE as nat),
            self.head.buffer,
            HEAD_SIZE,
            self.head.result,
        )
        &&& self.reads_footer() ==> fills(
            self.footer_reads,
            blank(FOOTER_HEAD_SIZE as nat),
            self.footer.buffer,
            FOOTER_HEAD_SIZE,
            self.footer.result,
        )
    }

    /// Whether the file held `image` all along and nothing failed: the reads at
    /// the start were given its bytes from the start, its length is that of the
    /// image, the move succeeded, and the reads behind it were given the bytes
    /// from there.
    pub open spec fn is_of(self, image: Seq<u8>) -> bool {
        &&& image.len() <= u64::MAX
        &&& serves(self.head_reads, image)
        &&& interruptions(self.head_reads) <= u64::MAX
        &&& self.asks_for_length() ==> self.length == Ok::<u64, std::io::Error>(image.len() as u64)
        &&& self.looks_at() matches Some(offset) ==> {
            &&& self.moved is Ok
            &&& serves(self.footer_reads, image.skip(offset as int))
            &&& interruptions(self.footer_reads) <= u64::MAX
        }
    }
}

/// A buffer of `size` bytes that nothing was read into yet.
pub open spec fn blank(size: nat) -> Seq<u8> {
    Seq::new(size, |i: int| 0u8)
}

/// Whether a search takes a source from one log to another, reads what the log
/// shows, and comes to `found`.
pub open spec fn searched(
    search: Search,
    before: Seq<IoStep>,
    after: Seq<IoStep>,
    found: Result<Container, std::io::Error>,
) -> bool {
    &&& search.is_read()
    &&& after == before + search.steps()
    &&& found == search.found()
}

fn opens_with(bytes: &[u8], n: usize, sig: &[u8]) -> (opens: bool)
    ensures
        opens == begins_with(filled_part(bytes@, n), sig@),
{
    let mut i: usize = 0;
    if sig.len() > n || sig.len() > bytes.len() {
        return false;
    }
    let ghost part = filled_part(bytes@, n);
    while i < sig.len()
        invariant
            i <= sig@.len(),
            sig@.len() <= n,
            sig@.len() <= bytes@.len(),
            part == filled_part(bytes@, n),
            forall|j: int| 0 <= j < i ==> part[j] == sig@[j],
        decreases sig@.len() - i,
    {
        if bytes[i] != sig[i] {
            assert(part.take(sig@.len() as int)[i as int] != sig@[i as int]);
            return false;
        }
        i = i + 1;
    }
    assert(part.take(sig@.len() as int) =~= sig@);
    true
}

/// The container whose signature stands in the bytes that were read from the
/// start of an image: as many of `head` as `read` says, where it is no failure.
pub fn detect_from_head(head: &[u8], read: std::io::Result<usize>) -> (said: std::io::Result<
    Option<Container>,
>)
    ensures
        said == head_says(Window { buffer: head@, result: read }),
{
    match read {
        Ok(n) => if opens_with(head, n, &magic::QCOW2) {
            Ok(Some(Container::Qcow2))
        } else if opens_with(head, n, &magic::VHDX) {
            Ok(Some(Container::Vhdx))
        } else if opens_with(head, n, &magic::VMDK) {
            Ok(Some(Container::Vmdk))
        } else if opens_with(head, n, &magic::VHD) {
            Ok(Some(Container::Vhd))
        } else {
            Ok(None)
        },
        Err(e) => Err(e),
    }
}

/// Where to look for the footer of a fixed VHD in an image of that length,
/// where there is room for one.
pub fn footer_start(length: std::io::Result<u64>) -> (offset: std::io::Result<Option<u64>>)
    ensures
        offset == length_says(length),
{
    match length {
        Ok(length) => if length >= VHD_FOOTER_SIZE {
            Ok(Some(length - VHD_FOOTER_SIZE))
        } else {
            Ok(None)
        },
        Err(e) => Err(e),
    }
}

/// The container of an image without a signature at offset 0, from the bytes
/// that were read at the start of its footer.
pub fn detect_from_footer(footer: &[u8], read: std::io::Result<usize>) -> (said: std::io::Result<
    Container,
>)
    ensures
        said == footer_says(Window { buffer: footer@, result: read }),
{
    match read {
        Ok(n) => if n == footer.len() && same_bytes(footer, &magic::VHD) {
            Ok(Container::Vhd)
        } else {
            Ok(Container::Raw)
        },
        Err(e) => Err(e),
    }
}

/// Identifies the container by signature, trying the strongest evidence first.
///
/// The signatures at offset 0 exclude one another, so their order does not
/// matter. The trailing footer comes after them and before `Raw`: a fixed VHD
/// is a raw image with a footer glued on, so the footer is all that tells the
/// two apart, and it is far weaker evidence than a signature at offset 0.
///
/// `f` stands at the start of the file. `length` is asked for the length of the
/// file, and only where offset 0 holds no signature.
///
/// What is found follows from the steps that the log of the source gains, and
/// from the length. What each step came back with is the source's own affair,
/// and no clause speaks of it.
pub fn auto_detect_container<
    F: std::io::Read + std::io::Seek,
    L: FnOnce() -> std::io::Result<u64>,
>(f: &mut Source<F>, length: L) -> (found: std::io::Result<Container>)
    requires
        length.requires(()),
    ensures
        exists|search: Search| #[trigger]
            searched(search, old(f).log(), final(f).log(), found) && (search.asks_for_length()
                ==> length.ensures((), search.length)),
{
    let mut head: [u8; 16] = [0u8; 16];
    assert(head@ =~= blank(HEAD_SIZE as nat));
    let read = read_up_to(f, &mut head);
    let ghost mut search: Search = arbitrary();
    proof {
        let calls = choose|calls: Seq<ReadCall>| #[trigger]
            fills(calls, blank(HEAD_SIZE as nat), head@, HEAD_SIZE, read) && f.log() == old(f).log()
                + reads(calls);
        search = Search {
            head_reads: calls,
            head: Window { buffer: head@, result: read },
            ..search
        };
    }
    match detect_from_head(&head, read) {
        Err(e) => {
            let found = Err(e);
            assert(searched(search, old(f).log(), f.log(), found));
            return found;
        },
        Ok(Some(kind)) => {
            let found = Ok(kind);
            assert(searched(search, old(f).log(), f.log(), found));
            return found;
        },
        Ok(None) => {},
    }
    let measured = length();
    proof {
        search = Search { length: measured, ..search };
    }
    match footer_start(measured) {
        Err(e) => {
            let found = Err(e);
            assert(searched(search, old(f).log(), f.log(), found));
            found
        },
        Ok(None) => {
            let found = Ok(Container::Raw);
            assert(searched(search, old(f).log(), f.log(), found));
            found
        },
        Ok(Some(offset)) => {
            let moved = f.seek_to(offset);
            let ghost at_footer = f.log();
            proof {
                search = Search { moved, ..search };
                assert(at_footer =~= old(f).log() + reads(search.head_reads).push(
                    IoStep::Seek { offset, moved },
                ));
            }
            if let Err(e) = moved {
                let found = Err(e);
                assert(searched(search, old(f).log(), f.log(), found));
                return found;
            }
            let mut footer: [u8; 8] = [0u8; 8];
            assert(footer@ =~= blank(FOOTER_HEAD_SIZE as nat));
            let read = read_up_to(f, &mut footer);
            proof {
                let calls = choose|calls: Seq<ReadCall>| #[trigger]
                    fills(calls, blank(FOOTER_HEAD_SIZE as nat), footer@, FOOTER_HEAD_SIZE, read)
                        && f.log() == at_footer + reads(calls);
                search = Search {
                    footer_reads: calls,
                    footer: Window { buffer: footer@, result: read },
                    ..search
                };
                assert(f.log() =~= old(f).log() + search.steps());
            }
            let found = detect_from_footer(&footer, read);
            assert(searched(search, old(f).log(), f.log(), found));
            found
        },
    }
}

/// A container's label parses back to the container.
pub proof fn law_label_round_trips(kind: Container)
    ensures
        Container::named(kind.name()) == Some(kind),
{
    reveal_strlit("raw");
    reveal_strlit("qcow2");
    reveal_strlit("vhd");
    reveal_strlit("vhdx");
    reveal_strlit("vmdk");
    assert("raw"@.len() == 3 && "vhd"@.len() == 3 && "qcow2"@.len() == 5);
    assert("vhdx"@.len() == 4 && "vmdk"@.len() == 4);
    assert("raw"@[0] == 'r' && "vhd"@[0] == 'v');
    assert("vhdx"@[1] == 'h' && "vmdk"@[1] == 'm');
}

/// Only a container's own label parses to it.
pub proof fn law_parse_accepts_labels_only(name: Seq<char>)
    ensures
        Container::named(name) matches Some(kind) ==> kind.name() == name,
{
}

/// No signature is a prefix of another, so at most one of them opens an image
/// and the order in which they are tried does not matter.
pub proof fn law_signatures_exclude_one_another(bytes: Seq<u8>)
    ensures
        begins_with(bytes, magic::QCOW2@) ==> signature_of(bytes) == Some(Container::Qcow2),
        begins_with(bytes, magic::VHDX@) ==> signature_of(bytes) == Some(Container::Vhdx),
        begins_with(bytes, magic::VMDK@) ==> signature_of(bytes) == Some(Container::Vmdk),
        begins_with(bytes, magic::VHD@) ==> signature_of(bytes) == Some(Container::Vhd),
{
    assert(magic::QCOW2@[0] == 0x51 && magic::VHDX@[0] == 0x76 && magic::VMDK@[0] == 0x4b
        && magic::VHD@[0] == 0x63);
    if begins_with(bytes, magic::QCOW2@) {
        assert(bytes.take(magic::QCOW2@.len() as int)[0] == bytes[0]);
    }
    if begins_with(bytes, magic::VHDX@) {
        assert(bytes.take(magic::VHDX@.len() as int)[0] == bytes[0]);
    }
    if begins_with(bytes, magic::VMDK@) {
        assert(bytes.take(magic::VMDK@.len() as int)[0] == bytes[0]);
    }
    if begins_with(bytes, magic::VHD@) {
        assert(bytes.take(magic::VHD@.len() as int)[0] == bytes[0]);
    }
}

/// A signature at offset 0 wins over whatever stands at the end of the image.
pub proof fn law_signature_wins_over_footer(image: Seq<u8>)
    ensures
        signature_of(image) matches Some(kind) ==> container_of(image) == kind,
{
}

/// Without a signature at offset 0, an image that ends in a VHD footer is a
/// fixed VHD, and any other image is raw.
pub proof fn law_footer_separates_fixed_vhd_from_raw(image: Seq<u8>)
    requires
        signature_of(image) is None,
    ensures
        container_of(image) == Container::Vhd <==> has_vhd_footer(image),
        container_of(image) == Container::Raw <==> !has_vhd_footer(image),
{
}

/// An image that is too short for any signature is raw.
pub proof fn law_tiny_image_is_raw(image: Seq<u8>)
    requires
        image.len() < 4,
    ensures
        container_of(image) == Container::Raw,
{
}

/// Each answer has its evidence, and the evidence its answer.
pub proof fn law_evidence_decides(image: Seq<u8>)
    ensures
        container_of(image) == Container::Qcow2 <==> begins_with(image, magic::QCOW2@),
        container_of(image) == Container::Vhdx <==> begins_with(image, magic::VHDX@),
        container_of(image) == Container::Vmdk <==> begins_with(image, magic::VMDK@),
        container_of(image) == Container::Vhd <==> begins_with(image, magic::VHD@) || (signature_of(
            image,
        ) is None && has_vhd_footer(image)),
        container_of(image) == Container::Raw <==> signature_of(image) is None && !has_vhd_footer(
            image,
        ),
{
    law_signatures_exclude_one_another(image);
}

/// A search of a file that holds `image`, and where nothing fails, finds the
/// container of the whole image, in whatever pieces the file was read.
pub proof fn law_readable_file_is_recognised(
    search: Search,
    before: Seq<IoStep>,
    after: Seq<IoStep>,
    found: Result<Container, std::io::Error>,
    image: Seq<u8>,
)
    requires
        searched(search, before, after, found),
        search.is_of(image),
    ensures
        found == Ok::<Container, std::io::Error>(container_of(image)),
{
    let head = search.head;
    law_pieces_fill_the_buffer(
        search.head_reads,
        blank(HEAD_SIZE as nat),
        head.buffer,
        HEAD_SIZE,
        head.result,
        image,
    );
    let part = filled_part(head.buffer, head.result->Ok_0);
    assert(part =~= image.take(part.len() as int));
    lemma_same_opening(image, part, magic::QCOW2@);
    lemma_same_opening(image, part, magic::VHDX@);
    lemma_same_opening(image, part, magic::VMDK@);
    lemma_same_opening(image, part, magic::VHD@);
    if let Some(offset) = search.looks_at() {
        let footer = search.footer;
        let rest = image.skip(offset as int);
        law_pieces_fill_the_buffer(
            search.footer_reads,
            blank(FOOTER_HEAD_SIZE as nat),
            footer.buffer,
            FOOTER_HEAD_SIZE,
            footer.result,
            rest,
        );
        assert(footer.buffer == rest.take(magic::VHD@.len() as int));
    }
}

/// Only the bytes where signatures stand decide: two files of one length that
/// agree on the first eight bytes, and on the eight at the footer where there
/// is room for one, get the same answer.
pub proof fn law_no_other_byte_matters(
    search: Search,
    other_search: Search,
    before: Seq<IoStep>,
    after: Seq<IoStep>,
    other_before: Seq<IoStep>,
    other_after: Seq<IoStep>,
    found: Result<Container, std::io::Error>,
    other_found: Result<Container, std::io::Error>,
    image: Seq<u8>,
    other: Seq<u8>,
)
    requires
        searched(search, before, after, found),
        searched(other_search, other_before, other_after, other_found),
        search.is_of(image),
        other_search.is_of(other),
        image.len() == other.len(),
        forall|i: int| 0 <= i < 8 && i < image.len() ==> image[i] == other[i],
        forall|i: int|
            image.len() - VHD_FOOTER_SIZE <= i < image.len() - VHD_FOOTER_SIZE + 8 && 0 <= i
                && image.len() >= VHD_FOOTER_SIZE ==> image[i] == other[i],
    ensures
        found == other_found,
{
    law_readable_file_is_recognised(search, before, after, found, image);
    law_readable_file_is_recognised(other_search, other_before, other_after, other_found, other);
    lemma_agreeing_openings(image, other, magic::QCOW2@);
    lemma_agreeing_openings(image, other, magic::VHDX@);
    lemma_agreeing_openings(image, other, magic::VMDK@);
    lemma_agreeing_openings(image, other, magic::VHD@);
    if image.len() >= VHD_FOOTER_SIZE {
        let offset = image.len() - VHD_FOOTER_SIZE;
        lemma_agreeing_openings(image.skip(offset), other.skip(offset), magic::VHD@);
    }
}

proof fn lemma_agreeing_openings(a: Seq<u8>, b: Seq<u8>, sig: Seq<u8>)
    requires
        a.len() == b.len(),
        sig.len() <= 8,
        forall|i: int| 0 <= i < 8 && i < a.len() ==> a[i] == b[i],
    ensures
        begins_with(a, sig) == begins_with(b, sig),
{
    if sig.len() <= a.len() {
        assert(a.take(sig.len() as int) =~= b.take(sig.len() as int));
    }
}

/// What is found is settled by the steps that the log shows and by the length:
/// two searches that agree on these find the same.
pub proof fn law_log_settles_the_answer(
    search: Search,
    other: Search,
    before: Seq<IoStep>,
    after: Seq<IoStep>,
    found: Result<Container, std::io::Error>,
    other_found: Result<Container, std::io::Error>,
)
    requires
        searched(search, before, after, found),
        searched(other, before, after, other_found),
        search.length == other.length,
    ensures
        found == other_found,
{
    assert((before + search.steps()).skip(before.len() as int) =~= search.steps());
    assert((before + other.steps()).skip(before.len() as int) =~= other.steps());
    lemma_head_reads(search, other);
    lemma_head_reads(other, search);
    let n = search.head_reads.len() as int;
    assert(reads(search.head_reads) =~= search.steps().take(n));
    assert(reads(other.head_reads) =~= search.steps().take(n));
    law_log_tells_the_reads(Seq::empty(), search.head_reads, other.head_reads);
    assert(search.head == other.head);
    if search.looks_at() is Some {
        assert(search.steps()[n] == IoStep::Seek {
            offset: search.looks_at()->0,
            moved: search.moved,
        });
        assert(other.steps()[n] == IoStep::Seek {
            offset: other.looks_at()->0,
            moved: other.moved,
        });
        if search.moved is Ok {
            assert(reads(search.footer_reads) =~= search.steps().skip(n + 1));
            assert(reads(other.footer_reads) =~= search.steps().skip(n + 1));
            law_log_tells_the_reads(Seq::empty(), search.footer_reads, other.footer_reads);
            assert(search.footer == other.footer);
        }
    }
}

proof fn lemma_head_reads(search: Search, other: Search)
    requires
        search.steps() == other.steps(),
    ensures
        search.head_reads.len() <= other.head_reads.len(),
{
    let n = other.head_reads.len() as int;
    if search.head_reads.len() > n {
        assert(search.steps()[n] == reads(search.head_reads)[n]);
        assert(search.steps()[n] is Read);
        assert(other.looks_at() is Some ==> other.steps()[n] is Seek);
    }
}

/// Whether one of these reads failed with `e`.
pub open spec fn read_failed(calls: Seq<ReadCall>, e: std::io::Error) -> bool {
    exists|i: int|
        0 <= i < calls.len() && (#[trigger] calls[i]).outcome == ReadOutcome::Failed(e)
}

/// A failure is never an answer. An error is found exactly where a read at the
/// start failed with it, or, where the start holds no signature, asking for the
/// length did, or, where there is room for a footer, the move to it or a read
/// there did. The first of these counts, since none of them is made after a
/// failure. An interruption is no failure.
pub proof fn law_failures_are_no_answer(
    search: Search,
    before: Seq<IoStep>,
    after: Seq<IoStep>,
    found: Result<Container, std::io::Error>,
    e: std::io::Error,
)
    requires
        searched(search, before, after, found),
        interruptions(search.head_reads) <= u64::MAX,
        search.reads_footer() ==> interruptions(search.footer_reads) <= u64::MAX,
    ensures
        found == Err::<Container, std::io::Error>(e) <==> {
            ||| read_failed(search.head_reads, e)
            ||| search.asks_for_length() && search.length == Err::<u64, std::io::Error>(e)
            ||| search.looks_at() is Some && search.moved == Err::<u64, std::io::Error>(e)
            ||| search.reads_footer() && read_failed(search.footer_reads, e)
        },
{
    lemma_failed_reads(search.head_reads, blank(HEAD_SIZE as nat), search.head, HEAD_SIZE, e);
    if search.reads_footer() {
        lemma_failed_reads(
            search.footer_reads,
            blank(FOOTER_HEAD_SIZE as nat),
            search.footer,
            FOOTER_HEAD_SIZE,
            e,
        );
    }
}

proof fn lemma_failed_reads(
    calls: Seq<ReadCall>,
    before: Seq<u8>,
    window: Window,
    want: usize,
    e: std::io::Error,
)
    requires
        fills(calls, before, window.buffer, want, window.result),
        interruptions(calls) <= u64::MAX,
    ensures
        window.result == Err::<usize, std::io::Error>(e) <==> read_failed(calls, e),
{
    law_failure_is_returned(calls, before, window.buffer, want, window.result);
    if window.result is Err {
        let i = choose|i: int| 0 <= i < calls.len() && (#[trigger] calls[i]).outcome is Failed;
        assert(calls[i].outcome == ReadOutcome::Failed(window.result->Err_0));
    }
}

proof fn lemma_same_opening(image: Seq<u8>, part: Seq<u8>, sig: Seq<u8>)
    requires
        part.len() <= image.len(),
        part == image.take(part.len() as int),
        sig.len() <= HEAD_SIZE,
        part.len() == image.len() || part.len() == HEAD_SIZE,
    ensures
        begins_with(part, sig) == begins_with(image, sig),
{
    if sig.len() <= part.len() {
        assert(part.take(sig.len() as int) =~= image.take(sig.len() as int));
    }
}

/// Where a file stands after these steps, counted from its start.
pub open spec fn position(steps: Seq<IoStep>) -> nat
    decreases steps.len(),
{
    if steps.len() == 0 {
        0
    } else {
        match steps.last() {
            IoStep::Read(call) => match call.outcome {
                ReadOutcome::Bytes(n) => position(steps.drop_last()) + n as nat,
                _ => position(steps.drop_last()),
            },
            IoStep::Seek { offset, .. } => offset as nat,
        }
    }
}

/// Whether these steps are those of a file that holds `image` and does not
/// fail: each read is handed the bytes at the place where the file stands, in
/// pieces of any size, and nothing only behind the last one, and each move
/// succeeds.
pub open spec fn is_file(steps: Seq<IoStep>, image: Seq<u8>) -> bool
    decreases steps.len(),
{
    steps.len() > 0 ==> {
        let at = position(steps.drop_last()) as int;
        &&& is_file(steps.drop_last(), image)
        &&& match steps.last() {
            IoStep::Read(call) => orderly(call) && match call.outcome {
                ReadOutcome::Bytes(n) => {
                    &&& n > 0 ==> at + n <= image.len() && handed(call) == image.subrange(
                        at,
                        at + n,
                    )
                    &&& n == 0 ==> at >= image.len()
                },
                ReadOutcome::Interrupted(_) => true,
                ReadOutcome::Failed(_) => false,
            },
            IoStep::Seek { moved, .. } => moved is Ok,
        }
    }
}

proof fn lemma_file_serves(prefix: Seq<IoStep>, calls: Seq<ReadCall>, image: Seq<u8>)
    requires
        is_file(prefix + reads(calls), image),
        position(prefix) <= image.len(),
    ensures
        is_file(prefix, image),
        serves(calls, image.skip(position(prefix) as int)),
        position(prefix + reads(calls)) == position(prefix) + handed_over(calls).len(),
        position(prefix + reads(calls)) <= image.len(),
        handed_over(calls) == image.subrange(
            position(prefix) as int,
            position(prefix) as int + handed_over(calls).len(),
        ),
    decreases calls.len(),
{
    let p = position(prefix) as int;
    let data = image.skip(p);
    let steps = prefix + reads(calls);
    if calls.len() == 0 {
        assert(steps =~= prefix);
        assert(handed_over(calls) =~= image.subrange(p, p));
    } else {
        let init = calls.drop_last();
        let call = calls.last();
        assert(steps.drop_last() =~= prefix + reads(init));
        assert(steps.last() == IoStep::Read(call));
        lemma_file_serves(prefix, init, image);
        let at = position(prefix + reads(init)) as int;
        let given = handed_over(calls);
        match call.outcome {
            ReadOutcome::Bytes(n) => {
                assert(handed(call).len() == n);
                if n > 0 {
                    assert(given =~= image.subrange(p, at + n));
                } else {
                    assert(given =~= handed_over(init));
                }
                assert(given =~= data.take(given.len() as int));
                if n == 0 {
                    assert(given =~= data);
                }
            },
            _ => {
                assert(given =~= handed_over(init));
            },
        }
    }
}

/// A file gets the container that its bytes say it is in: the one whose
/// signature it opens with, a VHD also where those eight bytes stand exactly
/// 512 bytes before its end and it opens with no signature, and `Raw` where
/// there is no such evidence.
pub proof fn law_file_is_recognised(
    search: Search,
    log: Seq<IoStep>,
    found: Result<Container, std::io::Error>,
    image: Seq<u8>,
)
    requires
        searched(search, Seq::empty(), log, found),
        is_file(log, image),
        image.len() <= u64::MAX,
        search.asks_for_length() ==> search.length == Ok::<u64, std::io::Error>(image.len() as u64),
        interruptions(search.head_reads) <= u64::MAX,
        search.reads_footer() ==> interruptions(search.footer_reads) <= u64::MAX,
    ensures
        found matches Ok(kind) && ({
            let qcow2 = image.len() >= 4 && image.take(4) == magic::QCOW2@;
            let vhdx = image.len() >= 8 && image.take(8) == magic::VHDX@;
            let vmdk = image.len() >= 4 && image.take(4) == magic::VMDK@;
            let vhd = image.len() >= 8 && image.take(8) == magic::VHD@;
            let fixed = image.len() >= 512 && image.subrange(
                image.len() - 512,
                image.len() - 504,
            ) == magic::VHD@;
            let none = !qcow2 && !vhdx && !vmdk && !vhd;
            &&& kind == Container::Qcow2 <==> qcow2
            &&& kind == Container::Vhdx <==> vhdx
            &&& kind == Container::Vmdk <==> vmdk
            &&& kind == Container::Vhd <==> vhd || (none && fixed)
            &&& kind == Container::Raw <==> none && !fixed
        }),
{
    let steps = search.steps();
    assert(log =~= steps);
    let head = reads(search.head_reads);
    let empty = Seq::<IoStep>::empty();
    assert(empty + head =~= head);
    match search.looks_at() {
        None => {
            lemma_file_serves(empty, search.head_reads, image);
        },
        Some(offset) => {
            let moved = head.push(IoStep::Seek { offset, moved: search.moved });
            assert(moved.drop_last() =~= head);
            if search.moved is Ok {
                assert(position(moved) == offset);
                lemma_file_serves(moved, search.footer_reads, image);
            }
            lemma_file_serves(empty, search.head_reads, image);
        },
    }
    assert(image.skip(0) =~= image);
    assert(search.is_of(image));
    law_readable_file_is_recognised(search, empty, log, found, image);
    law_evidence_decides(image);
    law_signatures_exclude_one_another(image);
    if image.len() >= 512 {
        assert(image.skip(image.len() - 512).take(8) =~= image.subrange(
            image.len() - 512,
            image.len() - 504,
        ));
    }
}

/// Whether a signature stands in full at the front of the bytes that were read.
pub open spec fn stands_in(sig: Seq<u8>, buffer: Seq<u8>, n: usize) -> bool {
    sig.len() <= n && sig.len() <= buffer.len() && buffer.take(sig.len() as int) == sig
}

/// What each step of a search says, for every buffer, count and length: a
/// signature counts where it was read in full, a footer is looked for exactly
/// 512 bytes before the end, and a failure is passed on.
pub proof fn law_each_step_says_its_part(buffer: Seq<u8>, n: usize, length: u64, e: std::io::Error)
    ensures
        head_says(Window { buffer, result: Ok(n) }) matches Ok(said) && {
            &&& said == Some(Container::Qcow2) <==> stands_in(magic::QCOW2@, buffer, n)
            &&& said == Some(Container::Vhdx) <==> stands_in(magic::VHDX@, buffer, n)
            &&& said == Some(Container::Vmdk) <==> stands_in(magic::VMDK@, buffer, n)
            &&& said == Some(Container::Vhd) <==> stands_in(magic::VHD@, buffer, n)
            &&& said != Some(Container::Raw)
        },
        head_says(Window { buffer, result: Err(e) }) == Err::<Option<Container>, std::io::Error>(e),
        length_says(Ok(length)) matches Ok(at) && {
            &&& at is None <==> length < 512
            &&& at matches Some(offset) ==> offset + 512 == length
        },
        length_says(Err(e)) == Err::<Option<u64>, std::io::Error>(e),
        footer_says(Window { buffer, result: Ok(n) }) matches Ok(kind) && {
            &&& kind == Container::Vhd <==> n == buffer.len() && buffer == magic::VHD@
            &&& kind == Container::Vhd || kind == Container::Raw
        },
        footer_says(Window { buffer, result: Err(e) }) == Err::<Container, std::io::Error>(e),
{
    let part = filled_part(buffer, n);
    law_signatures_exclude_one_another(part);
    lemma_stands_in(magic::QCOW2@, buffer, n);
    lemma_stands_in(magic::VHDX@, buffer, n);
    lemma_stands_in(magic::VMDK@, buffer, n);
    lemma_stands_in(magic::VHD@, buffer, n);
}

proof fn lemma_stands_in(sig: Seq<u8>, buffer: Seq<u8>, n: usize)
    ensures
        stands_in(sig, buffer, n) <==> begins_with(filled_part(buffer, n), sig),
{
    let part = filled_part(buffer, n);
    if sig.len() <= part.len() {
        assert(part.take(sig.len() as int) =~= buffer.take(sig.len() as int));
    }
}

/// The only place that a search moves to is 512 bytes before the end, and an
/// error is found exactly where the first step that failed came back with it.
pub proof fn law_search_goes_step_by_step(
    search: Search,
    before: Seq<IoStep>,
    after: Seq<IoStep>,
    found: Result<Container, std::io::Error>,
    e: std::io::Error,
)
    requires
        searched(search, before, after, found),
    ensures
        forall|i: int|
            before.len() <= i < after.len() ==> (#[trigger] after[i] matches IoStep::Seek {
                offset,
                moved,
            } ==> moved == search.moved && (search.length matches Ok(length) && offset + 512
                == length)),
        ({
            let unsigned = search.head.result matches Ok(n) && !stands_in(
                magic::QCOW2@,
                search.head.buffer,
                n,
            ) && !stands_in(magic::VHDX@, search.head.buffer, n) && !stands_in(
                magic::VMDK@,
                search.head.buffer,
                n,
            ) && !stands_in(magic::VHD@, search.head.buffer, n);
            found == Err::<Container, std::io::Error>(e) <==> {
                ||| search.head.result == Err::<usize, std::io::Error>(e)
                ||| unsigned && search.length == Err::<u64, std::io::Error>(e)
                ||| unsigned && (search.length matches Ok(length) && length >= 512)
                    && search.moved == Err::<u64, std::io::Error>(e)
                ||| unsigned && (search.length matches Ok(length) && length >= 512)
                    && search.moved is Ok && search.footer.result == Err::<usize, std::io::Error>(e)
            }
        }),
{
    let head = search.head;
    if let Ok(n) = head.result {
        law_each_step_says_its_part(head.buffer, n, 0, e);
    }
    let steps = search.steps();
    assert forall|i: int| before.len() <= i < after.len() implies (
    #[trigger] after[i] matches IoStep::Seek { offset, moved } ==> moved == search.moved && (
    search.length matches Ok(length) && offset + 512 == length)) by {
        assert(after[i] == steps[i - before.len()]);
    }
}

} // verus!
