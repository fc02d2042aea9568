use diskprobe::container::{
    auto_detect_container, detect_from_footer, detect_from_head, footer_start, Container,
    VHD_FOOTER_SIZE,
};
use diskprobe::magic;
use diskprobe::source::Source;

/// A 1 KiB image with `head` at offset 0 and, optionally, `footer` at
/// `len - 512` — the two positions `auto_detect_container` reads.
fn image_with(head: &[u8], footer: Option<&[u8]>) -> Vec<u8> {
    let mut bytes = vec![0u8; 1024];
    bytes[..head.len()].copy_from_slice(head);
    if let Some(footer) = footer {
        let at = bytes.len() - 512;
        bytes[at..at + footer.len()].copy_from_slice(footer);
    }
    bytes
}

fn detect(image: &[u8]) -> std::io::Result<Container> {
    let mut source = Source::new(std::io::Cursor::new(image));
    auto_detect_container(&mut source, || Ok(image.len() as u64))
}

/// A source that cannot be read.
struct Broken;

impl std::io::Read for Broken {
    fn read(&mut self, _buf: &mut [u8]) -> std::io::Result<usize> {
        Err(std::io::Error::from(std::io::ErrorKind::PermissionDenied))
    }
}

impl std::io::Seek for Broken {
    fn seek(&mut self, _pos: std::io::SeekFrom) -> std::io::Result<u64> {
        Err(std::io::Error::from(std::io::ErrorKind::NotFound))
    }
}

/// A source that can be read, but not moved around in.
struct Unseekable(usize);

impl std::io::Read for Unseekable {
    fn read(&mut self, buf: &mut [u8]) -> std::io::Result<usize> {
        let n = self.0.min(buf.len());
        self.0 -= n;
        Ok(n)
    }
}

impl std::io::Seek for Unseekable {
    fn seek(&mut self, _pos: std::io::SeekFrom) -> std::io::Result<u64> {
        Err(std::io::Error::from(std::io::ErrorKind::Unsupported))
    }
}

#[test]
fn the_container_magics_are_the_formats_own_bytes() {
    assert_eq!(&magic::QCOW2, &[0x51, 0x46, 0x49, 0xfb]);
    assert_eq!(&magic::VHDX, b"vhdxfile");
    assert_eq!(&magic::VMDK, b"KDMV");
    assert_eq!(&magic::VHD, b"conectix");
}

#[test]
fn no_container_magic_shadows_another() {
    let all: [&[u8]; 4] = [&magic::QCOW2, &magic::VHDX, &magic::VMDK, &magic::VHD];
    for (i, a) in all.iter().enumerate() {
        for b in &all[i + 1..] {
            let n = a.len().min(b.len());
            assert_ne!(&a[..n], &b[..n], "{a:?} and {b:?} share a prefix");
        }
    }
}

#[test]
fn the_vhd_footer_size_is_the_formats_and_not_a_sector() {
    assert_eq!(VHD_FOOTER_SIZE, 512);
}

#[test]
fn container_label_round_trips_through_parse() {
    for kind in [
        Container::Raw,
        Container::Qcow2,
        Container::Vhd,
        Container::Vhdx,
        Container::Vmdk,
    ] {
        assert_eq!(
            Container::parse(kind.label()),
            Some(kind),
            "{} did not round-trip",
            kind.label()
        );
    }
}

#[test]
fn container_labels_are_the_strings_the_json_contract_publishes() {
    assert_eq!(Container::Raw.label(), "raw");
    assert_eq!(Container::Qcow2.label(), "qcow2");
    assert_eq!(Container::Vhd.label(), "vhd");
    assert_eq!(Container::Vhdx.label(), "vhdx");
    assert_eq!(Container::Vmdk.label(), "vmdk");
}

#[test]
fn container_parse_rejects_names_it_does_not_know() {
    assert_eq!(Container::parse(""), None);
    assert_eq!(Container::parse("iso"), None);
    assert_eq!(
        Container::parse("QCOW2"),
        None,
        "matching is case-sensitive"
    );
    assert_eq!(Container::parse("qcow"), None);
}

#[test]
fn auto_detect_recognises_each_magic_at_offset_zero() {
    let cases: [(&str, &[u8], Container); 4] = [
        ("qcow2", b"QFI\xfb", Container::Qcow2),
        ("vhdx", b"vhdxfile", Container::Vhdx),
        ("vmdk", b"KDMV", Container::Vmdk),
        ("vhd-header", b"conectix", Container::Vhd),
    ];
    for (name, magic, expected) in cases {
        let image = image_with(magic, None);
        assert_eq!(
            detect(&image).unwrap(),
            expected,
            "{name} magic was not recognised"
        );
    }
}

#[test]
fn auto_detect_recognises_a_fixed_vhd_by_its_trailing_footer() {
    let image = image_with(&[0x00; 4], Some(b"conectix"));
    assert_eq!(detect(&image).unwrap(), Container::Vhd);
}

#[test]
fn auto_detect_prefers_a_magic_at_offset_zero_over_a_trailing_footer() {
    let image = image_with(b"QFI\xfb", Some(b"conectix"));
    assert_eq!(detect(&image).unwrap(), Container::Qcow2);
}

#[test]
fn auto_detect_falls_back_to_raw_when_nothing_matches() {
    let image = image_with(&[0x55; 8], None);
    assert_eq!(detect(&image).unwrap(), Container::Raw);
}

#[test]
fn auto_detect_falls_back_to_raw_for_files_too_short_to_hold_a_signature() {
    assert_eq!(detect(&[]).unwrap(), Container::Raw);
    assert_eq!(detect(&[0x00, 0x01, 0x02, 0x03]).unwrap(), Container::Raw);
}

#[test]
fn auto_detect_reads_the_footer_where_the_image_is_nothing_else() {
    let mut image = vec![0u8; 512];
    image[..8].copy_from_slice(b"conectix");
    assert_eq!(detect(&image).unwrap(), Container::Vhd);
    image[0] = b'C';
    assert_eq!(detect(&image).unwrap(), Container::Raw);
}

#[test]
fn auto_detect_asks_for_the_length_only_where_offset_zero_says_nothing() {
    let image = image_with(b"KDMV", None);
    let asked = std::cell::Cell::new(false);
    let found = auto_detect_container(&mut Source::new(std::io::Cursor::new(&image[..])), || {
        asked.set(true);
        Ok(1024)
    });
    assert_eq!(found.unwrap(), Container::Vmdk);
    assert!(!asked.get());
}

#[test]
fn auto_detect_returns_the_errors_it_meets() {
    let read = auto_detect_container(&mut Source::new(Broken), || Ok(1024)).unwrap_err();
    assert_eq!(read.kind(), std::io::ErrorKind::PermissionDenied);
    let length = auto_detect_container(&mut Source::new(Unseekable(2048)), || {
        Err(std::io::Error::from(std::io::ErrorKind::NotFound))
    })
    .unwrap_err();
    assert_eq!(length.kind(), std::io::ErrorKind::NotFound);
    let seek = auto_detect_container(&mut Source::new(Unseekable(2048)), || Ok(1024)).unwrap_err();
    assert_eq!(seek.kind(), std::io::ErrorKind::Unsupported);
    assert_eq!(
        auto_detect_container(&mut Source::new(Unseekable(8)), || Ok(511)).unwrap(),
        Container::Raw
    );
}

#[test]
fn auto_detect_moves_to_the_footer_it_was_told_of() {
    // The length decides where the footer is looked for.
    let mut image = vec![0u8; 2048];
    image[512..520].copy_from_slice(b"conectix");
    let mut source = Source::new(std::io::Cursor::new(&image[..]));
    let found = auto_detect_container(&mut source, || Ok(1024)).unwrap();
    assert_eq!(found, Container::Vhd);
    assert_eq!(detect(&image).unwrap(), Container::Raw);
}

#[test]
fn detect_from_head_looks_at_no_more_than_was_read() {
    let says = |head: &[u8], n: usize| detect_from_head(head, Ok(n)).unwrap();
    assert_eq!(says(b"vhdxfile", 8), Some(Container::Vhdx));
    assert_eq!(says(b"vhdxfile", 7), None);
    assert_eq!(says(b"KDMV____", 4), Some(Container::Vmdk));
    assert_eq!(says(b"KDMV", 9), Some(Container::Vmdk));
    assert_eq!(says(b"", 0), None);
}

#[test]
fn footer_start_needs_room_for_a_footer() {
    assert_eq!(footer_start(Ok(511)).unwrap(), None);
    assert_eq!(footer_start(Ok(512)).unwrap(), Some(0));
    assert_eq!(footer_start(Ok(1024)).unwrap(), Some(512));
    assert_eq!(footer_start(Ok(u64::MAX)).unwrap(), Some(u64::MAX - 512));
}

#[test]
fn detect_from_footer_wants_the_whole_signature() {
    let says = |footer: &[u8], n: usize| detect_from_footer(footer, Ok(n)).unwrap();
    assert_eq!(says(b"conectix", 8), Container::Vhd);
    assert_eq!(says(b"conectix", 7), Container::Raw);
    assert_eq!(says(b"conectiX", 8), Container::Raw);
}

#[test]
fn each_step_of_a_search_passes_its_failure_on() {
    let gone = || std::io::Error::from(std::io::ErrorKind::BrokenPipe);
    let head = detect_from_head(b"KDMV", Err(gone())).unwrap_err();
    assert_eq!(head.kind(), std::io::ErrorKind::BrokenPipe);
    let length = footer_start(Err(gone())).unwrap_err();
    assert_eq!(length.kind(), std::io::ErrorKind::BrokenPipe);
    let footer = detect_from_footer(b"conectix", Err(gone())).unwrap_err();
    assert_eq!(footer.kind(), std::io::ErrorKind::BrokenPipe);
}

#[test]
fn a_file_as_long_as_its_signature_is_recognised() {
    assert_eq!(detect(b"QFI").unwrap(), Container::Raw);
    assert_eq!(detect(b"KDMV").unwrap(), Container::Vmdk);
    assert_eq!(detect(b"conecti").unwrap(), Container::Raw);
    assert_eq!(detect(b"conectix").unwrap(), Container::Vhd);
}

#[test]
fn the_footer_counts_only_where_it_starts() {
    let mut at_the_end = vec![0u8; 1016];
    at_the_end.extend_from_slice(b"conectix");
    assert_eq!(detect(&at_the_end).unwrap(), Container::Raw);
    let mut odd = vec![0u8];
    odd.extend_from_slice(b"conectix");
    odd.extend_from_slice(&[0u8; 504]);
    assert_eq!(detect(&odd).unwrap(), Container::Vhd);
}

#[test]
fn no_byte_outside_the_signatures_matters() {
    let image = image_with(&[0x55; 8], Some(b"conectix"));
    let mut other = vec![0xEEu8; 1024];
    other[..8].copy_from_slice(&image[..8]);
    other[512..520].copy_from_slice(&image[512..520]);
    assert_eq!(detect(&image).unwrap(), detect(&other).unwrap());
}

/// A source whose second stretch of reading, behind a move, fails.
struct FailsAtTheFooter {
    moved: bool,
}

impl std::io::Read for FailsAtTheFooter {
    fn read(&mut self, buf: &mut [u8]) -> std::io::Result<usize> {
        if self.moved {
            return Err(std::io::Error::other("bad sector"));
        }
        buf.fill(0);
        Ok(buf.len())
    }
}

impl std::io::Seek for FailsAtTheFooter {
    fn seek(&mut self, _pos: std::io::SeekFrom) -> std::io::Result<u64> {
        self.moved = true;
        Ok(0)
    }
}

#[test]
fn a_footer_that_cannot_be_read_is_no_raw_image() {
    let mut source = Source::new(FailsAtTheFooter { moved: false });
    let err = auto_detect_container(&mut source, || Ok(1024)).unwrap_err();
    assert_eq!(err.to_string(), "bad sector");
}
