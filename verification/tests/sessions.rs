use diskprobe::args::{parse_args, Args, USAGE};
use diskprobe::container::Container;
use diskprobe::probe::{ErrorCode, NO_PARTITION_TABLE_MESSAGE};
use diskprobe::report::Partition;
use diskprobe::session::{advance, start, Event, Exit, State};

fn strings(args: &[&str]) -> Vec<String> {
    args.iter().map(|a| a.to_string()).collect()
}

fn mbr_partition(start: u64) -> Partition {
    Partition {
        start,
        length: 10,
        type_byte: 131,
        type_guid: [0u8; 16],
        label: None,
    }
}

/// Runs these events and gives the end of the run, with what was said on the
/// way.
fn run(args: &[&str], events: Vec<Event>) -> (Exit, Vec<String>) {
    let mut state = start(&strings(args));
    let mut said = Vec::new();
    for event in events {
        let (next, warning) = advance(state, event);
        said.extend(warning);
        state = next;
    }
    match state {
        State::Finished { exit } => (exit, said),
        _ => panic!("the run is not over"),
    }
}

fn failed(text: &str) -> Event {
    Event::Failed(text.to_string())
}

fn opened() -> Vec<Event> {
    vec![Event::FileOpened, Event::ContainerOpened(4096)]
}

fn probed(rc: ErrorCode, list_is_null: bool, text: &str) -> Event {
    Event::Probed {
        rc,
        list_is_null,
        last_error: text.to_string(),
    }
}

fn fetched(start: u64) -> Event {
    Event::Fetched {
        rc: ErrorCode::Success,
        partition: mbr_partition(start),
    }
}

fn entry(index: usize, start: u64, fs: &str, more: &str) -> String {
    format!(
        "{{\"index\":{index},\"start\":{start},\"length\":10,\"fs_kind\":\"{fs}\",\"type_byte\":131,\"type_guid\":\"00000000-0000-0000-0000-000000000000\"{more}}}"
    )
}

#[test]
fn no_argument_and_help_print_the_usage() {
    for args in [
        &[][..],
        &["-h"][..],
        &["--help"][..],
        &["x", "--nonsense", "-h"][..],
    ] {
        let (exit, _) = run(args, vec![]);
        assert_eq!(exit.code, 0);
        assert_eq!(exit.stdout.as_deref(), Some(USAGE));
        assert_eq!(exit.stderr, None);
    }
}

#[test]
fn bad_arguments_exit_one() {
    let cases: [(&[&str], String); 5] = [
        (
            &["--container=iso", "x"],
            "diskprobe: unknown container kind: iso".to_string(),
        ),
        (
            &["--container=", "x"],
            "diskprobe: unknown container kind: ".to_string(),
        ),
        (
            &["x", "--verbose"],
            format!("diskprobe: unknown flag: --verbose\n{USAGE}"),
        ),
        (
            &["x", "y"],
            "diskprobe: unexpected positional: y".to_string(),
        ),
        (&["--container=raw"], format!("diskprobe: {USAGE}")),
    ];
    for (args, message) in cases {
        let (exit, _) = run(args, vec![]);
        assert_eq!(exit.code, 1);
        assert_eq!(exit.stdout, None);
        assert_eq!(exit.stderr, Some(message));
    }
}

#[test]
fn the_usage_is_the_published_one() {
    assert_eq!(
        USAGE,
        "usage: diskprobe <path> [--container=qcow2|vhd|vhdx|vmdk]"
    );
}

#[test]
fn a_container_may_be_named_on_either_side_of_the_path() {
    for args in [
        &["--container=vhdx", "a b"][..],
        &["a b", "--container=vhdx"][..],
        &["--container=qcow2", "a b", "--container=vhdx"][..],
    ] {
        match parse_args(&strings(args)) {
            Args::Probe { path, container } => {
                assert_eq!(path, "a b");
                assert_eq!(container, Some(Container::Vhdx));
            }
            _ => panic!("expected a probe"),
        }
    }
}

#[test]
fn a_single_dash_is_a_path() {
    match parse_args(&strings(&["-x"])) {
        Args::Probe { path, container } => {
            assert_eq!(path, "-x");
            assert_eq!(container, None);
        }
        _ => panic!("expected a probe"),
    }
}

#[test]
fn a_named_container_is_not_detected() {
    assert!(matches!(
        start(&strings(&["x", "--container=raw"])),
        State::OpenFile {
            container: Container::Raw,
            ..
        }
    ));
    assert!(matches!(
        start(&strings(&["x"])),
        State::DetectContainer { .. }
    ));
}

#[test]
fn what_cannot_be_opened_exits_two() {
    let (exit, _) = run(&["x"], vec![failed("no such file")]);
    assert_eq!(exit.code, 2);
    assert_eq!(
        exit.stderr.as_deref(),
        Some("diskprobe: auto-detect: no such file")
    );
    let (exit, _) = run(
        &["x"],
        vec![Event::Detected(Container::Raw), failed("denied")],
    );
    assert_eq!(exit.code, 2);
    assert_eq!(
        exit.stderr.as_deref(),
        Some("diskprobe: fs_core_file_open: denied")
    );
    let (exit, _) = run(
        &["x", "--container=qcow2"],
        vec![Event::FileOpened, failed("bad header")],
    );
    assert_eq!(exit.code, 2);
    assert_eq!(exit.stdout, None);
    assert_eq!(
        exit.stderr.as_deref(),
        Some("diskprobe: qcow2_open_on_device: bad header")
    );
}

#[test]
fn an_unreadable_table_exits_three_and_prints_nothing() {
    let mut events = opened();
    events.push(probed(ErrorCode::Custom, true, "GPT header CRC32 mismatch"));
    let (exit, _) = run(&["x", "--container=raw"], events);
    assert_eq!(exit.code, 3);
    assert_eq!(exit.stdout, None);
    assert_eq!(
        exit.stderr.as_deref(),
        Some("diskprobe: partitions_probe: GPT header CRC32 mismatch")
    );
}

#[test]
fn a_disk_without_a_table_exits_zero() {
    let mut events = opened();
    events.push(probed(ErrorCode::Custom, true, NO_PARTITION_TABLE_MESSAGE));
    events.push(Event::Sniffed(3));
    let (exit, said) = run(&["/x", "--container=vmdk"], events);
    assert_eq!(exit.code, 0);
    assert_eq!(exit.stderr, None);
    assert!(said.is_empty());
    assert_eq!(
        exit.stdout.as_deref(),
        Some("{\"path\":\"/x\",\"container\":\"vmdk\",\"container_size_bytes\":4096,\"table\":\"none\",\"device_fs_kind\":\"ext4\",\"partitions\":[]}")
    );
}

#[test]
fn a_failed_sniff_of_the_whole_device_is_reported_in_band() {
    let mut events = opened();
    events.push(probed(ErrorCode::Custom, true, NO_PARTITION_TABLE_MESSAGE));
    events.push(Event::Sniffed(-1));
    events.push(Event::LastError("read \"failed\"".to_string()));
    let (exit, said) = run(&["/x", "--container=raw"], events);
    assert_eq!(exit.code, 0);
    assert_eq!(
        said,
        ["diskprobe: whole-device filesystem sniff failed: read \"failed\""]
    );
    assert_eq!(
        exit.stdout.as_deref(),
        Some("{\"path\":\"/x\",\"container\":\"raw\",\"container_size_bytes\":4096,\"table\":\"none\",\"device_fs_kind\":\"error\",\"device_fs_error\":\"read \\\"failed\\\"\",\"partitions\":[]}")
    );
}

#[test]
fn a_walk_reports_every_partition_it_could_fetch() {
    let mut events = opened();
    events.push(probed(ErrorCode::Success, false, "stale"));
    events.push(Event::Listed { table: 2, count: 4 });
    events.push(fetched(100));
    events.push(Event::Sniffed(0));
    events.push(Event::Fetched {
        rc: ErrorCode::OutOfBounds,
        partition: mbr_partition(200),
    });
    events.push(fetched(300));
    events.push(Event::Sniffed(-1));
    events.push(Event::LastError(String::new()));
    events.push(fetched(400));
    events.push(Event::Sniffed(12));
    let (exit, said) = run(&["/x", "--container=raw"], events);
    assert_eq!(exit.code, 0);
    assert_eq!(
        said,
        ["diskprobe: partition 2: filesystem sniff failed: sniff returned -1 with no detail recorded"]
    );
    let expected = format!(
        "{{\"path\":\"/x\",\"container\":\"raw\",\"container_size_bytes\":4096,\"table\":\"mbr\",\"partitions\":[{},{},{}]}}",
        entry(0, 100, "unknown", ""),
        entry(
            2,
            300,
            "error",
            ",\"fs_kind_error\":\"sniff returned -1 with no detail recorded\""
        ),
        entry(3, 400, "squashfs", "")
    );
    assert_eq!(exit.stdout, Some(expected));
}

#[test]
fn an_empty_table_is_written_at_once() {
    let mut events = opened();
    events.push(probed(ErrorCode::Success, false, ""));
    events.push(Event::Listed { table: 1, count: 0 });
    let (exit, _) = run(&["/x", "--container=raw"], events);
    assert_eq!(
        exit.stdout.as_deref(),
        Some("{\"path\":\"/x\",\"container\":\"raw\",\"container_size_bytes\":4096,\"table\":\"gpt\",\"partitions\":[]}")
    );
}

#[test]
fn an_event_that_was_not_asked_for_leads_nowhere() {
    let state = start(&strings(&["x"]));
    let (state, said) = advance(state, Event::Sniffed(3));
    assert_eq!(said, None);
    match state {
        State::DetectContainer { path } => assert_eq!(path, "x"),
        _ => panic!("the run went on"),
    }
}
