//! One run of the program, as a state machine.
//!
//! A [`State`] says what has to be done outside the library next, an [`Event`]
//! says what came of it, and [`advance`] decides where that leads.

use vstd::prelude::*;
use vstd::string::*;

use crate::args::{asked, parse_args, texts, Args, ArgsView, USAGE};
use crate::container::Container;
use crate::kinds::{
    fs_label, law_failed_sniff_is_told_apart, sniff_failure, sniff_outcome, SNIFF_FAILED_LABEL,
};
use crate::meaning::{
    device_json, is_fs_label, law_device_document_reads_back, law_table_document_reads_back,
    table_json,
};
use crate::probe::{classify_probe, verdict, ErrorCode, ProbeOutcome, Verdict};
use crate::report::{
    device_document, device_document_text, table_document, table_document_text, text_of, views,
    Entry, EntryView, Image, ImageView, Partition, PartitionView,
};
use crate::text::{decimal, joined, push_decimal};
use crate::value::read_document;

verus! {

/// The exit code of a run that told what it was asked for.
pub const EXIT_OK: i32 = 0;

/// The exit code of a run that was called wrongly.
pub const EXIT_ARG_ERROR: i32 = 1;

/// The exit code of a run that could not open the file or its container.
pub const EXIT_OPEN_ERROR: i32 = 2;

/// The exit code of a run that found a partition table it could not read.
pub const EXIT_PROBE_ERROR: i32 = 3;

/// How a run ends.
pub struct Exit {
    pub code: i32,
    /// What goes to the standard output.
    pub stdout: Option<String>,
    /// What goes to the standard error.
    pub stderr: Option<String>,
}

/// A walk along the partitions of a table.
pub struct Walk {
    pub image: Image,
    /// The code of the table.
    pub table: i32,
    /// How many partitions there are.
    pub count: usize,
    /// The partition at hand.
    pub index: usize,
    /// What was found on the partitions before it.
    pub entries: Vec<Entry>,
}

/// Where a run stands: what has to be done next, outside the library.
pub enum State {
    /// Find out which container the file is in.
    DetectContainer { path: String },
    /// Open the file.
    OpenFile { path: String, container: Container },
    /// Open the container in the file, and take the size of the disk in it.
    OpenContainer { path: String, container: Container },
    /// Probe the disk for a partition table.
    Probe { image: Image },
    /// Sniff for a filesystem on the whole disk.
    SniffDevice { image: Image },
    /// Ask why that sniff failed.
    ExplainDevice { image: Image, sniffed: i32 },
    /// Ask for the kind of the table and the number of partitions.
    ListTable { image: Image },
    /// Fetch the partition at hand.
    FetchEntry { walk: Walk },
    /// Sniff for a filesystem on the partition at hand.
    SniffEntry { walk: Walk, partition: Partition },
    /// Ask why that sniff failed.
    ExplainEntry { walk: Walk, partition: Partition, sniffed: i32 },
    /// End the run.
    Finished { exit: Exit },
}

/// What came of the work that a [`State`] asks for.
pub enum Event {
    /// The file is in this container.
    Detected(Container),
    /// The file is open.
    FileOpened,
    /// The container is open, and the disk in it has this many bytes.
    ContainerOpened(u64),
    /// Detecting or opening failed, for this reason.
    Failed(String),
    /// The probe came back.
    Probed { rc: ErrorCode, list_is_null: bool, last_error: String },
    /// The table has this code, and this many partitions.
    Listed { table: i32, count: usize },
    /// The partition was asked for, and came where the code says so.
    Fetched { rc: ErrorCode, partition: Partition },
    /// The sniff returned this code.
    Sniffed(i32),
    /// The last error message.
    LastError(String),
}

/// An [`Exit`] with its text as characters.
pub struct ExitView {
    pub code: int,
    pub stdout: Option<Seq<char>>,
    pub stderr: Option<Seq<char>>,
}

/// A [`Walk`] with its entries as the document shows them.
pub struct WalkView {
    pub image: ImageView,
    pub table: int,
    pub count: nat,
    pub index: nat,
    pub entries: Seq<EntryView>,
}

/// A [`State`] with its text as characters.
pub enum StateView {
    DetectContainer { path: Seq<char> },
    OpenFile { path: Seq<char>, container: Container },
    OpenContainer { path: Seq<char>, container: Container },
    Probe { image: ImageView },
    SniffDevice { image: ImageView },
    ExplainDevice { image: ImageView, sniffed: int },
    ListTable { image: ImageView },
    FetchEntry { walk: WalkView },
    SniffEntry { walk: WalkView, partition: PartitionView },
    ExplainEntry { walk: WalkView, partition: PartitionView, sniffed: int },
    Finished { exit: ExitView },
}

/// An [`Event`] with its text as characters.
pub enum EventView {
    Detected(Container),
    FileOpened,
    ContainerOpened(nat),
    Failed(Seq<char>),
    Probed { rc: ErrorCode, list_is_null: bool, last_error: Seq<char> },
    Listed { table: int, count: nat },
    Fetched { rc: ErrorCode, partition: PartitionView },
    Sniffed(int),
    LastError(Seq<char>),
}

impl View for Exit {
    type V = ExitView;

    open spec fn view(&self) -> ExitView {
        ExitView {
            code: self.code as int,
            stdout: text_of(self.stdout),
            stderr: text_of(self.stderr),
        }
    }
}

impl View for Walk {
    type V = WalkView;

    open spec fn view(&self) -> WalkView {
        WalkView {
            image: self.image@,
            table: self.table as int,
            count: self.count as nat,
            index: self.index as nat,
            entries: views(self.entries@),
        }
    }
}

impl View for State {
    type V = StateView;

    open spec fn view(&self) -> StateView {
        match self {
            State::DetectContainer { path } => StateView::DetectContainer { path: path@ },
            State::OpenFile { path, container } => StateView::OpenFile {
                path: path@,
                container: *container,
            },
            State::OpenContainer { path, container } => StateView::OpenContainer {
                path: path@,
                container: *container,
            },
            State::Probe { image } => StateView::Probe { image: image@ },
            State::SniffDevice { image } => StateView::SniffDevice { image: image@ },
            State::ExplainDevice { image, sniffed } => StateView::ExplainDevice {
                image: image@,
                sniffed: *sniffed as int,
            },
            State::ListTable { image } => StateView::ListTable { image: image@ },
            State::FetchEntry { walk } => StateView::FetchEntry { walk: walk@ },
            State::SniffEntry { walk, partition } => StateView::SniffEntry {
                walk: walk@,
                partition: partition@,
            },
            State::ExplainEntry { walk, partition, sniffed } => StateView::ExplainEntry {
                walk: walk@,
                partition: partition@,
                sniffed: *sniffed as int,
            },
            State::Finished { exit } => StateView::Finished { exit: exit@ },
        }
    }
}

impl View for Event {
    type V = EventView;

    open spec fn view(&self) -> EventView {
        match self {
            Event::Detected(container) => EventView::Detected(*container),
            Event::FileOpened => EventView::FileOpened,
            Event::ContainerOpened(size) => EventView::ContainerOpened(*size as nat),
            Event::Failed(reason) => EventView::Failed(reason@),
            Event::Probed { rc, list_is_null, last_error } => EventView::Probed {
                rc: *rc,
                list_is_null: *list_is_null,
                last_error: last_error@,
            },
            Event::Listed { table, count } => EventView::Listed {
                table: *table as int,
                count: *count as nat,
            },
            Event::Fetched { rc, partition } => EventView::Fetched {
                rc: *rc,
                partition: partition@,
            },
            Event::Sniffed(code) => EventView::Sniffed(*code as int),
            Event::LastError(text) => EventView::LastError(text@),
        }
    }
}

/// The end of a run that failed with this message.
pub open spec fn failed(code: int, message: Seq<char>) -> StateView {
    StateView::Finished {
        exit: ExitView { code, stdout: None, stderr: Some("diskprobe: "@ + message) },
    }
}

/// The end of a run that printed this.
pub open spec fn printed(text: Seq<char>) -> StateView {
    StateView::Finished {
        exit: ExitView { code: EXIT_OK as int, stdout: Some(text), stderr: None },
    }
}

/// Where a run with these arguments starts.
pub open spec fn first_state(args: Seq<Seq<char>>) -> StateView {
    match asked(args) {
        ArgsView::Help => printed(USAGE@),
        ArgsView::Invalid(reason) => failed(EXIT_ARG_ERROR as int, reason),
        ArgsView::Probe { path, container } => match container {
            Some(container) => StateView::OpenFile { path, container },
            None => StateView::DetectContainer { path },
        },
    }
}

/// The walk with one more entry, behind the partition at hand.
pub open spec fn with_entry(
    walk: WalkView,
    partition: PartitionView,
    fs_label: Seq<char>,
    fs_error: Option<Seq<char>>,
) -> WalkView {
    WalkView {
        index: walk.index + 1,
        entries: walk.entries.push(EntryView { index: walk.index, partition, fs_label, fs_error }),
        ..walk
    }
}

/// Where a walk goes on: to the partition at hand, or to the document where
/// there is none left.
pub open spec fn onward(walk: WalkView) -> StateView {
    if walk.index < walk.count {
        StateView::FetchEntry { walk }
    } else {
        printed(table_document_text(walk.image, walk.table, walk.entries))
    }
}

/// What is said on the standard error where the sniff of a partition failed.
pub open spec fn entry_warning(index: nat, reason: Seq<char>) -> Seq<char> {
    "diskprobe: partition "@ + decimal(index) + ": filesystem sniff failed: "@ + reason
}

/// What is said on the standard error where the sniff of the whole device
/// failed.
pub open spec fn device_warning(reason: Seq<char>) -> Seq<char> {
    "diskprobe: whole-device filesystem sniff failed: "@ + reason
}

/// Where an event leads, and what is said on the standard error on the way. An
/// event that the state did not ask for leads nowhere.
pub open spec fn next(state: StateView, event: EventView) -> (StateView, Option<Seq<char>>) {
    match (state, event) {
        (StateView::DetectContainer { path }, EventView::Detected(container)) => (
            StateView::OpenFile { path, container },
            None,
        ),
        (StateView::DetectContainer { .. }, EventView::Failed(reason)) => (
            failed(EXIT_OPEN_ERROR as int, "auto-detect: "@ + reason),
            None,
        ),
        (StateView::OpenFile { path, container }, EventView::FileOpened) => (
            StateView::OpenContainer { path, container },
            None,
        ),
        (StateView::OpenFile { .. }, EventView::Failed(reason)) => (
            failed(EXIT_OPEN_ERROR as int, "fs_core_file_open: "@ + reason),
            None,
        ),
        (StateView::OpenContainer { path, container }, EventView::ContainerOpened(size_bytes)) => (
            StateView::Probe { image: ImageView { path, container, size_bytes } },
            None,
        ),
        (StateView::OpenContainer { container, .. }, EventView::Failed(reason)) => (
            failed(EXIT_OPEN_ERROR as int, container.name() + "_open_on_device: "@ + reason),
            None,
        ),
        (StateView::Probe { image }, EventView::Probed { rc, list_is_null, last_error }) => (
            match verdict(rc, list_is_null, last_error) {
                Verdict::Table => StateView::ListTable { image },
                Verdict::NoTable => StateView::SniffDevice { image },
                Verdict::Failed(detail) => failed(
                    EXIT_PROBE_ERROR as int,
                    "partitions_probe: "@ + detail,
                ),
            },
            None,
        ),
        (StateView::SniffDevice { image }, EventView::Sniffed(code)) => (
            if code < 0 {
                StateView::ExplainDevice { image, sniffed: code }
            } else {
                printed(device_document_text(image, fs_label(code), None))
            },
            None,
        ),
        (StateView::ExplainDevice { image, sniffed }, EventView::LastError(text)) => {
            let reason = sniff_failure(sniffed, text);
            (
                printed(device_document_text(image, SNIFF_FAILED_LABEL@, Some(reason))),
                Some(device_warning(reason)),
            )
        },
        (StateView::ListTable { image }, EventView::Listed { table, count }) => (
            onward(WalkView { image, table, count, index: 0, entries: Seq::empty() }),
            None,
        ),
        (StateView::FetchEntry { walk }, EventView::Fetched { rc, partition }) => (
            if rc == ErrorCode::Success {
                StateView::SniffEntry { walk, partition }
            } else {
                onward(WalkView { index: walk.index + 1, ..walk })
            },
            None,
        ),
        (StateView::SniffEntry { walk, partition }, EventView::Sniffed(code)) => (
            if code < 0 {
                StateView::ExplainEntry { walk, partition, sniffed: code }
            } else {
                onward(with_entry(walk, partition, fs_label(code), None))
            },
            None,
        ),
        (StateView::ExplainEntry { walk, partition, sniffed }, EventView::LastError(text)) => {
            let reason = sniff_failure(sniffed, text);
            (
                onward(with_entry(walk, partition, SNIFF_FAILED_LABEL@, Some(reason))),
                Some(entry_warning(walk.index, reason)),
            )
        },
        _ => (state, None),
    }
}

/// Whether an entry can have come out of a walk: its filesystem label is one
/// that a sniff gives, and its GUID is whole.
pub open spec fn entry_wf(entry: EntryView) -> bool {
    &&& is_fs_label(entry.fs_label)
    &&& entry.partition.type_guid.len() == 16
    &&& entry.fs_error is Some <==> entry.fs_label == SNIFF_FAILED_LABEL@
}

/// Whether a walk is under way: there is a partition at hand, and the entries
/// are those of partitions before it, in order.
pub open spec fn walk_wf(walk: WalkView) -> bool {
    &&& walk.index < walk.count <= usize::MAX
    &&& entries_wf(walk.entries, walk.index)
}

/// Whether entries are well formed, in order, and those of partitions before
/// `end`.
pub open spec fn entries_wf(entries: Seq<EntryView>, end: nat) -> bool {
    &&& forall|i: int| 0 <= i < entries.len() ==> entry_wf(#[trigger] entries[i])
    &&& forall|i: int| 0 <= i < entries.len() ==> (#[trigger] entries[i]).index < end
    &&& forall|i: int, j: int|
        0 <= i < j < entries.len() ==> (#[trigger] entries[i]).index < (
        #[trigger] entries[j]).index
}

/// Whether a run may end like this: one of the published codes, something on
/// the standard output exactly where the code is 0, a message on the standard
/// error exactly where it is not, and what is printed is how the program is
/// called or a JSON document.
pub open spec fn exit_wf(exit: ExitView) -> bool {
    &&& EXIT_OK <= exit.code <= EXIT_PROBE_ERROR
    &&& exit.stdout is Some <==> exit.code == EXIT_OK
    &&& exit.stderr is Some <==> exit.code != EXIT_OK
    &&& exit.stdout matches Some(text) ==> text == USAGE@ || read_document(text) is Some
}

/// Whether a run can stand there.
pub open spec fn state_wf(state: StateView) -> bool {
    match state {
        StateView::ExplainDevice { sniffed, .. } => sniffed < 0,
        StateView::FetchEntry { walk } => walk_wf(walk),
        StateView::SniffEntry { walk, partition } => walk_wf(walk) && partition.type_guid.len()
            == 16,
        StateView::ExplainEntry { walk, partition, sniffed } => walk_wf(walk)
            && partition.type_guid.len() == 16 && sniffed < 0,
        StateView::Finished { exit } => exit_wf(exit),
        _ => true,
    }
}

/// Whether an event can happen.
pub open spec fn event_wf(event: EventView) -> bool {
    match event {
        EventView::Listed { count, .. } => count <= usize::MAX,
        EventView::Fetched { partition, .. } => partition.type_guid.len() == 16,
        _ => true,
    }
}

proof fn lemma_onward_wf(walk: WalkView)
    requires
        walk.index <= walk.count <= usize::MAX,
        entries_wf(walk.entries, walk.index),
    ensures
        state_wf(onward(walk)),
{
    if walk.index >= walk.count {
        assert forall|i: int| 0 <= i < walk.entries.len() implies (
        #[trigger] walk.entries[i]).partition.type_guid.len() == 16 && is_fs_label(
            walk.entries[i].fs_label,
        ) by {
            assert(entry_wf(walk.entries[i]));
        }
        law_table_document_reads_back(walk.image, walk.table, walk.entries);
    }
}

proof fn lemma_with_entry_wf(
    walk: WalkView,
    partition: PartitionView,
    label: Seq<char>,
    error: Option<Seq<char>>,
)
    requires
        walk_wf(walk),
        partition.type_guid.len() == 16,
        is_fs_label(label),
        error is Some <==> label == SNIFF_FAILED_LABEL@,
    ensures
        state_wf(onward(with_entry(walk, partition, label, error))),
{
    let after = with_entry(walk, partition, label, error);
    assert forall|i: int| 0 <= i < after.entries.len() implies entry_wf(
        #[trigger] after.entries[i],
    ) && after.entries[i].index < after.index by {
        if i < walk.entries.len() {
            assert(after.entries[i] == walk.entries[i]);
        }
    }
    assert forall|i: int, j: int| 0 <= i < j < after.entries.len() implies (
    #[trigger] after.entries[i]).index < (#[trigger] after.entries[j]).index by {
        assert(after.entries[i] == walk.entries[i]);
        if j < walk.entries.len() {
            assert(after.entries[j] == walk.entries[j]);
        }
    }
    lemma_onward_wf(after);
}

/// A run starts where a run can stand.
pub proof fn law_runs_start_well(args: Seq<Seq<char>>)
    ensures
        state_wf(first_state(args)),
{
}

/// Whatever happens, a run goes on to where a run can stand: in particular
/// every run that ends does so with one of the published exit codes, with a
/// document that is JSON exactly where the code is 0.
pub proof fn law_runs_stay_well(state: StateView, event: EventView)
    requires
        state_wf(state),
        event_wf(event),
    ensures
        state_wf(next(state, event).0),
{
    match (state, event) {
        (StateView::SniffDevice { image }, EventView::Sniffed(code)) => {
            if code >= 0 {
                law_device_document_reads_back(image, fs_label(code), None);
            }
        },
        (StateView::ExplainDevice { image, sniffed }, EventView::LastError(text)) => {
            law_device_document_reads_back(
                image,
                SNIFF_FAILED_LABEL@,
                Some(sniff_failure(sniffed, text)),
            );
        },
        (StateView::ListTable { image }, EventView::Listed { table, count }) => {
            lemma_onward_wf(WalkView { image, table, count, index: 0, entries: Seq::empty() });
        },
        (StateView::FetchEntry { walk }, EventView::Fetched { .. }) => {
            lemma_onward_wf(WalkView { index: walk.index + 1, ..walk });
        },
        (StateView::SniffEntry { walk, partition }, EventView::Sniffed(code)) => {
            law_failed_sniff_is_told_apart(code);
            lemma_with_entry_wf(walk, partition, fs_label(code), None);
        },
        (StateView::ExplainEntry { walk, partition, sniffed }, EventView::LastError(text)) => {
            lemma_with_entry_wf(
                walk,
                partition,
                SNIFF_FAILED_LABEL@,
                Some(sniff_failure(sniffed, text)),
            );
        },
        _ => {},
    }
}

fn fail(code: i32, message: &str) -> (state: State)
    ensures
        state@ == failed(code as int, message@),
{
    State::Finished {
        exit: Exit { code, stdout: None, stderr: Some(joined("diskprobe: ", message)) },
    }
}

fn print(text: String) -> (state: State)
    ensures
        state@ == printed(text@),
{
    State::Finished { exit: Exit { code: EXIT_OK, stdout: Some(text), stderr: None } }
}

fn go_on(walk: Walk) -> (state: State)
    ensures
        state@ == onward(walk@),
{
    if walk.index < walk.count {
        State::FetchEntry { walk }
    } else {
        print(table_document(&walk.image, walk.table, &walk.entries))
    }
}

fn add_entry(
    walk: Walk,
    partition: Partition,
    fs_label: &'static str,
    fs_error: Option<String>,
) -> (state: State)
    requires
        walk.index < usize::MAX,
    ensures
        state@ == onward(with_entry(walk@, partition@, fs_label@, text_of(fs_error))),
{
    let mut entries: Vec<Entry> = walk.entries;
    let ghost before = entries@;
    let entry = Entry { index: walk.index, partition, fs_label, fs_error };
    entries.push(entry);
    assert(views(entries@) =~= views(before).push(entry@));
    go_on(
        Walk {
            image: walk.image,
            table: walk.table,
            count: walk.count,
            index: walk.index + 1,
            entries,
        },
    )
}

/// Decides where a run with these arguments starts.
pub fn start(args: &Vec<String>) -> (state: State)
    ensures
        state@ == first_state(texts(args@)),
        state_wf(state@),
{
    match parse_args(args) {
        Args::Help => print(USAGE.to_string()),
        Args::Invalid(reason) => fail(EXIT_ARG_ERROR, reason.as_str()),
        Args::Probe { path, container } => match container {
            Some(container) => State::OpenFile { path, container },
            None => State::DetectContainer { path },
        },
    }
}

fn container_failed(container: Container, reason: &str) -> (state: State)
    ensures
        state@ == failed(
            EXIT_OPEN_ERROR as int,
            container.name() + "_open_on_device: "@ + reason@,
        ),
{
    let mut message: String = joined(container.label(), "_open_on_device: ");
    message.append(reason);
    fail(EXIT_OPEN_ERROR, message.as_str())
}

fn probed(image: Image, rc: ErrorCode, list_is_null: bool, last_error: &str) -> (state: State)
    ensures
        state@ == (match verdict(rc, list_is_null, last_error@) {
            Verdict::Table => StateView::ListTable { image: image@ },
            Verdict::NoTable => StateView::SniffDevice { image: image@ },
            Verdict::Failed(detail) => failed(
                EXIT_PROBE_ERROR as int,
                "partitions_probe: "@ + detail,
            ),
        }),
{
    match classify_probe(rc, list_is_null, last_error) {
        ProbeOutcome::Table => State::ListTable { image },
        ProbeOutcome::NoTable => State::SniffDevice { image },
        ProbeOutcome::Failed(detail) => fail(
            EXIT_PROBE_ERROR,
            joined("partitions_probe: ", detail.as_str()).as_str(),
        ),
    }
}

fn device_sniffed(image: Image, code: i32) -> (state: State)
    ensures
        state@ == (if code < 0 {
            StateView::ExplainDevice { image: image@, sniffed: code as int }
        } else {
            printed(device_document_text(image@, fs_label(code as int), None))
        }),
{
    match sniff_outcome(code, || -> (d: String) { String::new() }) {
        Ok(label) => print(device_document(&image, label, &None)),
        Err(_) => State::ExplainDevice { image, sniffed: code },
    }
}

fn entry_sniffed(walk: Walk, partition: Partition, code: i32) -> (state: State)
    requires
        walk.index < usize::MAX,
    ensures
        state@ == (if code < 0 {
            StateView::ExplainEntry { walk: walk@, partition: partition@, sniffed: code as int }
        } else {
            onward(with_entry(walk@, partition@, fs_label(code as int), None))
        }),
{
    match sniff_outcome(code, || -> (d: String) { String::new() }) {
        Ok(label) => add_entry(walk, partition, label, None),
        Err(_) => State::ExplainEntry { walk, partition, sniffed: code },
    }
}

fn explained(sniffed: i32, text: String) -> (reason: String)
    requires
        sniffed < 0,
    ensures
        reason@ == sniff_failure(sniffed as int, text@),
{
    let detail = || -> (d: String) ensures d == text { text };
    match sniff_outcome(sniffed, detail) {
        Ok(label) => label.to_string(),
        Err(reason) => reason,
    }
}

fn device_explained(image: Image, sniffed: i32, text: String) -> (step: (State, String))
    requires
        sniffed < 0,
    ensures
        step.0@ == printed(
            device_document_text(
                image@,
                SNIFF_FAILED_LABEL@,
                Some(sniff_failure(sniffed as int, text@)),
            ),
        ),
        step.1@ == device_warning(sniff_failure(sniffed as int, text@)),
{
    let reason: String = explained(sniffed, text);
    let warning: String = joined(
        "diskprobe: whole-device filesystem sniff failed: ",
        reason.as_str(),
    );
    (print(device_document(&image, SNIFF_FAILED_LABEL, &Some(reason))), warning)
}

fn entry_explained(walk: Walk, partition: Partition, sniffed: i32, text: String) -> (step: (
    State,
    String,
))
    requires
        sniffed < 0,
        walk.index < usize::MAX,
    ensures
        step.0@ == onward(
            with_entry(
                walk@,
                partition@,
                SNIFF_FAILED_LABEL@,
                Some(sniff_failure(sniffed as int, text@)),
            ),
        ),
        step.1@ == entry_warning(walk@.index, sniff_failure(sniffed as int, text@)),
{
    let reason: String = explained(sniffed, text);
    let mut warning: String = "diskprobe: partition ".to_string();
    push_decimal(&mut warning, walk.index as u64);
    warning.append(": filesystem sniff failed: ");
    warning.append(reason.as_str());
    assert(warning@ =~= entry_warning(walk@.index, reason@));
    (add_entry(walk, partition, SNIFF_FAILED_LABEL, Some(reason)), warning)
}

/// Decides where an event leads, and what is said on the standard error on the
/// way.
pub fn advance(state: State, event: Event) -> (step: (State, Option<String>))
    requires
        state_wf(state@),
    ensures
        step.0@ == next(state@, event@).0,
        text_of(step.1) == next(state@, event@).1,
        state_wf(step.0@),
{
    proof {
        law_runs_stay_well(state@, event@);
    }
    match (state, event) {
        (State::DetectContainer { path }, Event::Detected(container)) => (
            State::OpenFile { path, container },
            None,
        ),
        (State::DetectContainer { .. }, Event::Failed(reason)) => (
            fail(EXIT_OPEN_ERROR, joined("auto-detect: ", reason.as_str()).as_str()),
            None,
        ),
        (State::OpenFile { path, container }, Event::FileOpened) => (
            State::OpenContainer { path, container },
            None,
        ),
        (State::OpenFile { .. }, Event::Failed(reason)) => (
            fail(EXIT_OPEN_ERROR, joined("fs_core_file_open: ", reason.as_str()).as_str()),
            None,
        ),
        (State::OpenContainer { path, container }, Event::ContainerOpened(size_bytes)) => (
            State::Probe { image: Image { path, container, size_bytes } },
            None,
        ),
        (State::OpenContainer { container, .. }, Event::Failed(reason)) => (
            container_failed(container, reason.as_str()),
            None,
        ),
        (State::Probe { image }, Event::Probed { rc, list_is_null, last_error }) => (
            probed(image, rc, list_is_null, last_error.as_str()),
            None,
        ),
        (State::SniffDevice { image }, Event::Sniffed(code)) => (
            device_sniffed(image, code),
            None,
        ),
        (State::ExplainDevice { image, sniffed }, Event::LastError(text)) => {
            let (state, warning) = device_explained(image, sniffed, text);
            (state, Some(warning))
        },
        (State::ListTable { image }, Event::Listed { table, count }) => {
            let walk = Walk { image, table, count, index: 0, entries: Vec::new() };
            assert(walk@.entries =~= Seq::empty());
            (go_on(walk), None)
        },
        (State::FetchEntry { walk }, Event::Fetched { rc, partition }) => {
            if rc == ErrorCode::Success {
                (State::SniffEntry { walk, partition }, None)
            } else {
                let index: usize = walk.index + 1;
                (go_on(Walk { index, ..walk }), None)
            }
        },
        (State::SniffEntry { walk, partition }, Event::Sniffed(code)) => (
            entry_sniffed(walk, partition, code),
            None,
        ),
        (State::ExplainEntry { walk, partition, sniffed }, Event::LastError(text)) => {
            let (state, warning) = entry_explained(walk, partition, sniffed, text);
            (state, Some(warning))
        },
        (state, _) => (state, None),
    }
}

/// Where a run stands after these events, in order.
pub open spec fn run(state: StateView, events: Seq<EventView>) -> StateView
    decreases events.len(),
{
    if events.len() == 0 {
        state
    } else {
        next(run(state, events.drop_last()), events.last()).0
    }
}

/// Every run that ends does so with a published exit code, with something on
/// the standard output exactly where the code is 0, and with nothing there
/// but a JSON document, or the usage where that was asked for.
pub proof fn law_every_run_ends_well(args: Seq<Seq<char>>, events: Seq<EventView>)
    requires
        forall|i: int| 0 <= i < events.len() ==> event_wf(#[trigger] events[i]),
    ensures
        state_wf(run(first_state(args), events)),
        run(first_state(args), events) matches StateView::Finished { exit } ==> exit_wf(exit),
    decreases events.len(),
{
    if events.len() == 0 {
        law_runs_start_well(args);
    } else {
        let init = events.drop_last();
        assert forall|i: int| 0 <= i < init.len() implies event_wf(#[trigger] init[i]) by {
            assert(init[i] == events[i]);
        }
        law_every_run_ends_well(args, init);
        assert(event_wf(events[events.len() - 1]));
        law_runs_stay_well(run(first_state(args), init), events.last());
    }
}

/// A run that has ended stays as it ended.
pub proof fn law_the_end_is_final(exit: ExitView, event: EventView)
    ensures
        next(StateView::Finished { exit }, event) == (StateView::Finished { exit }, None::<
            Seq<char>,
        >),
{
}

/// A run that is under way ends with the code for a probe error exactly where
/// a probe failed: a disk without a partition table is no such case.
pub proof fn law_probe_error_means_unreadable_table(state: StateView, event: EventView)
    requires
        !(state is Finished),
    ensures
        next(state, event).0 matches StateView::Finished { exit } && exit.code == EXIT_PROBE_ERROR
            <==> state is Probe && (event matches EventView::Probed { rc, list_is_null, last_error }
            && verdict(rc, list_is_null, last_error) is Failed),
{
}

/// A run that is under way ends with the code for an open error exactly where
/// detecting or opening failed.
pub proof fn law_open_error_means_not_opened(state: StateView, event: EventView)
    requires
        !(state is Finished),
    ensures
        next(state, event).0 matches StateView::Finished { exit } && exit.code == EXIT_OPEN_ERROR
            <==> (state is DetectContainer || state is OpenFile || state is OpenContainer)
            && event is Failed,
{
}

/// A run ends with the code for an argument error exactly where its arguments
/// make no sense, before anything is opened.
pub proof fn law_argument_error_means_bad_arguments(args: Seq<Seq<char>>)
    ensures
        first_state(args) matches StateView::Finished { exit } && exit.code == EXIT_ARG_ERROR
            <==> asked(args) is Invalid,
        first_state(args) is Finished <==> asked(args) is Invalid || asked(args) is Help,
{
}

/// A disk without a partition table is a normal answer: the run ends with code
/// 0 and a document that says `none`, whether a filesystem was recognised on
/// the whole device, none was, or the sniff failed.
pub proof fn law_unpartitioned_disk_is_reported(
    image: ImageView,
    rc: ErrorCode,
    list_is_null: bool,
    last_error: Seq<char>,
    code: int,
    text: Seq<char>,
)
    requires
        verdict(rc, list_is_null, last_error) == Verdict::NoTable,
    ensures
        ({
            let probed = EventView::Probed { rc, list_is_null, last_error };
            let state = StateView::Probe { image };
            if code < 0 {
                let reason = sniff_failure(code, text);
                let end = run(
                    state,
                    seq![probed, EventView::Sniffed(code), EventView::LastError(text)],
                );
                &&& end == printed(
                    device_document_text(image, SNIFF_FAILED_LABEL@, Some(reason)),
                )
                &&& read_document(end->exit.stdout->0) == Some(
                    device_json(image, SNIFF_FAILED_LABEL@, Some(reason)),
                )
            } else {
                let end = run(state, seq![probed, EventView::Sniffed(code)]);
                &&& end == printed(device_document_text(image, fs_label(code), None))
                &&& read_document(end->exit.stdout->0) == Some(
                    device_json(image, fs_label(code), None),
                )
            }
        }),
{
    let probed = EventView::Probed { rc, list_is_null, last_error };
    let state = StateView::Probe { image };
    let e1 = seq![probed];
    let e2 = seq![probed, EventView::Sniffed(code)];
    let e3 = seq![probed, EventView::Sniffed(code), EventView::LastError(text)];
    assert(e1.drop_last() =~= Seq::empty());
    assert(e2.drop_last() =~= e1);
    assert(e3.drop_last() =~= e2);
    assert(run(state, Seq::empty()) == state);
    assert(run(state, e1) == StateView::SniffDevice { image });
    if code < 0 {
        assert(run(state, e2) == StateView::ExplainDevice { image, sniffed: code });
        law_device_document_reads_back(
            image,
            SNIFF_FAILED_LABEL@,
            Some(sniff_failure(code, text)),
        );
    } else {
        law_device_document_reads_back(image, fs_label(code), None);
    }
}

/// What came of one partition: whether it could be fetched, what the sniff
/// returned, and the message where it failed.
pub struct Reply {
    pub rc: ErrorCode,
    pub partition: PartitionView,
    pub sniffed: int,
    pub text: Seq<char>,
}

/// The events of one partition.
pub open spec fn events_of(reply: Reply) -> Seq<EventView> {
    let fetched = EventView::Fetched { rc: reply.rc, partition: reply.partition };
    if reply.rc != ErrorCode::Success {
        seq![fetched]
    } else if reply.sniffed < 0 {
        seq![fetched, EventView::Sniffed(reply.sniffed), EventView::LastError(reply.text)]
    } else {
        seq![fetched, EventView::Sniffed(reply.sniffed)]
    }
}

/// The entry of the partition at `index`, which is left out where it could not
/// be fetched. A failed sniff is reported in the entry itself.
pub open spec fn entry_of(index: nat, reply: Reply) -> Seq<EntryView> {
    if reply.rc != ErrorCode::Success {
        Seq::empty()
    } else if reply.sniffed < 0 {
        seq![
            EntryView {
                index,
                partition: reply.partition,
                fs_label: SNIFF_FAILED_LABEL@,
                fs_error: Some(sniff_failure(reply.sniffed, reply.text)),
            },
        ]
    } else {
        seq![
            EntryView {
                index,
                partition: reply.partition,
                fs_label: fs_label(reply.sniffed),
                fs_error: None,
            },
        ]
    }
}

/// The events of these partitions, in order.
pub open spec fn all_events(replies: Seq<Reply>) -> Seq<EventView>
    decreases replies.len(),
{
    if replies.len() == 0 {
        Seq::empty()
    } else {
        all_events(replies.drop_last()) + events_of(replies.last())
    }
}

/// The entries of these partitions, in order.
pub open spec fn all_entries(replies: Seq<Reply>) -> Seq<EntryView>
    decreases replies.len(),
{
    if replies.len() == 0 {
        Seq::empty()
    } else {
        all_entries(replies.drop_last()) + entry_of((replies.len() - 1) as nat, replies.last())
    }
}

pub(crate) proof fn lemma_run_in_parts(state: StateView, a: Seq<EventView>, b: Seq<EventView>)
    ensures
        run(state, a + b) == run(run(state, a), b),
    decreases b.len(),
{
    if b.len() == 0 {
        assert(a + b =~= a);
    } else {
        assert((a + b).drop_last() =~= a + b.drop_last());
        lemma_run_in_parts(state, a, b.drop_last());
    }
}

proof fn lemma_one_partition(walk: WalkView, reply: Reply)
    requires
        walk.index < walk.count,
    ensures
        run(StateView::FetchEntry { walk }, events_of(reply)) == onward(
            WalkView {
                index: walk.index + 1,
                entries: walk.entries + entry_of(walk.index, reply),
                ..walk
            },
        ),
{
    let state = StateView::FetchEntry { walk };
    let fetched = EventView::Fetched { rc: reply.rc, partition: reply.partition };
    let sniffed = EventView::Sniffed(reply.sniffed);
    let e1 = seq![fetched];
    let e2 = seq![fetched, sniffed];
    let e3 = seq![fetched, sniffed, EventView::LastError(reply.text)];
    assert(e1.drop_last() =~= Seq::empty());
    assert(e2.drop_last() =~= e1);
    assert(e3.drop_last() =~= e2);
    assert(run(state, Seq::empty()) == state);
    let partition = reply.partition;
    if reply.rc != ErrorCode::Success {
        assert(walk.entries + entry_of(walk.index, reply) =~= walk.entries);
    } else {
        assert(run(state, e1) == StateView::SniffEntry { walk, partition });
        let reason = sniff_failure(reply.sniffed, reply.text);
        if reply.sniffed < 0 {
            assert(run(state, e2) == StateView::ExplainEntry {
                walk,
                partition,
                sniffed: reply.sniffed,
            });
            assert(walk.entries + entry_of(walk.index, reply) =~= with_entry(
                walk,
                partition,
                SNIFF_FAILED_LABEL@,
                Some(reason),
            ).entries);
        } else {
            assert(walk.entries + entry_of(walk.index, reply) =~= with_entry(
                walk,
                partition,
                fs_label(reply.sniffed),
                None,
            ).entries);
        }
    }
}

pub(crate) proof fn lemma_walk(image: ImageView, table: int, count: nat, replies: Seq<Reply>)
    requires
        replies.len() <= count,
    ensures
        run(
            onward(WalkView { image, table, count, index: 0, entries: Seq::empty() }),
            all_events(replies),
        ) == onward(
            WalkView { image, table, count, index: replies.len(), entries: all_entries(replies) },
        ),
    decreases replies.len(),
{
    let begin = onward(WalkView { image, table, count, index: 0, entries: Seq::empty() });
    if replies.len() > 0 {
        let init = replies.drop_last();
        lemma_walk(image, table, count, init);
        lemma_run_in_parts(begin, all_events(init), events_of(replies.last()));
        let walk = WalkView {
            image,
            table,
            count,
            index: init.len(),
            entries: all_entries(init),
        };
        lemma_one_partition(walk, replies.last());
    }
}

/// A walk visits every partition once and in order, and the document holds an
/// entry for each one that could be fetched, with its place in the table: a
/// failed sniff does not stop it, and neither does a partition that could not
/// be fetched.
pub proof fn law_document_holds_every_partition(
    image: ImageView,
    table: int,
    replies: Seq<Reply>,
)
    ensures
        run(
            StateView::ListTable { image },
            seq![EventView::Listed { table, count: replies.len() }] + all_events(replies),
        ) == printed(table_document_text(image, table, all_entries(replies))),
{
    let state = StateView::ListTable { image };
    let listed = seq![EventView::Listed { table, count: replies.len() }];
    lemma_run_in_parts(state, listed, all_events(replies));
    assert(listed.drop_last() =~= Seq::empty());
    assert(run(state, Seq::empty()) == state);
    assert(run(state, listed) == next(state, listed.last()).0);
    lemma_walk(image, table, replies.len(), replies);
}

proof fn lemma_all_entries_wf(replies: Seq<Reply>)
    requires
        forall|i: int|
            0 <= i < replies.len() ==> (#[trigger] replies[i]).partition.type_guid.len() == 16,
    ensures
        forall|i: int|
            0 <= i < all_entries(replies).len() ==> entry_wf(#[trigger] all_entries(replies)[i]),
    decreases replies.len(),
{
    if replies.len() > 0 {
        let init = replies.drop_last();
        let last = replies.last();
        assert forall|i: int| 0 <= i < init.len() implies (
        #[trigger] init[i]).partition.type_guid.len() == 16 by {
            assert(init[i] == replies[i]);
        }
        lemma_all_entries_wf(init);
        assert(last == replies[replies.len() - 1]);
        law_failed_sniff_is_told_apart(last.sniffed);
        let entries = all_entries(replies);
        let added = entry_of((replies.len() - 1) as nat, last);
        assert forall|i: int| 0 <= i < entries.len() implies entry_wf(#[trigger] entries[i]) by {
            if i < all_entries(init).len() {
                assert(entries[i] == all_entries(init)[i]);
            } else {
                assert(entries[i] == added[i - all_entries(init).len()]);
            }
        }
    }
}

/// Whoever parses the document of a walk gets back every partition that could
/// be fetched, and the reason of a failed sniff exactly where the kind is
/// `error`.
pub proof fn law_every_partition_reads_back(image: ImageView, table: int, replies: Seq<Reply>)
    requires
        forall|i: int|
            0 <= i < replies.len() ==> (#[trigger] replies[i]).partition.type_guid.len() == 16,
    ensures
        read_document(table_document_text(image, table, all_entries(replies))) == Some(
            table_json(image, table, all_entries(replies)),
        ),
        forall|i: int|
            0 <= i < all_entries(replies).len() ==> ((
            #[trigger] all_entries(replies)[i]).fs_error is Some <==> all_entries(
                replies,
            )[i].fs_label == SNIFF_FAILED_LABEL@),
{
    lemma_all_entries_wf(replies);
    let entries = all_entries(replies);
    assert forall|i: int| 0 <= i < entries.len() implies (
    #[trigger] entries[i]).partition.type_guid.len() == 16 && is_fs_label(
        entries[i].fs_label,
    ) by {
        assert(entry_wf(entries[i]));
    }
    law_table_document_reads_back(image, table, entries);
}

/// Whether an event is one that the state asks for.
pub open spec fn answers(event: EventView, state: StateView) -> bool {
    match state {
        StateView::DetectContainer { .. } => event is Detected || event is Failed,
        StateView::OpenFile { .. } => event is FileOpened || event is Failed,
        StateView::OpenContainer { .. } => event is ContainerOpened || event is Failed,
        StateView::Probe { .. } => event is Probed,
        StateView::SniffDevice { .. } => event is Sniffed,
        StateView::ExplainDevice { .. } => event is LastError,
        StateView::ListTable { .. } => event is Listed,
        StateView::FetchEntry { .. } => event is Fetched,
        StateView::SniffEntry { .. } => event is Sniffed,
        StateView::ExplainEntry { .. } => event is LastError,
        StateView::Finished { .. } => false,
    }
}

/// How many stages a run has before it.
pub open spec fn stages_left(state: StateView) -> nat {
    match state {
        StateView::DetectContainer { .. } => 6,
        StateView::OpenFile { .. } => 5,
        StateView::OpenContainer { .. } => 4,
        StateView::Probe { .. } => 3,
        StateView::SniffDevice { .. } => 2,
        StateView::ListTable { .. } => 2,
        StateView::Finished { .. } => 0,
        _ => 1,
    }
}

/// How many events a run has before it at most in the stage that it is in.
pub open spec fn events_left(state: StateView) -> int {
    match state {
        StateView::FetchEntry { walk } => 3 * (walk.count - walk.index),
        StateView::SniffEntry { walk, .. } => 3 * (walk.count - walk.index) - 1,
        StateView::ExplainEntry { walk, .. } => 3 * (walk.count - walk.index) - 2,
        _ => 0,
    }
}

/// A run that gets the events it asks for comes to an end: each of them takes
/// it to a later stage, or further along the walk.
pub proof fn law_every_answer_is_progress(state: StateView, event: EventView)
    requires
        state_wf(state),
        answers(event, state),
    ensures
        ({
            let after = next(state, event).0;
            ||| stages_left(after) < stages_left(state)
            ||| stages_left(after) == stages_left(state) && 0 <= events_left(after) < events_left(
                state,
            )
        }),
{
}

} // verus!
