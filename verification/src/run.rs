//! What whole runs come to, from the arguments to the document.
//!
//! Everything here is stated of the arguments, states and events themselves:
//! of runs that begin with what [`crate::session::start`] returns, and go on
//! with what [`crate::session::advance`] returns.

use vstd::prelude::*;

use crate::args::{asked, asks_to_probe, lemma_probe_is_asked, texts, Args, USAGE};
use crate::container::Container;
use crate::kinds::{
    fs_label, law_failed_sniff_is_told_apart, law_other_tables_are_none, law_reason_is_kept,
    sniff_failure, table_label,
};
use crate::meaning::{
    describes, entries_json, entry_json, is_fs_label, law_device_document_reads_back,
    law_table_document_reads_back, lemma_described, partitions_of, tells_of, tells_of_device,
};
use crate::probe::{lemma_verdict, says_no_table, ErrorCode};
use crate::report::{
    device_document_text, table_document_text, text_of, Image, ImageView, Partition, PartitionView,
};
use crate::session::{
    all_entries, all_events, answers, entry_of, entry_wf, events_of, first_state,
    law_every_partition_reads_back, law_runs_stay_well, lemma_run_in_parts, lemma_walk, next,
    onward, printed, run, state_wf, walk_wf, with_entry, Event, EventView, Reply, State, StateView,
    WalkView,
};
use crate::text::{decimal, signed_decimal};
use crate::value::{read_document, Json};

verus! {

/// Whether a run with these arguments starts here.
pub open spec fn started(args: Seq<String>, state: State) -> bool {
    state@ == first_state(texts(args))
}

/// Whether an event leads from one state to another.
#[verifier::opaque]
pub open spec fn leads(state: State, event: Event, after: State) -> bool {
    after@ == next(state@, event@).0
}

/// Whether these are the states of a run that these events happened in.
pub open spec fn stepped(states: Seq<State>, events: Seq<Event>) -> bool {
    &&& states.len() == events.len() + 1
    &&& forall|i: int|
        0 <= i < events.len() ==> leads(states[i], #[trigger] events[i], states[i + 1])
}

/// Whether an optional string holds this text, or none.
pub open spec fn holds(s: Option<String>, text: Option<Seq<char>>) -> bool {
    match (s, text) {
        (Some(s), Some(text)) => s@ == text,
        (None, None) => true,
        _ => false,
    }
}

/// Whether a run ended with this code, this on the standard output and this on
/// the standard error.
pub open spec fn ended(
    state: State,
    code: int,
    stdout: Option<Seq<char>>,
    stderr: Option<Seq<char>>,
) -> bool {
    state matches State::Finished { exit } && exit.code == code && holds(exit.stdout, stdout)
        && holds(exit.stderr, stderr)
}

/// Whether a run ended well with a JSON document.
pub open spec fn documented(state: State) -> bool {
    state matches State::Finished { exit } && exit.code == 0 && exit.stderr is None && (
    exit.stdout matches Some(text) && read_document(text@) is Some)
}

/// The document that a run ended with.
pub open spec fn document_of(state: State) -> Json {
    read_document(state->exit.stdout->0@)->0
}

/// Whether an image is this one.
pub open spec fn is_image(
    image: Image,
    path: Seq<char>,
    container: Container,
    size_bytes: u64,
) -> bool {
    image.path@ == path && image.container == container && image.size_bytes == size_bytes
}

/// The arguments decide how a run starts: with an answer to a request for help,
/// with an error, with detecting the container of the path, or with opening the
/// path where a container was named.
pub proof fn law_arguments_start_the_run(args: Seq<String>, request: Args, state: State)
    requires
        request@ == asked(texts(args)),
        started(args, state),
    ensures
        request is Help ==> ended(state, 0, Some(USAGE@), None),
        request matches Args::Invalid(reason) ==> ended(
            state,
            1,
            None,
            Some("diskprobe: "@ + reason@),
        ),
        request matches Args::Probe { path, container } ==> match container {
            Some(container) => state matches State::OpenFile { path: opened, container: kind }
                && opened@ == path@ && kind == container,
            None => state matches State::DetectContainer { path: opened } && opened@ == path@,
        },
{
}

proof fn lemma_detect_step(state: State, event: Event, after: State)
    requires
        leads(state, event, after),
    ensures
        state matches State::DetectContainer { path } ==> {
            &&& event matches Event::Detected(kind) ==> (after matches State::OpenFile {
                path: p,
                container,
            } && p@ == path@ && container == kind)
            &&& event matches Event::Failed(reason) ==> ended(
                after,
                2,
                None,
                Some("diskprobe: "@ + ("auto-detect: "@ + reason@)),
            )
        },
{
    reveal(leads);
}

proof fn lemma_open_step(state: State, event: Event, after: State)
    requires
        leads(state, event, after),
    ensures
        state matches State::OpenFile { path, container } ==> {
            &&& event is FileOpened ==> (after matches State::OpenContainer {
                path: p,
                container: kind,
            } && p@ == path@ && kind == container)
            &&& event matches Event::Failed(reason) ==> ended(
                after,
                2,
                None,
                Some("diskprobe: "@ + ("fs_core_file_open: "@ + reason@)),
            )
        },
{
    reveal(leads);
}

proof fn lemma_container_step(state: State, event: Event, after: State)
    requires
        leads(state, event, after),
    ensures
        state matches State::OpenContainer { path, container } ==> {
            &&& event matches Event::ContainerOpened(size_bytes) ==> (after matches State::Probe {
                image,
            } && is_image(image, path@, container, size_bytes))
            &&& event matches Event::Failed(reason) ==> ended(
                after,
                2,
                None,
                Some("diskprobe: "@ + (container.name() + "_open_on_device: "@ + reason@)),
            )
        },
{
    reveal(leads);
}

proof fn lemma_start(args: Seq<String>, path: Seq<char>, named: Option<Container>, state: State)
    requires
        asks_to_probe(args, path, named),
        started(args, state),
    ensures
        match named {
            Some(container) => state matches State::OpenFile { path: p, container: kind } && p@
                == path && kind == container,
            None => state matches State::DetectContainer { path: p } && p@ == path,
        },
{
    lemma_probe_is_asked(args, path, named);
}

/// The events up to an open image: the container that was detected, unless one
/// was named, then the file and the disk inside.
pub open spec fn opening(named: Option<Container>, container: Container, size_bytes: u64) -> Seq<
    Event,
> {
    match named {
        Some(_) => seq![Event::FileOpened, Event::ContainerOpened(size_bytes)],
        None => seq![
            Event::Detected(container),
            Event::FileOpened,
            Event::ContainerOpened(size_bytes),
        ],
    }
}

/// What is probed is the path that was asked for, in the container that was
/// named, or detected where none was, and with the size of the disk inside: on
/// the way there, that path is detected and opened, with the reader of that
/// container.
pub proof fn law_image_is_opened_as_asked(
    args: Seq<String>,
    path: Seq<char>,
    named: Option<Container>,
    container: Container,
    size_bytes: u64,
    states: Seq<State>,
    events: Seq<Event>,
)
    requires
        asks_to_probe(args, path, named),
        named matches Some(kind) ==> kind == container,
        started(args, states[0]),
        stepped(states, events),
        events.len() >= opening(named, container, size_bytes).len(),
        events.take(opening(named, container, size_bytes).len() as int) == opening(
            named,
            container,
            size_bytes,
        ),
    ensures
        named is None ==> (states[0] matches State::DetectContainer { path: p } && p@ == path),
        ({
            let d: int = if named is None {
                1
            } else {
                0
            };
            &&& states[d] matches State::OpenFile { path: p, container: kind } && p@ == path && kind
                == container
            &&& states[d + 1] matches State::OpenContainer { path: p, container: kind } && p@
                == path && kind == container
            &&& states[d + 2] matches State::Probe { image } && is_image(
                image,
                path,
                container,
                size_bytes,
            )
        }),
{
    lemma_start(args, path, named, states[0]);
    let all = opening(named, container, size_bytes);
    let begun = events.take(all.len() as int);
    let d: int = if named is None {
        1
    } else {
        0
    };
    if named is None {
        assert(events[0] == begun[0]);
        lemma_detect_step(states[0], events[0], states[0 + 1int]);
    }
    assert(events[d] == begun[d]);
    lemma_open_step(states[d], events[d], states[d + 1]);
    assert(events[d + 1] == begun[d + 1]);
    lemma_container_step(states[d + 1], events[d + 1], states[(d + 1) + 1]);
}

/// A run that cannot detect the container, open the file or open the container
/// in it ends with code 2, prints nothing, and says which of them failed, for
/// which container, and the whole reason.
pub proof fn law_what_cannot_be_opened_is_told(
    args: Seq<String>,
    path: Seq<char>,
    named: Option<Container>,
    container: Container,
    states: Seq<State>,
    events: Seq<Event>,
    reason: String,
)
    requires
        asks_to_probe(args, path, named),
        named matches Some(kind) ==> kind == container,
        started(args, states[0]),
        stepped(states, events),
    ensures
        named is None && events == seq![Event::Failed(reason)] ==> ended(
            states.last(),
            2,
            None,
            Some("diskprobe: "@ + ("auto-detect: "@ + reason@)),
        ),
        named is None && events == seq![Event::Detected(container), Event::Failed(reason)] ==> ended(
            states.last(),
            2,
            None,
            Some("diskprobe: "@ + ("fs_core_file_open: "@ + reason@)),
        ),
        named is Some && events == seq![Event::Failed(reason)] ==> ended(
            states.last(),
            2,
            None,
            Some("diskprobe: "@ + ("fs_core_file_open: "@ + reason@)),
        ),
        named is None && events == seq![
            Event::Detected(container),
            Event::FileOpened,
            Event::Failed(reason),
        ] ==> ended(
            states.last(),
            2,
            None,
            Some("diskprobe: "@ + (container.name() + "_open_on_device: "@ + reason@)),
        ),
        named is Some && events == seq![Event::FileOpened, Event::Failed(reason)] ==> ended(
            states.last(),
            2,
            None,
            Some("diskprobe: "@ + (container.name() + "_open_on_device: "@ + reason@)),
        ),
{
    lemma_start(args, path, named, states[0]);
    let d: int = if named is None {
        1
    } else {
        0
    };
    if named is None && events.len() > 0 {
        lemma_detect_step(states[0], events[0], states[0 + 1int]);
    }
    if events.len() > d {
        lemma_open_step(states[d], events[d], states[d + 1]);
    }
    if events.len() > d + 1 {
        lemma_container_step(states[d + 1], events[d + 1], states[(d + 1) + 1]);
    }
}

/// A probe with a usable list leads to the table of that image, whatever
/// container it is in; one that finds no table leads to a sniff of that image;
/// and every other one ends the run with code 3, with nothing printed and the
/// whole reason told.
pub proof fn law_probe_leads_on(
    image: Image,
    rc: ErrorCode,
    list_is_null: bool,
    last_error: String,
    state: State,
    event: Event,
    after: State,
)
    requires
        state == (State::Probe { image }),
        event == (Event::Probed { rc, list_is_null, last_error }),
        leads(state, event, after),
    ensures
        rc == ErrorCode::Success && !list_is_null ==> (after matches State::ListTable { image: same }
            && is_image(same, image.path@, image.container, image.size_bytes)),
        rc != ErrorCode::Success && says_no_table(last_error@) ==> (
        after matches State::SniffDevice { image: same } && is_image(
            same,
            image.path@,
            image.container,
            image.size_bytes,
        )),
        rc == ErrorCode::Success && list_is_null ==> ended(
            after,
            3,
            None,
            Some(
                "diskprobe: "@ + ("partitions_probe: "@
                    + "reported success but returned a NULL partition list"@),
            ),
        ),
        rc != ErrorCode::Success && !says_no_table(last_error@) && last_error@.len() > 0 ==> ended(
            after,
            3,
            None,
            Some("diskprobe: "@ + ("partitions_probe: "@ + last_error@)),
        ),
        rc != ErrorCode::Success && last_error@.len() == 0 ==> ended(
            after,
            3,
            None,
            Some(
                "diskprobe: "@ + ("partitions_probe: "@ + ("failed with "@ + rc.spelled()
                    + " (no detail recorded)"@)),
            ),
        ),
{
    reveal(leads);
    lemma_verdict(rc, list_is_null, last_error@);
    if last_error@.len() == 0 {
        lemma_message_is_not_empty(last_error@);
    }
}

proof fn lemma_message_is_not_empty(text: Seq<char>)
    requires
        text.len() == 0,
    ensures
        !says_no_table(text),
{
    reveal_strlit("no GPT or MBR signature found");
}

/// The reason that is told where a sniff came back with `code` and left `text`
/// behind: the text, or the code where there is none.
pub open spec fn told_reason(code: int, text: Seq<char>) -> Seq<char> {
    if text.len() > 0 {
        text
    } else {
        "sniff returned "@ + signed_decimal(code) + " with no detail recorded"@
    }
}

/// The events of a disk without a table: the probe, the sniff, and the message
/// where it failed.
pub open spec fn device_events(
    rc: ErrorCode,
    list_is_null: bool,
    last_error: String,
    code: i32,
    text: String,
) -> Seq<Event> {
    let probed = Event::Probed { rc, list_is_null, last_error };
    if code < 0 {
        seq![probed, Event::Sniffed(code), Event::LastError(text)]
    } else {
        seq![probed, Event::Sniffed(code)]
    }
}

/// A disk without a table is a normal answer. The image that was probed is
/// sniffed, and the document tells that image, no partition, and the filesystem
/// on the whole device, or that the sniff failed, and why.
pub proof fn law_device_is_told(
    image: Image,
    rc: ErrorCode,
    list_is_null: bool,
    last_error: String,
    code: i32,
    text: String,
    states: Seq<State>,
    events: Seq<Event>,
)
    requires
        states[0] == (State::Probe { image }),
        stepped(states, events),
        rc != ErrorCode::Success,
        says_no_table(last_error@),
        events == device_events(rc, list_is_null, last_error, code, text),
    ensures
        states[1] matches State::SniffDevice { image: same } && is_image(
            same,
            image.path@,
            image.container,
            image.size_bytes,
        ),
        documented(states.last()),
        tells_of(
            document_of(states.last()),
            image.path@,
            image.container,
            image.size_bytes as nat,
            "none"@,
        ),
        partitions_of(document_of(states.last())).len() == 0,
        code >= 0 ==> tells_of_device(
            document_of(states.last()),
            fs_label(code as int),
            None,
        ),
        code < 0 ==> tells_of_device(
            document_of(states.last()),
            "error"@,
            Some(told_reason(code as int, text@)),
        ),
{
    law_probe_leads_on(
        image,
        rc,
        list_is_null,
        last_error,
        states[0],
        events[0],
        states[0 + 1int],
    );
    let same = states[1]->SniffDevice_image;
    lemma_sniff_step(same, states[1], events[1], states[1 + 1int]);
    if code < 0 {
        let explained = states[2]->ExplainDevice_image;
        lemma_explain_step(explained, code, text, states[2], events[2], states[2 + 1int]);
    }
}

proof fn lemma_told_device(
    image: Image,
    label: Seq<char>,
    error: Option<Seq<char>>,
    after: State,
)
    requires
        is_fs_label(label),
        after@ == printed(device_document_text(image@, label, error)),
    ensures
        documented(after),
        tells_of(
            document_of(after),
            image.path@,
            image.container,
            image.size_bytes as nat,
            "none"@,
        ),
        partitions_of(document_of(after)).len() == 0,
        tells_of_device(document_of(after), label, error),
{
    law_device_document_reads_back(image@, label, error);
}

proof fn lemma_sniff_step(image: Image, state: State, event: Event, after: State)
    requires
        state == (State::SniffDevice { image }),
        event is Sniffed,
        leads(state, event, after),
    ensures
        event->Sniffed_0 < 0 ==> (after matches State::ExplainDevice { image: same, sniffed }
            && is_image(same, image.path@, image.container, image.size_bytes) && sniffed
            == event->Sniffed_0),
        event->Sniffed_0 >= 0 ==> {
            &&& documented(after)
            &&& tells_of(
                document_of(after),
                image.path@,
                image.container,
                image.size_bytes as nat,
                "none"@,
            )
            &&& partitions_of(document_of(after)).len() == 0
            &&& tells_of_device(document_of(after), fs_label(event->Sniffed_0 as int), None)
        },
{
    let code = event->Sniffed_0;
    assert(code >= 0 ==> after@ == printed(
        device_document_text(image@, fs_label(code as int), None),
    )) by {
        reveal(leads);
    }
    if code >= 0 {
        lemma_told_device(image, fs_label(code as int), None, after);
    } else {
        reveal(leads);
    }
}

proof fn lemma_explain_step(
    image: Image,
    code: i32,
    text: String,
    state: State,
    event: Event,
    after: State,
)
    requires
        state == (State::ExplainDevice { image, sniffed: code }),
        event == Event::LastError(text),
        leads(state, event, after),
    ensures
        documented(after),
        tells_of(
            document_of(after),
            image.path@,
            image.container,
            image.size_bytes as nat,
            "none"@,
        ),
        partitions_of(document_of(after)).len() == 0,
        tells_of_device(
            document_of(after),
            "error"@,
            Some(told_reason(code as int, text@)),
        ),
{
    let reason = Some(told_reason(code as int, text@));
    law_reason_is_kept(code as int, text@);
    assert(after@ == printed(device_document_text(image@, "error"@, reason))) by {
        reveal(leads);
    }
    lemma_told_device(image, "error"@, reason, after);
}

/// What came of one partition: whether it could be fetched, what the sniff
/// returned, and the message where it failed.
pub struct Answer {
    pub rc: ErrorCode,
    pub partition: Partition,
    pub sniffed: i32,
    pub text: String,
}

/// The events of one partition.
pub open spec fn answer_events(answer: Answer) -> Seq<Event> {
    let fetched = Event::Fetched { rc: answer.rc, partition: answer.partition };
    if answer.rc != ErrorCode::Success {
        seq![fetched]
    } else if answer.sniffed < 0 {
        seq![fetched, Event::Sniffed(answer.sniffed), Event::LastError(answer.text)]
    } else {
        seq![fetched, Event::Sniffed(answer.sniffed)]
    }
}

/// The events of these partitions, in order.
pub open spec fn walk_events(answers: Seq<Answer>) -> Seq<Event>
    decreases answers.len(),
{
    if answers.len() == 0 {
        Seq::empty()
    } else {
        walk_events(answers.drop_last()) + answer_events(answers.last())
    }
}

/// The events of a disk with a table: the probe, the table, and the partitions.
pub open spec fn table_events(last_error: String, table: i32, answers: Seq<Answer>) -> Seq<Event> {
    let probed = Event::Probed { rc: ErrorCode::Success, list_is_null: false, last_error };
    let listed = Event::Listed { table, count: answers.len() as usize };
    seq![probed, listed] + walk_events(answers)
}

/// How many of these partitions could be fetched.
pub open spec fn fetched(answers: Seq<Answer>) -> nat
    decreases answers.len(),
{
    if answers.len() == 0 {
        0
    } else {
        fetched(answers.drop_last()) + if answers.last().rc == ErrorCode::Success {
            1nat
        } else {
            0
        }
    }
}

/// Whether a value is the record of the partition at `index`, from what came of
/// it: with the label of its filesystem, or as one whose sniff failed, and why.
pub open spec fn records(item: Json, index: nat, answer: Answer) -> bool {
    if answer.sniffed < 0 {
        describes(
            item,
            index,
            answer.partition,
            "error"@,
            Some(told_reason(answer.sniffed as int, answer.text@)),
        )
    } else {
        describes(item, index, answer.partition, fs_label(answer.sniffed as int), None)
    }
}

spec fn reply_of(answer: Answer) -> Reply {
    Reply {
        rc: answer.rc,
        partition: answer.partition@,
        sniffed: answer.sniffed as int,
        text: answer.text@,
    }
}

spec fn replies_of(answers: Seq<Answer>) -> Seq<Reply> {
    answers.map_values(|answer: Answer| reply_of(answer))
}

spec fn seen(events: Seq<Event>) -> Seq<EventView> {
    events.map_values(|event: Event| event@)
}

proof fn lemma_seen_walk(answers: Seq<Answer>)
    ensures
        seen(walk_events(answers)) == all_events(replies_of(answers)),
    decreases answers.len(),
{
    let replies = replies_of(answers);
    if answers.len() == 0 {
        assert(seen(walk_events(answers)) =~= all_events(replies));
    } else {
        let init = answers.drop_last();
        let last = answers.last();
        lemma_seen_walk(init);
        assert(replies.drop_last() =~= replies_of(init));
        assert(replies.last() == reply_of(last));
        assert(seen(answer_events(last)) =~= events_of(reply_of(last)));
        assert(seen(walk_events(answers)) =~= seen(walk_events(init)) + seen(answer_events(last)));
    }
}

/// Whether these events lead from one state to another.
#[verifier::opaque]
spec fn reaches(state: State, events: Seq<EventView>, after: State) -> bool {
    after@ == run(state@, events)
}

proof fn lemma_states_run(states: Seq<State>, events: Seq<Event>, k: int)
    requires
        stepped(states, events),
        0 <= k <= events.len(),
    ensures
        reaches(states[0], seen(events).take(k), states[k]),
    decreases k,
{
    let some = seen(events).take(k);
    if k > 0 {
        lemma_states_run(states, events, k - 1);
        assert(some.drop_last() =~= seen(events).take(k - 1));
        assert(some.last() == events[k - 1]@);
        lemma_one_more(states[0], some, states[k - 1], events[k - 1], states[(k - 1) + 1]);
    } else {
        assert(some =~= Seq::empty());
        reveal(reaches);
    }
}

proof fn lemma_one_more(
    begin: State,
    events: Seq<EventView>,
    state: State,
    event: Event,
    after: State,
)
    requires
        events.len() > 0,
        events.last() == event@,
        reaches(begin, events.drop_last(), state),
        leads(state, event, after),
    ensures
        reaches(begin, events, after),
{
    reveal(reaches);
    reveal(leads);
}

proof fn lemma_walk_prefix(answers: Seq<Answer>, k: int)
    requires
        0 <= k <= answers.len(),
    ensures
        walk_events(answers.take(k)).len() <= walk_events(answers).len(),
        walk_events(answers).take(walk_events(answers.take(k)).len() as int) == walk_events(
            answers.take(k),
        ),
        k < answers.len() ==> {
            let at = walk_events(answers.take(k)).len() as int;
            &&& at < walk_events(answers).len()
            &&& walk_events(answers)[at] == answer_events(answers[k])[0]
        },
    decreases answers.len(),
{
    if k == answers.len() {
        assert(answers.take(k) =~= answers);
        assert(walk_events(answers).take(walk_events(answers).len() as int) =~= walk_events(
            answers,
        ));
    } else {
        let init = answers.drop_last();
        lemma_walk_prefix(init, k);
        assert(answers.take(k) =~= init.take(k));
        let at = walk_events(answers.take(k)).len() as int;
        assert(walk_events(answers).take(at) =~= walk_events(init).take(at));
        if k == init.len() {
            assert(init.take(k) =~= init);
            assert(walk_events(answers)[at] == answer_events(answers.last())[0]);
        } else {
            assert(walk_events(answers)[at] == walk_events(init)[at]);
            assert(init[k] == answers[k]);
        }
    }
}

proof fn lemma_entry_places(answers: Seq<Answer>)
    ensures
        all_entries(replies_of(answers)).len() == fetched(answers),
        forall|j: int|
            0 <= j < answers.len() && (#[trigger] answers[j]).rc == ErrorCode::Success ==> {
                let at = fetched(answers.take(j)) as int;
                &&& at < all_entries(replies_of(answers)).len()
                &&& all_entries(replies_of(answers))[at] == entry_of(
                    j as nat,
                    reply_of(answers[j]),
                )[0]
            },
    decreases answers.len(),
{
    let replies = replies_of(answers);
    if answers.len() > 0 {
        let init = answers.drop_last();
        lemma_entry_places(init);
        assert(replies.drop_last() =~= replies_of(init));
        assert(replies.last() == reply_of(answers.last()));
        assert forall|j: int|
            0 <= j < answers.len() && (#[trigger] answers[j]).rc == ErrorCode::Success implies {
            let at = fetched(answers.take(j)) as int;
            &&& at < all_entries(replies_of(answers)).len()
            &&& all_entries(replies_of(answers))[at] == entry_of(
                j as nat,
                reply_of(answers[j]),
            )[0]
        } by {
            if j < init.len() {
                assert(init[j] == answers[j]);
                assert(init.take(j) =~= answers.take(j));
            } else {
                assert(answers.take(j) =~= init);
            }
        }
    }
}

spec fn walk_at(image: Image, table: i32, answers: Seq<Answer>, k: int) -> WalkView {
    WalkView {
        image: image@,
        table: table as int,
        count: answers.len(),
        index: k as nat,
        entries: all_entries(replies_of(answers.take(k))),
    }
}

proof fn lemma_seen_table(last_error: String, table: i32, answers: Seq<Answer>, k: int)
    requires
        answers.len() <= usize::MAX,
        0 <= k <= answers.len(),
    ensures
        ({
            let at = 2 + walk_events(answers.take(k)).len() as int;
            &&& at <= table_events(last_error, table, answers).len()
            &&& seen(table_events(last_error, table, answers)).take(at) == table_views(
                last_error@,
                table as int,
                answers.len(),
                replies_of(answers.take(k)),
            )
        }),
{
    let some = walk_events(answers.take(k));
    let all = walk_events(answers);
    lemma_walk_prefix(answers, k);
    lemma_seen_walk(answers.take(k));
    let events = table_events(last_error, table, answers);
    let first = seq![events[0]@, events[1]@];
    assert(seen(events) =~= first + seen(all));
    assert(seen(some) =~= seen(all).take(some.len() as int));
    assert(seen(events).take(2 + some.len() as int) =~= first + seen(some));
}

/// The events of a table and the partitions behind these replies.
spec fn table_views(
    last_error: Seq<char>,
    table: int,
    count: nat,
    replies: Seq<Reply>,
) -> Seq<EventView> {
    let probed = EventView::Probed { rc: ErrorCode::Success, list_is_null: false, last_error };
    let listed = EventView::Listed { table, count };
    seq![probed, listed] + all_events(replies)
}

/// Whether a run stands where a walk goes on.
#[verifier::opaque]
spec fn stands_at(state: State, walk: WalkView) -> bool {
    state@ == onward(walk)
}

proof fn lemma_run_table(
    image: ImageView,
    last_error: Seq<char>,
    table: int,
    count: nat,
    replies: Seq<Reply>,
    walk: WalkView,
)
    requires
        replies.len() <= count,
        walk.image == image,
        walk.table == table,
        walk.count == count,
        walk.index == replies.len(),
        walk.entries == all_entries(replies),
    ensures
        run(StateView::Probe { image }, table_views(last_error, table, count, replies)) == onward(
            walk,
        ),
{
    let probed = EventView::Probed { rc: ErrorCode::Success, list_is_null: false, last_error };
    let listed = EventView::Listed { table, count };
    lemma_run_in_parts(StateView::Probe { image }, seq![probed, listed], all_events(replies));
    lemma_probed_and_listed(image, last_error, table, count);
    lemma_walk(image, table, count, replies);
}

proof fn lemma_reached_table(
    image: Image,
    last_error: Seq<char>,
    table: int,
    count: nat,
    replies: Seq<Reply>,
    begin: State,
    state: State,
    walk: WalkView,
)
    requires
        replies.len() <= count,
        walk.image == image@,
        walk.table == table,
        walk.count == count,
        walk.index == replies.len(),
        walk.entries == all_entries(replies),
        begin == (State::Probe { image }),
        reaches(begin, table_views(last_error, table, count, replies), state),
    ensures
        stands_at(state, walk),
{
    reveal(reaches);
    reveal(stands_at);
    lemma_run_table(image@, last_error, table, count, replies, walk);
}

proof fn lemma_listed(
    image: Image,
    last_error: String,
    table: i32,
    answers: Seq<Answer>,
    states: Seq<State>,
    events: Seq<Event>,
    k: int,
)
    requires
        answers.len() <= usize::MAX,
        states[0] == (State::Probe { image }),
        stepped(states, events),
        events == table_events(last_error, table, answers),
        0 <= k <= answers.len(),
    ensures
        stands_at(
            states[2 + walk_events(answers.take(k)).len() as int],
            walk_at(image, table, answers, k),
        ),
{
    let at = 2 + walk_events(answers.take(k)).len() as int;
    let replies = replies_of(answers.take(k));
    lemma_seen_table(last_error, table, answers, k);
    lemma_states_run(states, events, at);
    lemma_reached_table(
        image,
        last_error@,
        table as int,
        answers.len(),
        replies,
        states[0],
        states[at],
        walk_at(image, table, answers, k),
    );
}

proof fn lemma_probed_and_listed(
    image: ImageView,
    last_error: Seq<char>,
    table: int,
    count: nat,
)
    ensures
        ({
            let probed = EventView::Probed {
                rc: ErrorCode::Success,
                list_is_null: false,
                last_error,
            };
            let listed = EventView::Listed { table, count };
            let walk = WalkView { image, table, count, index: 0, entries: Seq::empty() };
            run(StateView::Probe { image }, seq![probed, listed]) == onward(walk)
        }),
{
    let probed = EventView::Probed { rc: ErrorCode::Success, list_is_null: false, last_error };
    let listed = EventView::Listed { table, count };
    let begin = StateView::Probe { image };
    let first = seq![probed, listed];
    assert(first.drop_last() =~= seq![probed]);
    assert(seq![probed].drop_last() =~= Seq::empty());
    assert(run(begin, Seq::empty()) == begin);
    assert(run(begin, seq![probed]) == next(begin, probed).0);
    assert(next(begin, probed).0 == StateView::ListTable { image });
}

proof fn lemma_fetch_step(state: State, event: Event, after: State)
    requires
        leads(state, event, after),
    ensures
        state matches State::FetchEntry { walk } ==> (event matches Event::Fetched { rc, .. } ==> (rc
            == ErrorCode::Success ==> (after matches State::SniffEntry { walk: same, .. }
            && same.index == walk.index))),
{
    reveal(leads);
}

#[verifier::spinoff_prover]
#[verifier::rlimit(60)]
proof fn lemma_told_table(image: Image, table: i32, answers: Seq<Answer>, after: State)
    requires
        stands_at(after, walk_at(image, table, answers, answers.len() as int)),
    ensures
        documented(after),
        tells_of(
            document_of(after),
            image.path@,
            image.container,
            image.size_bytes as nat,
            if table == 1 {
                "gpt"@
            } else if table == 2 {
                "mbr"@
            } else {
                "none"@
            },
        ),
        document_of(after)->Record_0.len() == 5,
        partitions_of(document_of(after)) == entries_json(all_entries(replies_of(answers))),
{
    let replies = replies_of(answers);
    assert(answers.take(answers.len() as int) =~= answers);
    assert forall|i: int| 0 <= i < replies.len() implies (
    #[trigger] replies[i]).partition.type_guid.len() == 16 by {
        assert(replies[i] == reply_of(answers[i]));
    }
    law_every_partition_reads_back(image@, table as int, replies);
    law_other_tables_are_none(table as int);
    reveal(stands_at);
}

/// A table is told in full. Where a probe comes back with success and a list,
/// in whatever container, the table of that image is asked for, and then the
/// partitions one by one, each with its own index, and the document tells that
/// image, the kind of that table, and a record for every partition that could
/// be fetched, in order, with what came of it.
#[verifier::spinoff_prover]
#[verifier::rlimit(60)]
pub proof fn law_table_is_told(
    image: Image,
    last_error: String,
    table: i32,
    answers: Seq<Answer>,
    states: Seq<State>,
    events: Seq<Event>,
)
    requires
        answers.len() <= usize::MAX,
        states[0] == (State::Probe { image }),
        stepped(states, events),
        events == table_events(last_error, table, answers),
    ensures
        states[1] matches State::ListTable { image: same } && is_image(
            same,
            image.path@,
            image.container,
            image.size_bytes,
        ),
        forall|k: int|
            0 <= k < answers.len() ==> ({
                let at = 2 + walk_events(answers.take(k)).len() as int;
                &&& states[at] matches State::FetchEntry { walk } && walk.index == k
                &&& (#[trigger] answers[k]).rc == ErrorCode::Success ==> (
                states[at + 1] matches State::SniffEntry { walk, .. } && walk.index == k)
            }),
        documented(states.last()),
        tells_of(
            document_of(states.last()),
            image.path@,
            image.container,
            image.size_bytes as nat,
            if table == 1 {
                "gpt"@
            } else if table == 2 {
                "mbr"@
            } else {
                "none"@
            },
        ),
        document_of(states.last())->Record_0.len() == 5,
        partitions_of(document_of(states.last())).len() == fetched(answers),
        forall|j: int|
            0 <= j < answers.len() && (#[trigger] answers[j]).rc == ErrorCode::Success ==> records(
                partitions_of(document_of(states.last()))[fetched(answers.take(j)) as int],
                j as nat,
                answers[j],
            ),
{
    law_probe_leads_on(
        image,
        ErrorCode::Success,
        false,
        last_error,
        states[0],
        events[0],
        states[0 + 1int],
    );
    assert forall|k: int| 0 <= k < answers.len() implies ({
        let at = 2 + walk_events(answers.take(k)).len() as int;
        &&& states[at] matches State::FetchEntry { walk } && walk.index == k
        &&& (#[trigger] answers[k]).rc == ErrorCode::Success ==> (
        states[at + 1] matches State::SniffEntry { walk, .. } && walk.index == k)
    }) by {
        lemma_fetched(image, last_error, table, answers, states, events, k);
    }
    lemma_ended_table(image, last_error, table, answers, states, events);
    lemma_told_table(image, table, answers, states.last());
    lemma_recorded(answers);
}

#[verifier::spinoff_prover]
#[verifier::rlimit(60)]
proof fn lemma_ended_table(
    image: Image,
    last_error: String,
    table: i32,
    answers: Seq<Answer>,
    states: Seq<State>,
    events: Seq<Event>,
)
    requires
        answers.len() <= usize::MAX,
        states[0] == (State::Probe { image }),
        stepped(states, events),
        events == table_events(last_error, table, answers),
    ensures
        stands_at(states.last(), walk_at(image, table, answers, answers.len() as int)),
{
    let n = answers.len() as int;
    lemma_listed(image, last_error, table, answers, states, events, n);
    assert(answers.take(n) =~= answers);
}

proof fn lemma_fetched(
    image: Image,
    last_error: String,
    table: i32,
    answers: Seq<Answer>,
    states: Seq<State>,
    events: Seq<Event>,
    k: int,
)
    requires
        answers.len() <= usize::MAX,
        states[0] == (State::Probe { image }),
        stepped(states, events),
        events == table_events(last_error, table, answers),
        0 <= k < answers.len(),
    ensures
        ({
            let at = 2 + walk_events(answers.take(k)).len() as int;
            &&& states[at] matches State::FetchEntry { walk } && walk.index == k
            &&& answers[k].rc == ErrorCode::Success ==> (
            states[at + 1] matches State::SniffEntry { walk, .. } && walk.index == k)
        }),
{
    let at = 2 + walk_events(answers.take(k)).len() as int;
    lemma_listed(image, last_error, table, answers, states, events, k);
    lemma_walk_prefix(answers, k);
    lemma_at_partition(states[at], walk_at(image, table, answers, k));
    assert(events[at] == walk_events(answers)[at - 2]);
    lemma_fetch_step(states[at], events[at], states[at + 1]);
}

proof fn lemma_at_partition(state: State, walk: WalkView)
    requires
        walk.index < walk.count,
        stands_at(state, walk),
    ensures
        state matches State::FetchEntry { walk: w } && w.index == walk.index,
{
    reveal(stands_at);
}

proof fn lemma_recorded(answers: Seq<Answer>)
    ensures
        ({
            let items = entries_json(all_entries(replies_of(answers)));
            &&& items.len() == fetched(answers)
            &&& forall|j: int|
                0 <= j < answers.len() && (#[trigger] answers[j]).rc == ErrorCode::Success
                    ==> records(
                    items[fetched(answers.take(j)) as int],
                    j as nat,
                    answers[j],
                )
        }),
{
    let entries = all_entries(replies_of(answers));
    let items = entries_json(entries);
    lemma_entry_places(answers);
    assert forall|j: int|
        0 <= j < answers.len() && (#[trigger] answers[j]).rc == ErrorCode::Success implies records(
        items[fetched(answers.take(j)) as int],
        j as nat,
        answers[j],
    ) by {
        let at = fetched(answers.take(j)) as int;
        assert(items[at] == entry_json(entries[at]));
        lemma_record(j as nat, answers[j]);
    }
}

proof fn lemma_record(index: nat, answer: Answer)
    requires
        answer.rc == ErrorCode::Success,
    ensures
        records(entry_json(entry_of(index, reply_of(answer))[0]), index, answer),
{
    law_reason_is_kept(answer.sniffed as int, answer.text@);
    if answer.sniffed < 0 {
        lemma_described(
            index,
            answer.partition,
            "error"@,
            Some(told_reason(answer.sniffed as int, answer.text@)),
        );
    } else {
        lemma_described(index, answer.partition, fs_label(answer.sniffed as int), None);
    }
}

/// What is said on the standard error on the way is exactly that a sniff
/// failed, of which partition or of the whole device, and why in full.
pub proof fn law_failed_sniffs_are_said(state: State, event: Event, said: Option<String>)
    requires
        text_of(said) == next(state@, event@).1,
    ensures
        said is Some <==> event is LastError && (state is ExplainDevice || state is ExplainEntry),
        state matches State::ExplainDevice { sniffed, .. } ==> (event matches Event::LastError(text)
            ==> said matches Some(warning) && warning@
            == "diskprobe: whole-device filesystem sniff failed: "@ + told_reason(
            sniffed as int,
            text@,
        )),
        state matches State::ExplainEntry { walk, sniffed, .. } ==> (
        event matches Event::LastError(text) ==> said matches Some(warning) && warning@
            == "diskprobe: partition "@ + decimal(walk.index as nat)
            + ": filesystem sniff failed: "@ + told_reason(sniffed as int, text@)),
{
    if let Event::LastError(text) = event {
        if let State::ExplainDevice { sniffed, .. } = state {
            law_reason_is_kept(sniffed as int, text@);
        }
        if let State::ExplainEntry { sniffed, .. } = state {
            law_reason_is_kept(sniffed as int, text@);
        }
    }
}

/// An event that a state did not ask for changes nothing and says nothing.
pub proof fn law_unasked_events_change_nothing(
    state: State,
    event: Event,
    after: State,
    said: Option<String>,
)
    requires
        !answers(event@, state@),
        after@ == next(state@, event@).0,
        text_of(said) == next(state@, event@).1,
    ensures
        after@ == state@,
        said is None,
{
}

/// Whether a run stands on the way from the probe of an image, or ended with a
/// document about it or with a failed probe.
spec fn is_about(state: StateView, image: ImageView) -> bool {
    match state {
        StateView::Probe { image: i } => i == image,
        StateView::SniffDevice { image: i } => i == image,
        StateView::ExplainDevice { image: i, .. } => i == image,
        StateView::ListTable { image: i } => i == image,
        StateView::FetchEntry { walk } => walk.image == image,
        StateView::SniffEntry { walk, .. } => walk.image == image,
        StateView::ExplainEntry { walk, .. } => walk.image == image,
        StateView::Finished { exit } => exit.code == 3 || (exit.code == 0
            && exit.stdout is Some && is_document_of(exit.stdout->0, image)),
        _ => false,
    }
}

spec fn is_document_of(text: Seq<char>, image: ImageView) -> bool {
    &&& read_document(text) is Some
    &&& exists|table: Seq<char>| #[trigger]
        tells_of(read_document(text)->0, image.path, image.container, image.size_bytes, table)
}

proof fn lemma_onward_is_about(walk: WalkView)
    requires
        forall|i: int| 0 <= i < walk.entries.len() ==> entry_wf(#[trigger] walk.entries[i]),
    ensures
        is_about(onward(walk), walk.image),
{
    if walk.index >= walk.count {
        let entries = walk.entries;
        assert forall|i: int| 0 <= i < entries.len() implies (
        #[trigger] entries[i]).partition.type_guid.len() == 16 && is_fs_label(
            entries[i].fs_label,
        ) by {
            assert(entry_wf(entries[i]));
        }
        law_table_document_reads_back(walk.image, walk.table, entries);
        let text = table_document_text(walk.image, walk.table, entries);
        assert(tells_of(
            read_document(text)->0,
            walk.image.path,
            walk.image.container,
            walk.image.size_bytes,
            table_label(walk.table),
        ));
    }
}

proof fn lemma_device_is_about(image: ImageView, label: Seq<char>, error: Option<Seq<char>>)
    requires
        is_fs_label(label),
    ensures
        is_about(printed(device_document_text(image, label, error)), image),
{
    law_device_document_reads_back(image, label, error);
    let text = device_document_text(image, label, error);
    assert(tells_of(
        read_document(text)->0,
        image.path,
        image.container,
        image.size_bytes,
        "none"@,
    ));
}

proof fn lemma_added_is_about(
    walk: WalkView,
    partition: PartitionView,
    label: Seq<char>,
    error: Option<Seq<char>>,
)
    requires
        walk_wf(walk),
        partition.type_guid.len() == 16,
        is_fs_label(label),
        error is Some <==> label == "error"@,
    ensures
        is_about(onward(with_entry(walk, partition, label, error)), walk.image),
{
    let after = with_entry(walk, partition, label, error);
    assert forall|i: int| 0 <= i < after.entries.len() implies entry_wf(
        #[trigger] after.entries[i],
    ) by {
        if i < walk.entries.len() {
            assert(after.entries[i] == walk.entries[i]);
        }
    }
    lemma_onward_is_about(after);
}

proof fn lemma_stays_about(state: StateView, event: EventView, image: ImageView)
    requires
        is_about(state, image),
        state_wf(state),
    ensures
        is_about(next(state, event).0, image),
{
    match (state, event) {
        (StateView::SniffDevice { .. }, EventView::Sniffed(code)) => {
            lemma_device_is_about(image, fs_label(code), None);
        },
        (StateView::ExplainDevice { sniffed, .. }, EventView::LastError(text)) => {
            lemma_device_is_about(image, "error"@, Some(sniff_failure(sniffed, text)));
        },
        (StateView::ListTable { .. }, EventView::Listed { table, count }) => {
            lemma_onward_is_about(
                WalkView { image, table, count, index: 0, entries: Seq::empty() },
            );
        },
        (StateView::FetchEntry { walk }, EventView::Fetched { .. }) => {
            lemma_onward_is_about(WalkView { index: walk.index + 1, ..walk });
        },
        (StateView::SniffEntry { walk, partition }, EventView::Sniffed(code)) => {
            law_failed_sniff_is_told_apart(code);
            lemma_added_is_about(walk, partition, fs_label(code), None);
        },
        (StateView::ExplainEntry { walk, partition, sniffed }, EventView::LastError(text)) => {
            lemma_added_is_about(walk, partition, "error"@, Some(sniff_failure(sniffed, text)));
        },
        _ => {},
    }
}

/// Whatever happens after an image was opened, what is asked for next is about
/// that image, and a document that is printed tells its path, its container and
/// its size.
pub proof fn law_every_document_is_about_the_image(
    image: Image,
    states: Seq<State>,
    events: Seq<Event>,
)
    requires
        states[0] == (State::Probe { image }),
        stepped(states, events),
    ensures
        states.last() matches State::SniffDevice { image: same } ==> is_image(
            same,
            image.path@,
            image.container,
            image.size_bytes,
        ),
        states.last() matches State::Finished { exit } ==> exit.code == 0 || exit.code == 3,
        (states.last() matches State::Finished { exit } && exit.code == 0) ==> documented(
            states.last(),
        ) && exists|table: Seq<char>| #[trigger]
            tells_of(
                document_of(states.last()),
                image.path@,
                image.container,
                image.size_bytes as nat,
                table,
            ),
{
    lemma_all_about(image, states, events, events.len() as int);
}

proof fn lemma_all_about(image: Image, states: Seq<State>, events: Seq<Event>, k: int)
    requires
        states[0] == (State::Probe { image }),
        stepped(states, events),
        0 <= k <= events.len(),
    ensures
        is_about(states[k]@, image@),
        state_wf(states[k]@),
    decreases k,
{
    if k > 0 {
        lemma_all_about(image, states, events, k - 1);
        assert(leads(states[k - 1], events[k - 1], states[(k - 1) + 1]));
        reveal(leads);
        lemma_stays_about(states[k - 1]@, events[k - 1]@, image@);
        law_runs_stay_well(states[k - 1]@, events[k - 1]@);
    }
}

} // verus!
