//! What a partition probe said: a table, no table, or a failure.

use vstd::prelude::*;
use vstd::string::*;

use crate::text::same_text;

verus! {

/// The message that a probe leaves where a device carries no partition table.
///
/// A probe reports every failure under one code, so this text is all that
/// tells a device without a table from one whose table could not be read.
pub const NO_PARTITION_TABLE_MESSAGE: &'static str = "no GPT or MBR signature found";

/// The code that a call into the block-device layer came back with.
#[derive(Debug, Clone, Copy, PartialEq, Eq, Structural)]
pub enum ErrorCode {
    Success,
    Io,
    ShortRead,
    ReadOnly,
    OutOfBounds,
    Custom,
    NullArg,
    Panic,
    BadString,
}

/// What a partition probe said.
#[derive(Debug, PartialEq, Eq)]
pub enum ProbeOutcome {
    /// A GPT or MBR table was parsed and the list of partitions is usable.
    Table,
    /// The device carries no partition table. That is no error: a filesystem
    /// on the whole device is an ordinary disk.
    NoTable,
    /// The probe failed, and this is why.
    Failed(String),
}

/// A [`ProbeOutcome`] with its text as characters.
pub enum Verdict {
    Table,
    NoTable,
    Failed(Seq<char>),
}

impl View for ProbeOutcome {
    type V = Verdict;

    open spec fn view(&self) -> Verdict {
        match self {
            ProbeOutcome::Table => Verdict::Table,
            ProbeOutcome::NoTable => Verdict::NoTable,
            ProbeOutcome::Failed(detail) => Verdict::Failed(detail@),
        }
    }
}

impl ErrorCode {
    /// The name of the code.
    pub open spec fn spelled(self) -> Seq<char> {
        match self {
            ErrorCode::Success => "Ok"@,
            ErrorCode::Io => "Io"@,
            ErrorCode::ShortRead => "ShortRead"@,
            ErrorCode::ReadOnly => "ReadOnly"@,
            ErrorCode::OutOfBounds => "OutOfBounds"@,
            ErrorCode::Custom => "Custom"@,
            ErrorCode::NullArg => "NullArg"@,
            ErrorCode::Panic => "Panic"@,
            ErrorCode::BadString => "BadString"@,
        }
    }

    /// The name of the code.
    pub fn name(self) -> (name: &'static str)
        ensures
            name@ == self.spelled(),
    {
        match self {
            ErrorCode::Success => "Ok",
            ErrorCode::Io => "Io",
            ErrorCode::ShortRead => "ShortRead",
            ErrorCode::ReadOnly => "ReadOnly",
            ErrorCode::OutOfBounds => "OutOfBounds",
            ErrorCode::Custom => "Custom",
            ErrorCode::NullArg => "NullArg",
            ErrorCode::Panic => "Panic",
            ErrorCode::BadString => "BadString",
        }
    }
}

/// Whether a character has the Unicode property `White_Space`.
pub open spec fn white_space(c: char) -> bool {
    let u = c as u32;
    ||| 0x09 <= u <= 0x0d
    ||| u == 0x20
    ||| u == 0x85
    ||| u == 0xa0
    ||| u == 0x1680
    ||| 0x2000 <= u <= 0x200a
    ||| u == 0x2028
    ||| u == 0x2029
    ||| u == 0x202f
    ||| u == 0x205f
    ||| u == 0x3000
}

/// A text from its first character on that is no white space.
pub open spec fn trimmed_start(s: Seq<char>) -> Seq<char>
    decreases s.len(),
{
    if s.len() > 0 && white_space(s[0]) {
        trimmed_start(s.drop_first())
    } else {
        s
    }
}

/// A text up to its last character that is no white space.
pub open spec fn trimmed_end(s: Seq<char>) -> Seq<char>
    decreases s.len(),
{
    if s.len() > 0 && white_space(s.last()) {
        trimmed_end(s.drop_last())
    } else {
        s
    }
}

/// `str::trim` cuts white space, in the sense of the Unicode property
/// `White_Space`, off both ends of a string.
pub assume_specification[ str::trim ](s: &str) -> (trimmed: &str)
    ensures
        trimmed@ == trimmed_end(trimmed_start(s@)),
;

/// What a probe said that came back with `rc`, with or without a list, and
/// left `last_error` behind.
pub open spec fn verdict(rc: ErrorCode, list_is_null: bool, last_error: Seq<char>) -> Verdict {
    if rc == ErrorCode::Success {
        if list_is_null {
            Verdict::Failed("reported success but returned a NULL partition list"@)
        } else {
            Verdict::Table
        }
    } else if trimmed_end(trimmed_start(last_error)) == NO_PARTITION_TABLE_MESSAGE@ {
        Verdict::NoTable
    } else if last_error.len() == 0 {
        Verdict::Failed("failed with "@ + rc.spelled() + " (no detail recorded)"@)
    } else {
        Verdict::Failed(last_error)
    }
}

/// Tells "this disk has no partition table" apart from "the partition table
/// could not be read".
///
/// `last_error` counts only where `rc` reports a failure: on success it can be
/// left over from an earlier call. Success without a list is a broken promise
/// of the layer below, so it is reported as a failure.
pub fn classify_probe(rc: ErrorCode, list_is_null: bool, last_error: &str) -> (outcome:
    ProbeOutcome)
    ensures
        outcome@ == verdict(rc, list_is_null, last_error@),
{
    if rc == ErrorCode::Success {
        return if list_is_null {
            ProbeOutcome::Failed(
                "reported success but returned a NULL partition list".to_string(),
            )
        } else {
            ProbeOutcome::Table
        };
    }
    if same_text(last_error.trim(), NO_PARTITION_TABLE_MESSAGE) {
        return ProbeOutcome::NoTable;
    }
    if last_error.is_empty() {
        let mut detail: String = String::new();
        detail.append("failed with ");
        detail.append(rc.name());
        detail.append(" (no detail recorded)");
        ProbeOutcome::Failed(detail)
    } else {
        ProbeOutcome::Failed(last_error.to_string())
    }
}

/// What is left over from an earlier call does not turn a success into
/// anything else.
pub proof fn law_success_ignores_stale_text(
    list_is_null: bool,
    last_error: Seq<char>,
    other: Seq<char>,
)
    ensures
        verdict(ErrorCode::Success, list_is_null, last_error) == verdict(
            ErrorCode::Success,
            list_is_null,
            other,
        ),
        verdict(ErrorCode::Success, false, last_error) == Verdict::Table,
{
}

/// A failed probe counts as a disk without a table where its message, white
/// space aside, is the one that says so, and never otherwise: a table that
/// could not be read is reported as a failure.
pub proof fn law_only_the_message_means_no_table(
    rc: ErrorCode,
    list_is_null: bool,
    last_error: Seq<char>,
)
    ensures
        verdict(rc, list_is_null, last_error) == Verdict::NoTable <==> rc != ErrorCode::Success
            && trimmed_end(trimmed_start(last_error)) == NO_PARTITION_TABLE_MESSAGE@,
        verdict(rc, list_is_null, last_error) == Verdict::Table <==> rc == ErrorCode::Success
            && !list_is_null,
{
}

/// White space around the message that says there is no table does not change
/// the verdict.
pub proof fn law_white_space_around_the_message_is_ignored(
    rc: ErrorCode,
    list_is_null: bool,
    before: Seq<char>,
    after: Seq<char>,
)
    requires
        rc != ErrorCode::Success,
        forall|i: int| 0 <= i < before.len() ==> white_space(#[trigger] before[i]),
        forall|i: int| 0 <= i < after.len() ==> white_space(#[trigger] after[i]),
    ensures
        verdict(rc, list_is_null, before + NO_PARTITION_TABLE_MESSAGE@ + after)
            == Verdict::NoTable,
{
    let message = NO_PARTITION_TABLE_MESSAGE@;
    reveal_strlit("no GPT or MBR signature found");
    assert(message.len() == 29 && message[0] == 'n' && message[28] == 'd');
    lemma_start_padding(before, message + after);
    assert(before + message + after =~= before + (message + after));
    lemma_end_padding(message, after);
}

proof fn lemma_start_padding(before: Seq<char>, text: Seq<char>)
    requires
        text.len() > 0,
        !white_space(text[0]),
        forall|i: int| 0 <= i < before.len() ==> white_space(#[trigger] before[i]),
    ensures
        trimmed_start(before + text) == text,
    decreases before.len(),
{
    if before.len() > 0 {
        let rest = before.drop_first();
        assert(white_space(before[0]));
        assert((before + text).drop_first() =~= rest + text);
        assert forall|i: int| 0 <= i < rest.len() implies white_space(#[trigger] rest[i]) by {
            assert(rest[i] == before[i + 1]);
        }
        lemma_start_padding(rest, text);
    } else {
        assert(before + text =~= text);
    }
}

proof fn lemma_end_padding(text: Seq<char>, after: Seq<char>)
    requires
        text.len() > 0,
        !white_space(text.last()),
        forall|i: int| 0 <= i < after.len() ==> white_space(#[trigger] after[i]),
    ensures
        trimmed_end(text + after) == text,
    decreases after.len(),
{
    if after.len() > 0 {
        let rest = after.drop_last();
        assert(white_space(after[after.len() - 1]));
        assert((text + after).drop_last() =~= text + rest);
        assert forall|i: int| 0 <= i < rest.len() implies white_space(#[trigger] rest[i]) by {
            assert(rest[i] == after[i]);
        }
        lemma_end_padding(text, rest);
    } else {
        assert(text + after =~= text);
    }
}

/// Whether a text is white space, and nothing else.
pub open spec fn all_white(s: Seq<char>) -> bool {
    forall|i: int| 0 <= i < s.len() ==> white_space(#[trigger] s[i])
}

/// Trimming takes white space off both ends, and nothing else: what is left
/// neither starts nor ends with any.
pub proof fn law_trimming_takes_white_space_only(s: Seq<char>)
    ensures
        ({
            let start = trimmed_start(s);
            let left = trimmed_end(start);
            let before = s.take(s.len() - start.len());
            let after = start.skip(left.len() as int);
            &&& all_white(before)
            &&& all_white(after)
            &&& s == before + left + after
            &&& left.len() > 0 ==> !white_space(left[0]) && !white_space(left.last())
        }),
{
    lemma_trimmed_start(s);
    let start = trimmed_start(s);
    lemma_trimmed_end(start);
    let left = trimmed_end(start);
    assert(s =~= s.take(s.len() - start.len()) + left + start.skip(left.len() as int));
    if left.len() > 0 {
        assert(left[0] == start[0]);
    }
}

proof fn lemma_trimmed_start(s: Seq<char>)
    ensures
        ({
            let start = trimmed_start(s);
            &&& start.len() <= s.len()
            &&& start == s.skip(s.len() - start.len())
            &&& all_white(s.take(s.len() - start.len()))
            &&& start.len() > 0 ==> !white_space(start[0])
        }),
    decreases s.len(),
{
    let start = trimmed_start(s);
    if s.len() > 0 && white_space(s[0]) {
        let rest = s.drop_first();
        lemma_trimmed_start(rest);
        assert(s.skip(s.len() - start.len()) =~= rest.skip(rest.len() - start.len()));
        let cut = s.take(s.len() - start.len());
        assert forall|i: int| 0 <= i < cut.len() implies white_space(#[trigger] cut[i]) by {
            if i > 0 {
                assert(cut[i] == rest.take(rest.len() - start.len())[i - 1]);
            }
        }
    } else {
        assert(s.skip(0) =~= s);
    }
}

proof fn lemma_trimmed_end(s: Seq<char>)
    ensures
        ({
            let left = trimmed_end(s);
            &&& left.len() <= s.len()
            &&& left == s.take(left.len() as int)
            &&& all_white(s.skip(left.len() as int))
            &&& left.len() > 0 ==> !white_space(left.last())
        }),
    decreases s.len(),
{
    let left = trimmed_end(s);
    if s.len() > 0 && white_space(s.last()) {
        let init = s.drop_last();
        lemma_trimmed_end(init);
        assert(s.take(left.len() as int) =~= init.take(left.len() as int));
        let cut = s.skip(left.len() as int);
        assert forall|i: int| 0 <= i < cut.len() implies white_space(#[trigger] cut[i]) by {
            if i < cut.len() - 1 {
                assert(cut[i] == init.skip(left.len() as int)[i]);
            }
        }
    } else {
        assert(s.take(s.len() as int) =~= s);
    }
}

/// Whether a text is the message that says there is no table, with nothing but
/// white space around it.
pub open spec fn says_no_table(text: Seq<char>) -> bool {
    exists|before: Seq<char>, after: Seq<char>|
        #![trigger all_white(before), all_white(after)]
        all_white(before) && all_white(after) && text == before + NO_PARTITION_TABLE_MESSAGE@
            + after
}

/// What comes of a probe: a usable list on success, no table where the message
/// says so, and otherwise a failure that keeps the recorded message in full, or
/// names the code where none was recorded.
pub proof fn law_probe_is_told_in_full(
    outcome: ProbeOutcome,
    rc: ErrorCode,
    list_is_null: bool,
    last_error: Seq<char>,
)
    requires
        outcome@ == verdict(rc, list_is_null, last_error),
    ensures
        outcome is Table <==> rc == ErrorCode::Success && !list_is_null,
        outcome is NoTable <==> rc != ErrorCode::Success && says_no_table(last_error),
        outcome matches ProbeOutcome::Failed(detail) ==> {
            &&& rc == ErrorCode::Success ==> detail@
                == "reported success but returned a NULL partition list"@
            &&& rc != ErrorCode::Success && last_error.len() > 0 ==> detail@ == last_error
            &&& rc != ErrorCode::Success && last_error.len() == 0 ==> detail@ == "failed with "@
                + rc.spelled() + " (no detail recorded)"@
        },
{
    lemma_verdict(rc, list_is_null, last_error);
}

pub(crate) proof fn lemma_verdict(rc: ErrorCode, list_is_null: bool, last_error: Seq<char>)
    ensures
        ({
            let outcome = verdict(rc, list_is_null, last_error);
            &&& outcome is Table <==> rc == ErrorCode::Success && !list_is_null
            &&& outcome is NoTable <==> rc != ErrorCode::Success && says_no_table(last_error)
            &&& outcome matches Verdict::Failed(detail) ==> {
                &&& rc == ErrorCode::Success ==> detail
                    == "reported success but returned a NULL partition list"@
                &&& rc != ErrorCode::Success && last_error.len() > 0 ==> detail == last_error
                &&& rc != ErrorCode::Success && last_error.len() == 0 ==> detail == "failed with "@
                    + rc.spelled() + " (no detail recorded)"@
            }
        }),
{
    let start = trimmed_start(last_error);
    let left = trimmed_end(start);
    law_trimming_takes_white_space_only(last_error);
    if rc != ErrorCode::Success {
        if left == NO_PARTITION_TABLE_MESSAGE@ {
            assert(all_white(last_error.take(last_error.len() - start.len())));
            assert(all_white(start.skip(left.len() as int)));
            assert(says_no_table(last_error));
        }
        if says_no_table(last_error) {
            let (before, after) = choose|before: Seq<char>, after: Seq<char>|
                #![trigger all_white(before), all_white(after)]
                all_white(before) && all_white(after) && last_error == before
                    + NO_PARTITION_TABLE_MESSAGE@ + after;
            law_white_space_around_the_message_is_ignored(rc, list_is_null, before, after);
        }
    }
}

} // verus!
