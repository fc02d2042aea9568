//! Filling a buffer from a reader that may hand over a little at a time.

use vstd::prelude::*;

use crate::source::{reads, IoStep, ReadCall, ReadOutcome, Source};

verus! {

/// What to do after one call to a reader.
pub enum ReadStep {
    /// Read again, behind the bytes that are there.
    Continue(usize),
    /// Stop, with this result.
    Done(Result<usize, std::io::Error>),
}

/// How many interruptions are taken in one call of [`read_up_to`] without
/// giving up.
pub const MAX_INTERRUPTIONS: u64 = 0xffff_ffff_ffff_ffff;

/// What follows from `outcome` where `filled` bytes of `want` are there.
///
/// A count that would not fit in a `usize` stays at the largest one.
pub open spec fn after_read(filled: usize, want: usize, outcome: ReadOutcome) -> ReadStep {
    match outcome {
        ReadOutcome::Bytes(n) => if n == 0 {
            ReadStep::Done(Ok(filled))
        } else {
            let total = if filled + n <= usize::MAX {
                (filled + n) as usize
            } else {
                usize::MAX
            };
            if total < want {
                ReadStep::Continue(total)
            } else {
                ReadStep::Done(Ok(total))
            }
        },
        ReadOutcome::Interrupted(_) => ReadStep::Continue(filled),
        ReadOutcome::Failed(e) => ReadStep::Done(Err(e)),
    }
}

/// Where filling `want` bytes stands after these calls, in order.
pub open spec fn progress(calls: Seq<ReadCall>, want: usize) -> ReadStep
    decreases calls.len(),
{
    if calls.len() == 0 {
        if want == 0 {
            ReadStep::Done(Ok(0))
        } else {
            ReadStep::Continue(0)
        }
    } else {
        match progress(calls.drop_last(), want) {
            ReadStep::Continue(filled) => after_read(filled, want, calls.last().outcome),
            ReadStep::Done(result) => ReadStep::Done(result),
        }
    }
}

/// What a buffer that held `before` holds after these calls.
pub open spec fn held(calls: Seq<ReadCall>, before: Seq<u8>) -> Seq<u8> {
    if calls.len() == 0 {
        before
    } else {
        calls.last().after
    }
}

/// Whether these calls were made one after the other to fill a buffer that
/// held `before`: each one while there was something left to do, on what the
/// one before it left in the buffer, and behind what was filled by then, where
/// it disturbed nothing.
pub open spec fn made(calls: Seq<ReadCall>, before: Seq<u8>, want: usize) -> bool
    decreases calls.len(),
{
    calls.len() > 0 ==> {
        let earlier = calls.drop_last();
        let call = calls.last();
        &&& made(earlier, before, want)
        &&& progress(earlier, want) == ReadStep::Continue(call.at)
        &&& call.before == held(earlier, before)
        &&& call.after.len() == call.before.len()
        &&& call.after.take(call.at as int) == call.before.take(call.at as int)
    }
}

/// How many of these calls were interrupted.
pub open spec fn interruptions(calls: Seq<ReadCall>) -> nat
    decreases calls.len(),
{
    if calls.len() == 0 {
        0
    } else if calls.last().outcome is Interrupted {
        interruptions(calls.drop_last()) + 1
    } else {
        interruptions(calls.drop_last())
    }
}

/// Whether these calls lead to `result`, or break off with it because one more
/// than [`MAX_INTERRUPTIONS`] of them were interrupted.
pub open spec fn ends_with(
    calls: Seq<ReadCall>,
    want: usize,
    result: Result<usize, std::io::Error>,
) -> bool {
    match progress(calls, want) {
        ReadStep::Done(reached) => result == reached,
        ReadStep::Continue(_) => {
            &&& interruptions(calls) == MAX_INTERRUPTIONS + 1
            &&& result matches Err(e) && calls.last().outcome == ReadOutcome::Interrupted(e)
        },
    }
}

/// Whether these calls, and no others, take a buffer from `before` to `after`
/// and add up to `result`.
pub open spec fn fills(
    calls: Seq<ReadCall>,
    before: Seq<u8>,
    after: Seq<u8>,
    want: usize,
    result: Result<usize, std::io::Error>,
) -> bool {
    &&& before.len() == want
    &&& made(calls, before, want)
    &&& after == held(calls, before)
    &&& ends_with(calls, want, result)
}

/// Decides what to do after one call to a reader.
pub fn read_step(filled: usize, want: usize, outcome: ReadOutcome) -> (step: ReadStep)
    ensures
        step == after_read(filled, want, outcome),
{
    match outcome {
        ReadOutcome::Bytes(n) => {
            if n == 0 {
                ReadStep::Done(Ok(filled))
            } else {
                let total: usize = filled.saturating_add(n);
                if total < want {
                    ReadStep::Continue(total)
                } else {
                    ReadStep::Done(Ok(total))
                }
            }
        },
        ReadOutcome::Interrupted(_) => ReadStep::Continue(filled),
        ReadOutcome::Failed(e) => ReadStep::Done(Err(e)),
    }
}

/// Reads until `buf` is full or the source genuinely ends.
///
/// A reader is allowed to hand over fewer bytes than it was asked for without
/// having reached the end, so a short read is followed by another one. An
/// interrupted read is made again, up to [`MAX_INTERRUPTIONS`] times. Any other
/// error is returned. A source that is shorter than `buf` is no error: the
/// count says how much there was.
///
/// The calls that the log of the source gains are what the result and the
/// buffer follow from. What each of them came back with is the source's own
/// affair, and no clause speaks of it.
pub fn read_up_to<R: std::io::Read>(r: &mut Source<R>, buf: &mut [u8]) -> (result: std::io::Result<
    usize,
>)
    ensures
        final(buf)@.len() == old(buf)@.len(),
        old(buf)@.len() == 0 ==> result == Ok::<usize, std::io::Error>(0) && *final(r) == *old(r),
        exists|calls: Seq<ReadCall>| #[trigger]
            fills(calls, old(buf)@, final(buf)@, old(buf).len(), result) && final(r).log() == old(
                r,
            ).log() + reads(calls),
{
    let want: usize = buf.len();
    let mut filled: usize = 0;
    let mut interrupted: u64 = 0;
    let ghost mut calls: Seq<ReadCall> = Seq::empty();
    let ghost start = buf@;
    assert(r.log() =~= old(r).log() + reads(calls));
    while filled < want
        invariant
            start == old(buf)@,
            want == old(buf).len(),
            want == buf@.len() == start.len(),
            filled <= want,
            want == 0 ==> *r == *old(r),
            want > 0 ==> filled < want,
            progress(calls, want) == (if want == 0 {
                ReadStep::Done(Ok(0))
            } else {
                ReadStep::Continue(filled)
            }),
            made(calls, start, want),
            held(calls, start) == buf@,
            interrupted == interruptions(calls),
            r.log() == old(r).log() + reads(calls),
        decreases want - filled, MAX_INTERRUPTIONS - interrupted,
    {
        let ghost earlier = calls;
        let ghost was = buf@;
        let outcome = r.read_at(buf, filled);
        proof {
            let call = ReadCall { at: filled, before: was, outcome, after: buf@ };
            calls = earlier.push(call);
            assert(calls.drop_last() =~= earlier);
            assert(reads(calls) =~= reads(earlier).push(IoStep::Read(call)));
            assert(r.log() =~= old(r).log() + reads(calls));
        }
        match outcome {
            ReadOutcome::Interrupted(e) => {
                if interrupted == MAX_INTERRUPTIONS {
                    let result = Err(e);
                    assert(fills(calls, start, buf@, want, result));
                    return result;
                }
                interrupted = interrupted + 1;
            },
            other => match read_step(filled, want, other) {
                ReadStep::Continue(total) => {
                    filled = total;
                },
                ReadStep::Done(result) => {
                    assert(fills(calls, start, buf@, want, result));
                    return result;
                },
            },
        }
    }
    let result = Ok(filled);
    assert(fills(calls, start, buf@, want, result));
    result
}

/// What a call handed over.
pub open spec fn handed(call: ReadCall) -> Seq<u8> {
    match call.outcome {
        ReadOutcome::Bytes(n) => call.after.subrange(call.at as int, call.at + n),
        _ => Seq::empty(),
    }
}

/// Whether a call did what a reader is meant to do: it handed over no more than
/// there was room for, and left the rest of the buffer alone.
pub open spec fn orderly(call: ReadCall) -> bool {
    match call.outcome {
        ReadOutcome::Bytes(n) => call.at + n <= call.after.len() && call.after.skip(call.at + n)
            == call.before.skip(call.at + n),
        _ => call.after == call.before,
    }
}

/// Whether all of these calls did what a reader is meant to do.
pub open spec fn all_orderly(calls: Seq<ReadCall>) -> bool {
    forall|i: int| 0 <= i < calls.len() ==> orderly(#[trigger] calls[i])
}

/// All that these calls handed over, in order.
pub open spec fn handed_over(calls: Seq<ReadCall>) -> Seq<u8>
    decreases calls.len(),
{
    if calls.len() == 0 {
        Seq::empty()
    } else {
        handed_over(calls.drop_last()) + handed(calls.last())
    }
}

/// Whether these calls are those of a reader that has `data` to give: it hands
/// over the bytes of `data` in order, in pieces of its choice, ends only behind
/// the last of them, may be interrupted, and does not fail.
pub open spec fn serves(calls: Seq<ReadCall>, data: Seq<u8>) -> bool
    decreases calls.len(),
{
    calls.len() > 0 ==> {
        let given = handed_over(calls);
        &&& serves(calls.drop_last(), data)
        &&& orderly(calls.last())
        &&& match calls.last().outcome {
            ReadOutcome::Bytes(n) => {
                &&& given.len() <= data.len()
                &&& given == data.take(given.len() as int)
                &&& n == 0 ==> given == data
            },
            ReadOutcome::Interrupted(_) => true,
            ReadOutcome::Failed(_) => false,
        }
    }
}

proof fn lemma_earlier_calls(calls: Seq<ReadCall>)
    requires
        calls.len() > 0,
        all_orderly(calls),
    ensures
        all_orderly(calls.drop_last()),
        orderly(calls.last()),
{
    let earlier = calls.drop_last();
    assert forall|i: int| 0 <= i < earlier.len() implies orderly(#[trigger] earlier[i]) by {
        assert(earlier[i] == calls[i]);
    }
    assert(orderly(calls[calls.len() - 1]));
}

proof fn lemma_made_calls(calls: Seq<ReadCall>, before: Seq<u8>, want: usize)
    requires
        before.len() == want,
        made(calls, before, want),
    ensures
        held(calls, before).len() == want,
        progress(calls, want) matches ReadStep::Continue(filled) ==> filled < want,
        progress(calls, want) is Continue ==> forall|i: int|
            0 <= i < calls.len() ==> !((#[trigger] calls[i]).outcome is Failed)
                && calls[i].outcome != ReadOutcome::Bytes(0),
        forall|i: int|
            0 <= i < calls.len() - 1 ==> !((#[trigger] calls[i]).outcome is Failed)
                && calls[i].outcome != ReadOutcome::Bytes(0),
        progress(calls, want) matches ReadStep::Done(Err(e)) ==> calls.len() > 0
            && calls.last().outcome == ReadOutcome::Failed(e),
    decreases calls.len(),
{
    if calls.len() > 0 {
        let earlier = calls.drop_last();
        lemma_made_calls(earlier, before, want);
        assert forall|i: int| 0 <= i < calls.len() - 1 implies !((
        #[trigger] calls[i]).outcome is Failed) && calls[i].outcome != ReadOutcome::Bytes(0) by {
            assert(earlier[i] == calls[i]);
        }
    }
}

proof fn lemma_orderly_calls(calls: Seq<ReadCall>, before: Seq<u8>, want: usize)
    requires
        before.len() == want,
        made(calls, before, want),
        all_orderly(calls),
    ensures
        handed_over(calls).len() <= want,
        held(calls, before) == handed_over(calls) + before.skip(handed_over(calls).len() as int),
        progress(calls, want) matches ReadStep::Continue(filled) ==> filled == handed_over(
            calls,
        ).len(),
        progress(calls, want) matches ReadStep::Done(Ok(n)) ==> n == handed_over(calls).len() && (n
            < want ==> calls.len() > 0 && calls.last().outcome == ReadOutcome::Bytes(0)),
    decreases calls.len(),
{
    if calls.len() > 0 {
        let earlier = calls.drop_last();
        let call = calls.last();
        lemma_earlier_calls(calls);
        lemma_orderly_calls(earlier, before, want);
        lemma_made_calls(earlier, before, want);
        let given = handed_over(calls);
        let at = call.at as int;
        match call.outcome {
            ReadOutcome::Bytes(n) => {
                assert(call.after =~= call.after.take(at) + call.after.subrange(at, at + n)
                    + call.after.skip(at + n));
                assert(call.before.take(at) =~= handed_over(earlier));
                assert(call.before.skip(at + n) =~= before.skip(at + n));
                assert(held(calls, before) =~= given + before.skip(given.len() as int));
            },
            _ => {
                assert(given =~= handed_over(earlier));
            },
        }
    } else {
        assert(held(calls, before) =~= handed_over(calls) + before.skip(0));
    }
}

proof fn lemma_serving_is_orderly(calls: Seq<ReadCall>, data: Seq<u8>)
    requires
        serves(calls, data),
    ensures
        all_orderly(calls),
        handed_over(calls).len() <= data.len(),
        handed_over(calls) == data.take(handed_over(calls).len() as int),
        forall|i: int| 0 <= i < calls.len() ==> !((#[trigger] calls[i]).outcome is Failed),
    decreases calls.len(),
{
    if calls.len() > 0 {
        let earlier = calls.drop_last();
        lemma_serving_is_orderly(earlier, data);
        assert forall|i: int| 0 <= i < calls.len() implies orderly(#[trigger] calls[i])
            && !(calls[i].outcome is Failed) by {
            if i < earlier.len() {
                assert(calls[i] == earlier[i]);
            }
        }
        if calls.last().outcome is Interrupted {
            assert(handed_over(calls) =~= handed_over(earlier));
        }
    } else {
        assert(handed_over(calls) =~= data.take(0));
    }
}

/// Each read is lent exactly what is not filled yet, behind all that was handed
/// over before it, and there is none after the end of the input or a failure.
pub proof fn law_reads_follow_one_another(
    calls: Seq<ReadCall>,
    before: Seq<u8>,
    after: Seq<u8>,
    want: usize,
    result: Result<usize, std::io::Error>,
)
    requires
        fills(calls, before, after, want, result),
        all_orderly(calls),
    ensures
        forall|i: int|
            0 <= i < calls.len() ==> (#[trigger] calls[i]).at == handed_over(calls.take(i)).len()
                && calls[i].at < want,
        forall|i: int|
            0 <= i < calls.len() - 1 ==> !((#[trigger] calls[i]).outcome is Failed)
                && calls[i].outcome != ReadOutcome::Bytes(0),
{
    lemma_made_calls(calls, before, want);
    lemma_places(calls, before, want);
}

proof fn lemma_places(calls: Seq<ReadCall>, before: Seq<u8>, want: usize)
    requires
        before.len() == want,
        made(calls, before, want),
        all_orderly(calls),
    ensures
        forall|i: int|
            0 <= i < calls.len() ==> (#[trigger] calls[i]).at == handed_over(calls.take(i)).len()
                && calls[i].at < want,
    decreases calls.len(),
{
    if calls.len() > 0 {
        let earlier = calls.drop_last();
        lemma_earlier_calls(calls);
        lemma_places(earlier, before, want);
        lemma_orderly_calls(earlier, before, want);
        lemma_made_calls(earlier, before, want);
        assert forall|i: int| 0 <= i < calls.len() implies (#[trigger] calls[i]).at == handed_over(
            calls.take(i),
        ).len() && calls[i].at < want by {
            if i < earlier.len() {
                assert(calls[i] == earlier[i]);
                assert(calls.take(i) =~= earlier.take(i));
            } else {
                assert(calls.take(i) =~= earlier);
            }
        }
    }
}

/// The buffer holds what was handed over, in order, and behind it what it held
/// before. The count is how much that is, and a short count means that the
/// source has ended.
pub proof fn law_buffer_holds_what_was_handed_over(
    calls: Seq<ReadCall>,
    before: Seq<u8>,
    after: Seq<u8>,
    want: usize,
    result: Result<usize, std::io::Error>,
)
    requires
        fills(calls, before, after, want, result),
        all_orderly(calls),
    ensures
        handed_over(calls).len() <= want,
        after == handed_over(calls) + before.skip(handed_over(calls).len() as int),
        result matches Ok(n) ==> n == handed_over(calls).len() && (n < want ==> calls.len() > 0
            && calls.last().outcome == ReadOutcome::Bytes(0)),
{
    lemma_orderly_calls(calls, before, want);
}

/// An error comes back exactly where a read failed, and it is the error of that
/// read, which is the last one made. An interruption is no failure, and neither
/// is an early end.
pub proof fn law_failure_is_returned(
    calls: Seq<ReadCall>,
    before: Seq<u8>,
    after: Seq<u8>,
    want: usize,
    result: Result<usize, std::io::Error>,
)
    requires
        fills(calls, before, after, want, result),
        interruptions(calls) <= u64::MAX,
    ensures
        result is Err <==> exists|i: int|
            0 <= i < calls.len() && (#[trigger] calls[i]).outcome is Failed,
        forall|i: int|
            0 <= i < calls.len() && (#[trigger] calls[i]).outcome is Failed ==> i == calls.len() - 1
                && result == Err::<usize, std::io::Error>(calls[i].outcome->Failed_0),
{
    lemma_made_calls(calls, before, want);
    if result is Err {
        assert(calls[calls.len() - 1].outcome is Failed);
    }
}

/// A short read is not a short file: a source that has `data` to give fills the
/// buffer with it, in however many pieces it comes, and a source that is shorter
/// than the buffer reports its length and leaves the rest of the buffer as it
/// was.
pub proof fn law_pieces_fill_the_buffer(
    calls: Seq<ReadCall>,
    before: Seq<u8>,
    after: Seq<u8>,
    want: usize,
    result: Result<usize, std::io::Error>,
    data: Seq<u8>,
)
    requires
        fills(calls, before, after, want, result),
        interruptions(calls) <= u64::MAX,
        serves(calls, data),
    ensures
        data.len() >= want ==> result == Ok::<usize, std::io::Error>(want) && after == data.take(
            want as int,
        ),
        data.len() < want ==> result == Ok::<usize, std::io::Error>(data.len() as usize) && after
            == data + before.skip(data.len() as int),
{
    lemma_serving_is_orderly(calls, data);
    lemma_orderly_calls(calls, before, want);
    lemma_made_calls(calls, before, want);
    let n = result->Ok_0;
    if n < want {
        assert(handed_over(calls) == data);
    } else {
        assert(after =~= data.take(want as int));
    }
}

/// How a source splits up its bytes, and how often it is interrupted, makes no
/// difference to the result or to the buffer.
pub proof fn law_pieces_and_interruptions_make_no_difference(
    calls: Seq<ReadCall>,
    others: Seq<ReadCall>,
    before: Seq<u8>,
    after: Seq<u8>,
    after_others: Seq<u8>,
    want: usize,
    result: Result<usize, std::io::Error>,
    other_result: Result<usize, std::io::Error>,
    data: Seq<u8>,
)
    requires
        fills(calls, before, after, want, result),
        fills(others, before, after_others, want, other_result),
        interruptions(calls) <= u64::MAX,
        interruptions(others) <= u64::MAX,
        serves(calls, data),
        serves(others, data),
    ensures
        result == other_result,
        after == after_others,
{
    law_pieces_fill_the_buffer(calls, before, after, want, result, data);
    law_pieces_fill_the_buffer(others, before, after_others, want, other_result, data);
}

/// How many bytes these calls say they handed over, in all.
pub open spec fn counted(calls: Seq<ReadCall>) -> nat
    decreases calls.len(),
{
    if calls.len() == 0 {
        0
    } else {
        counted(calls.drop_last()) + match calls.last().outcome {
            ReadOutcome::Bytes(n) => n as nat,
            _ => 0,
        }
    }
}

/// The count is the sum of what the calls say, whatever the reader is like, and
/// the largest number there is where the sum is larger. Reading stops at the
/// end of the input or where enough was handed over, and nowhere else.
pub proof fn law_count_is_the_sum(
    calls: Seq<ReadCall>,
    before: Seq<u8>,
    after: Seq<u8>,
    want: usize,
    result: Result<usize, std::io::Error>,
)
    requires
        fills(calls, before, after, want, result),
    ensures
        result matches Ok(n) ==> {
            &&& counted(calls) <= usize::MAX ==> n == counted(calls)
            &&& counted(calls) > usize::MAX ==> n == usize::MAX
            &&& n >= want || (calls.len() > 0 && calls.last().outcome == ReadOutcome::Bytes(0))
        },
        result matches Err(e) ==> calls.len() > 0 && (calls.last().outcome == ReadOutcome::Failed(e)
            || (calls.last().outcome == ReadOutcome::Interrupted(e) && interruptions(calls)
            > u64::MAX)),
{
    lemma_counted(calls, before, want);
    lemma_made_calls(calls, before, want);
}

proof fn lemma_counted(calls: Seq<ReadCall>, before: Seq<u8>, want: usize)
    requires
        before.len() == want,
        made(calls, before, want),
    ensures
        progress(calls, want) matches ReadStep::Continue(filled) ==> filled == counted(calls),
        progress(calls, want) matches ReadStep::Done(Ok(n)) ==> {
            &&& counted(calls) <= usize::MAX ==> n == counted(calls)
            &&& counted(calls) > usize::MAX ==> n == usize::MAX
            &&& n >= want || (calls.len() > 0 && calls.last().outcome == ReadOutcome::Bytes(0))
        },
    decreases calls.len(),
{
    if calls.len() > 0 {
        lemma_counted(calls.drop_last(), before, want);
    }
}

} // verus!
