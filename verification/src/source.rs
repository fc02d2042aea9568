//! A file or another source of bytes, with a record of what was done to it.

use vstd::prelude::*;

verus! {

/// The error of `std::io`, carried through from a source to the caller.
#[verifier::external_type_specification]
#[verifier::external_body]
pub struct ExIoError(std::io::Error);

/// What one call to a reader came back with.
pub enum ReadOutcome {
    /// This many bytes were handed over; none means the input has ended.
    Bytes(usize),
    /// A signal arrived before anything was transferred.
    Interrupted(std::io::Error),
    /// The reader failed.
    Failed(std::io::Error),
}

/// One call to a reader: it was lent the buffer from `at` on, which held
/// `before` then and `after` once the call was back.
pub struct ReadCall {
    pub at: usize,
    pub before: Seq<u8>,
    pub outcome: ReadOutcome,
    pub after: Seq<u8>,
}

/// One thing done to a source.
pub enum IoStep {
    /// A read.
    Read(ReadCall),
    /// A move to an offset from the start, and what came of it.
    Seek { offset: u64, moved: Result<u64, std::io::Error> },
}

/// A source of bytes, with everything that was done to it so far.
pub struct Source<R> {
    reader: R,
    steps: Ghost<Seq<IoStep>>,
}

/// The steps that these reads are.
pub open spec fn reads(calls: Seq<ReadCall>) -> Seq<IoStep> {
    calls.map_values(|call: ReadCall| IoStep::Read(call))
}

/// A log tells which reads were made: there is only one way to extend it by
/// reads to the same log.
pub proof fn law_log_tells_the_reads(log: Seq<IoStep>, calls: Seq<ReadCall>, others: Seq<ReadCall>)
    requires
        log + reads(calls) == log + reads(others),
    ensures
        calls == others,
{
    assert((log + reads(calls)).skip(log.len() as int) =~= reads(calls));
    assert((log + reads(others)).skip(log.len() as int) =~= reads(others));
    assert forall|i: int| 0 <= i < calls.len() implies calls[i] == others[i] by {
        assert(reads(calls)[i] == IoStep::Read(calls[i]));
        assert(reads(others)[i] == IoStep::Read(others[i]));
    }
    assert(calls =~= others);
}

impl<R> Source<R> {
    /// What was done to the source so far, in order.
    pub closed spec fn log(&self) -> Seq<IoStep> {
        self.steps@
    }

    /// A source that nothing was done to yet.
    pub fn new(reader: R) -> (source: Source<R>)
        ensures
            source.log() == Seq::<IoStep>::empty(),
    {
        Source { reader, steps: Ghost(Seq::empty()) }
    }
}

impl<R: std::io::Read> Source<R> {
    /// `std::io::Read::read` on the part of `buf` from `at` on, which is the
    /// step that the log gains.
    ///
    /// The reader is lent that part alone, so the bytes before it stay as they
    /// are. Nothing is claimed of the count, the error or the bytes: they are
    /// the reader's.
    #[verifier::external_body]
    pub(crate) fn read_at(&mut self, buf: &mut [u8], at: usize) -> (outcome: ReadOutcome)
        requires
            at <= old(buf)@.len(),
        ensures
            final(buf)@.len() == old(buf)@.len(),
            final(buf)@.take(at as int) == old(buf)@.take(at as int),
            final(self).log() == old(self).log().push(
                IoStep::Read(
                    ReadCall { at, before: old(buf)@, outcome, after: final(buf)@ },
                ),
            ),
    {
        match self.reader.read(&mut buf[at..]) {
            Ok(n) => ReadOutcome::Bytes(n),
            Err(e) if e.kind() == std::io::ErrorKind::Interrupted => ReadOutcome::Interrupted(e),
            Err(e) => ReadOutcome::Failed(e),
        }
    }
}

impl<R: std::io::Seek> Source<R> {
    /// `std::io::Seek::seek` to an offset from the start, which is the step
    /// that the log gains.
    ///
    /// Nothing is claimed of the result: it is the source's.
    #[verifier::external_body]
    pub(crate) fn seek_to(&mut self, offset: u64) -> (moved: std::io::Result<u64>)
        ensures
            final(self).log() == old(self).log().push(IoStep::Seek { offset, moved }),
    {
        self.reader.seek(std::io::SeekFrom::Start(offset))
    }
}

} // verus!
