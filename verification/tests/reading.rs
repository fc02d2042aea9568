use diskprobe::read::{read_step, read_up_to, ReadStep};
use diskprobe::source::{ReadOutcome, Source};

/// A reader that hands back at most `chunk` bytes per call, the way a pipe, a
/// network filesystem or a signal-interrupted read does.
struct Dribbling<'a> {
    data: &'a [u8],
    chunk: usize,
    /// Number of `read` calls that return `Interrupted` before any data is
    /// handed over.
    interruptions: usize,
}

impl std::io::Read for Dribbling<'_> {
    fn read(&mut self, buf: &mut [u8]) -> std::io::Result<usize> {
        if self.interruptions > 0 {
            self.interruptions -= 1;
            return Err(std::io::Error::new(
                std::io::ErrorKind::Interrupted,
                "signal",
            ));
        }
        let n = self.chunk.min(buf.len()).min(self.data.len());
        buf[..n].copy_from_slice(&self.data[..n]);
        self.data = &self.data[n..];
        Ok(n)
    }
}

/// A reader that fails partway through.
struct FailsAfter(usize);

impl std::io::Read for FailsAfter {
    fn read(&mut self, buf: &mut [u8]) -> std::io::Result<usize> {
        if self.0 == 0 {
            return Err(std::io::Error::other("device went away"));
        }
        let n = self.0.min(buf.len());
        buf[..n].fill(0xAB);
        self.0 = 0;
        Ok(n)
    }
}

/// A reader that claims more than it was asked for.
struct Boasting(usize);

impl std::io::Read for Boasting {
    fn read(&mut self, _buf: &mut [u8]) -> std::io::Result<usize> {
        Ok(self.0)
    }
}

#[test]
fn a_dribbling_source_still_fills_the_buffer() {
    let data = b"vhdxfile________";
    let mut r = Dribbling {
        data,
        chunk: 1,
        interruptions: 0,
    };
    let mut buf = [0u8; 16];
    assert_eq!(read_up_to(&mut Source::new(&mut r), &mut buf).unwrap(), 16);
    assert_eq!(&buf, data);
}

#[test]
fn a_short_source_reports_its_length_rather_than_failing() {
    let data = b"KDMV";
    let mut r = Dribbling {
        data,
        chunk: 16,
        interruptions: 0,
    };
    let mut buf = [0u8; 16];
    assert_eq!(read_up_to(&mut Source::new(&mut r), &mut buf).unwrap(), 4);
    assert_eq!(&buf[..4], data);
    assert_eq!(&buf[4..], &[0u8; 12], "the tail is left untouched");
}

#[test]
fn an_interrupted_read_is_retried_rather_than_reported() {
    let data = b"conectix________";
    let mut r = Dribbling {
        data,
        chunk: 4,
        interruptions: 3,
    };
    let mut buf = [0u8; 16];
    assert_eq!(read_up_to(&mut Source::new(&mut r), &mut buf).unwrap(), 16);
    assert_eq!(&buf, data);
}

#[test]
fn a_real_error_propagates_instead_of_reading_as_end_of_input() {
    let mut r = FailsAfter(4);
    let mut buf = [0u8; 16];
    let err = read_up_to(&mut Source::new(&mut r), &mut buf).expect_err("the error must not be swallowed");
    assert_eq!(err.to_string(), "device went away");
}

#[test]
fn an_empty_buffer_is_full_before_anything_is_read() {
    let mut r = FailsAfter(0);
    assert_eq!(read_up_to(&mut Source::new(&mut r), &mut []).unwrap(), 0);
}

#[test]
fn an_empty_source_reports_zero() {
    let mut r = Dribbling {
        data: b"",
        chunk: 16,
        interruptions: 0,
    };
    let mut buf = [7u8; 4];
    assert_eq!(read_up_to(&mut Source::new(&mut r), &mut buf).unwrap(), 0);
    assert_eq!(buf, [7u8; 4]);
}

#[test]
fn a_source_longer_than_the_buffer_is_read_no_further() {
    let mut r = Dribbling {
        data: b"0123456789",
        chunk: 3,
        interruptions: 0,
    };
    let mut buf = [0u8; 4];
    assert_eq!(read_up_to(&mut Source::new(&mut r), &mut buf).unwrap(), 4);
    assert_eq!(&buf, b"0123");
    assert_eq!(r.data, b"456789");
}

#[test]
fn a_count_past_the_buffer_is_passed_on() {
    let mut buf = [0u8; 4];
    assert_eq!(read_up_to(&mut Source::new(Boasting(9)), &mut buf).unwrap(), 9);
    assert_eq!(
        read_up_to(&mut Source::new(Boasting(usize::MAX)), &mut buf).unwrap(),
        usize::MAX
    );
}

#[test]
fn read_step_goes_on_until_there_is_enough() {
    assert!(matches!(
        read_step(3, 16, ReadOutcome::Bytes(4)),
        ReadStep::Continue(7)
    ));
    assert!(matches!(
        read_step(3, 7, ReadOutcome::Bytes(4)),
        ReadStep::Done(Ok(7))
    ));
    assert!(matches!(
        read_step(3, 16, ReadOutcome::Bytes(0)),
        ReadStep::Done(Ok(3))
    ));
}

#[test]
fn read_step_retries_interruptions_and_returns_failures() {
    let signal = std::io::Error::from(std::io::ErrorKind::Interrupted);
    assert!(matches!(
        read_step(5, 16, ReadOutcome::Interrupted(signal)),
        ReadStep::Continue(5)
    ));
    let gone = std::io::Error::other("device went away");
    match read_step(5, 16, ReadOutcome::Failed(gone)) {
        ReadStep::Done(Err(e)) => assert_eq!(e.to_string(), "device went away"),
        _ => panic!("expected the failure"),
    }
}

/// A reader that hands over `first`, then fails, and would go on after that.
struct FailsInBetween {
    first: &'static [u8],
    calls: usize,
}

impl std::io::Read for FailsInBetween {
    fn read(&mut self, buf: &mut [u8]) -> std::io::Result<usize> {
        self.calls += 1;
        if self.calls == 2 {
            return Err(std::io::Error::other("device went away"));
        }
        buf[..self.first.len()].copy_from_slice(self.first);
        Ok(self.first.len())
    }
}

#[test]
fn a_failure_is_the_last_read_and_keeps_what_came_before() {
    let mut r = FailsInBetween {
        first: b"KDMV",
        calls: 0,
    };
    let mut buf = [1u8; 16];
    let err = read_up_to(&mut Source::new(&mut r), &mut buf).unwrap_err();
    assert_eq!(err.to_string(), "device went away");
    assert_eq!(r.calls, 2);
    assert_eq!(&buf[..4], b"KDMV");
    assert_eq!(&buf[4..], &[1u8; 12]);
}

#[test]
fn pieces_and_interruptions_are_not_observable() {
    for chunk in 1..20 {
        for interruptions in 0..4 {
            let mut r = Dribbling {
                data: b"0123456789",
                chunk,
                interruptions,
            };
            let mut buf = [b'x'; 12];
            assert_eq!(read_up_to(&mut Source::new(&mut r), &mut buf).unwrap(), 10);
            assert_eq!(&buf, b"0123456789xx");
        }
    }
}
