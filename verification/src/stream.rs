//! Pumping a byte source into a timestamping writer.
//!
//! [`IoFailure`] is the crate's own record of a failed read, write or
//! flush, and [`line_timing_copy`] drains a reader into an [`RtssWriter`]
//! until end-of-stream or the first failure that is not a transient
//! interruption of a read.

use vstd::prelude::*;

use crate::writer::RtssWriter;

verus! {

/// Which operation a failure came from: reading the source, writing the
/// sink, or flushing it.
#[derive(Clone, Copy, PartialEq, Eq, Structural, Debug)]
pub enum FailureOrigin {
    Read,
    Write,
    Flush,
}

/// What a failed read, write or flush left behind: where it arose, the
/// OS error code if there was one, whether the failure was a transient
/// interruption, and the rendered message.
#[derive(Clone, Debug)]
pub struct IoFailure {
    pub origin: FailureOrigin,
    pub os_code: Option<i32>,
    pub interrupted: bool,
    pub message: String,
}

/// Relies on `std::io::Write::write_all`: writes the whole buffer to the
/// sink or reports the first error, which is documented never to be of
/// the interrupted kind.  Nothing is promised of the sink's state.
#[verifier::external_body]
pub(crate) fn sink_write_all<W: std::io::Write>(w: &mut W, buf: &[u8]) -> (r: Result<
    (),
    IoFailure,
>)
    ensures
        r matches Err(e) ==> !e.interrupted && e.origin == FailureOrigin::Write,
{
    match w.write_all(buf) {
        Ok(()) => Ok(()),
        Err(e) => Err(IoFailure {
            origin: FailureOrigin::Write,
            os_code: e.raw_os_error(),
            interrupted: e.kind() == std::io::ErrorKind::Interrupted,
            message: e.to_string(),
        }),
    }
}

/// Relies on `std::io::Write::flush`: pushes buffered bytes down to the
/// sink or reports the error.
#[verifier::external_body]
pub(crate) fn sink_flush<W: std::io::Write>(w: &mut W) -> (r: Result<(), IoFailure>)
    ensures
        r matches Err(e) ==> e.origin == FailureOrigin::Flush,
{
    match w.flush() {
        Ok(()) => Ok(()),
        Err(e) => Err(IoFailure {
            origin: FailureOrigin::Flush,
            os_code: e.raw_os_error(),
            interrupted: e.kind() == std::io::ErrorKind::Interrupted,
            message: e.to_string(),
        }),
    }
}

/// Relies on `std::io::Read::read`: on success the reader filled the
/// first `n` bytes of the buffer, `n` is zero only at end-of-stream, and
/// the buffer keeps its length.  What the bytes are depends on the source
/// and is promised nowhere.
#[verifier::external_body]
fn read_chunk<R: std::io::Read>(r: &mut R, buf: &mut Vec<u8>) -> (res: Result<usize, IoFailure>)
    ensures
        final(buf)@.len() == old(buf)@.len(),
        res matches Ok(n) ==> n <= old(buf)@.len(),
        res matches Err(e) ==> e.origin == FailureOrigin::Read,
{
    match r.read(buf.as_mut_slice()) {
        Ok(n) => Ok(n),
        Err(e) => Err(IoFailure {
            origin: FailureOrigin::Read,
            os_code: e.raw_os_error(),
            interrupted: e.kind() == std::io::ErrorKind::Interrupted,
            message: e.to_string(),
        }),
    }
}

/// `n` capped at the largest `u64`.
pub open spec fn cap_u64(n: nat) -> u64 {
    if n > u64::MAX {
        u64::MAX
    } else {
        n as u64
    }
}

/// Drain `input` into the timestamping writer `w` until end-of-stream or
/// the first failure that is not an interrupted read: every line is
/// prefixed with the elapsed times the writer measures, per
/// [`RtssWriter::write`]'s contract.
///
/// What comes back from the source, and whether the sink accepts it, is
/// the outside world's affair; the contract ties everything else down.
/// The writer only ever accepts more bytes, appended to what it had.  On
/// success the returned count is exactly the number of bytes the writer
/// accepted during this call, capped at `u64::MAX`.  On failure the
/// surfaced error is never an interrupted read — those are retried — nor
/// an interrupted write; only a flush can surface one.
pub fn line_timing_copy<R: std::io::Read, W: std::io::Write>(
    input: &mut R,
    w: &mut RtssWriter<W>,
) -> (r: Result<u64, IoFailure>)
    requires
        old(w).wf(),
    ensures
        final(w).wf(),
        final(w).fmt() == old(w).fmt(),
        final(w).sep() == old(w).sep(),
        final(w).start_time() == old(w).start_time(),
        final(w).accepted().len() >= old(w).accepted().len(),
        final(w).accepted().take(old(w).accepted().len() as int) == old(w).accepted(),
        final(w).emitted().len() >= old(w).emitted().len(),
        final(w).emitted().take(old(w).emitted().len() as int) == old(w).emitted(),
        r matches Ok(n) ==> n == cap_u64(
            (final(w).accepted().len() - old(w).accepted().len()) as nat,
        ),
        r matches Err(e) ==> !e.interrupted || e.origin == FailureOrigin::Flush,
{
    let mut buf: Vec<u8> = vec![0u8; 8192];
    let mut total: u64 = 0;
    let ghost mut done: Seq<u8> = Seq::empty();
    proof {
        assert(old(w).accepted() + done =~= old(w).accepted());
        assert(old(w).emitted().take(old(w).emitted().len() as int) =~= old(w).emitted());
        assert(old(w).accepted().take(old(w).accepted().len() as int) =~= old(w).accepted());
    }
    // The loop runs until end-of-stream; the explicit bound, far beyond
    // any reachable number of reads, only makes its termination provable.
    let mut fuel: u64 = u64::MAX;
    while fuel > 0
        invariant
            w.wf(),
            buf@.len() == 8192,
            w.fmt() == old(w).fmt(),
            w.sep() == old(w).sep(),
            w.start_time() == old(w).start_time(),
            w.accepted() == old(w).accepted() + done,
            done.len() <= u64::MAX ==> total == done.len(),
            done.len() > u64::MAX ==> total == u64::MAX,
            w.emitted().len() >= old(w).emitted().len(),
            w.emitted().take(old(w).emitted().len() as int) == old(w).emitted(),
        decreases fuel,
    {
        fuel = fuel - 1;
        match read_chunk(input, &mut buf) {
            Err(e) => {
                if !e.interrupted {
                    proof {
                        lemma_take_of_concat_prefix(old(w).accepted(), done);
                    }
                    return Err(e);
                }
            },
            Ok(n) => {
                if n == 0 {
                    proof {
                        lemma_take_of_concat_prefix(old(w).accepted(), done);
                    }
                    return Ok(total);
                }
                let chunk = vstd::slice::slice_subrange(buf.as_slice(), 0, n);
                let ghost done0 = done;
                let ghost emitted_before = w.emitted();
                match w.write(chunk) {
                    Ok(_) => {},
                    Err(e) => {
                        proof {
                            lemma_take_of_concat_prefix(old(w).accepted(), done);
                        }
                        return Err(e);
                    },
                }
                proof {
                    done = done0 + chunk@;
                    assert(old(w).accepted() + done0 + chunk@ =~= old(w).accepted() + done);
                    assert(w.emitted().take(old(w).emitted().len() as int) =~= emitted_before.take(
                        old(w).emitted().len() as int,
                    ));
                }
                total = if total <= u64::MAX - (n as u64) {
                    total + (n as u64)
                } else {
                    u64::MAX
                };
            },
        }
    }
    proof {
        lemma_take_of_concat_prefix(old(w).accepted(), done);
    }
    Ok(total)
}

/// Taking a concatenation back to the length of its first part yields
/// that part.
proof fn lemma_take_of_concat_prefix(a: Seq<u8>, b: Seq<u8>)
    ensures
        (a + b).take(a.len() as int) == a,
        (a + b).len() >= a.len(),
{
    assert((a + b).take(a.len() as int) =~= a);
}

} // verus!
