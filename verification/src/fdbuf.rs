//! Ring buffer with edge-triggered wake-up over file descriptors.
//!
//! Each endpoint wraps a ring endpoint and two descriptors it does not own:
//! a `signal_fd` it writes one token to when it makes the transition the
//! peer may be sleeping on (empty to non-empty for the producer, full to
//! non-full for the consumer), and a `wait_fd` it drains after being woken.
//! Tokens are written only on those two transitions, never on every
//! operation, so a long run wakes each side at most once per transition.
//! The endpoints never block and close nothing; callers wait on the
//! descriptors in their own event loop.

use vstd::prelude::*;
use crate::ringbuf;
use crate::ringbuf::{pair_wf, ChannelError, SharedRegion};

verus! {

/// A descriptor write or read that failed, carrying the reported errno.
/// A zero-byte completion, which the wake protocol rules out, is reported
/// as errno 0.
#[derive(Debug, Clone, Copy, PartialEq, Eq, Structural)]
pub struct FdError {
    pub errno: i32,
}

/// A pair of descriptor numbers for one wake direction: where the waker
/// writes and where the sleeper reads. For an eventfd both fields carry the
/// same number; for a pipe they differ.
#[derive(Debug, Clone, Copy)]
pub struct Pipe {
    pub reader: i32,
    pub writer: i32,
}

/// Producer endpoint with wake-up wiring.
pub struct Sender {
    inner: ringbuf::Sender,
    signal_fd: i32,
    wait_fd: i32,
}

/// Consumer endpoint with wake-up wiring.
pub struct Receiver {
    inner: ringbuf::Receiver,
    signal_fd: i32,
    wait_fd: i32,
}

/// Relies on `nix::unistd::write`: hands the byte buffer to the `write(2)`
/// syscall on `fd` and reports either how many bytes the kernel accepted —
/// never more than the buffer holds — or the errno of the failure.
#[verifier::external_body]
fn write_fd(fd: i32, buf: &Vec<u8>) -> (r: Result<usize, i32>)
    ensures
        r is Ok ==> r->Ok_0 <= buf@.len(),
{
    match nix::unistd::write(fd, buf.as_slice()) {
        Ok(n) => Ok(n),
        Err(e) => Err(e as i32),
    }
}

/// Relies on `nix::unistd::read`: fills a prefix of the buffer from `fd`
/// through the `read(2)` syscall and reports either how many bytes came —
/// never more than the buffer holds — or the errno of the failure.
#[verifier::external_body]
fn read_fd(fd: i32, buf: &mut Vec<u8>) -> (r: Result<usize, i32>)
    ensures
        final(buf)@.len() == old(buf)@.len(),
        r is Ok ==> r->Ok_0 <= old(buf)@.len(),
{
    match nix::unistd::read(fd, buf.as_mut_slice()) {
        Ok(n) => Ok(n),
        Err(e) => Err(e as i32),
    }
}

/// One wake token: a single 8-byte little-endian `1` — the value an eventfd
/// adds to its counter and a pipe carries as eight raw bytes.
fn signal_token() -> (v: Vec<u8>)
    ensures
        v@.len() == 8,
        v@[0] == 1u8,
        forall|i: int| 1 <= i < 8 ==> v@[i] == 0u8,
{
    let mut v: Vec<u8> = Vec::new();
    v.push(1);
    v.push(0);
    v.push(0);
    v.push(0);
    v.push(0);
    v.push(0);
    v.push(0);
    v.push(0);
    v
}

/// Map a raw descriptor completion to the caller's outcome: success if and
/// only if a positive byte count came back; a reported failure surfaces its
/// errno unchanged; a zero-byte completion — which the wake protocol rules
/// out — is reported as errno 0.
fn classify_outcome(res: Result<usize, i32>) -> (r: Result<(), FdError>)
    ensures
        r is Ok <==> (res is Ok && res->Ok_0 > 0),
        res is Err ==> r == (Err::<(), FdError>(FdError { errno: res->Err_0 })),
        res is Ok && res->Ok_0 == 0 ==> r == (Err::<(), FdError>(FdError { errno: 0 })),
{
    match res {
        Ok(n) => {
            if n > 0 {
                Ok(())
            } else {
                Err(FdError { errno: 0 })
            }
        },
        Err(e) => Err(FdError { errno: e }),
    }
}

/// Write one wake token to `fd`: a single write of the 8-byte token, its
/// completion classified by `classify_outcome`.
fn send_token(fd: i32) -> (r: Result<(), FdError>) {
    let token: Vec<u8> = signal_token();
    let res: Result<usize, i32> = write_fd(fd, &token);
    classify_outcome(res)
}

/// The buffer a drain hands to its single read: 32 eight-byte words, room
/// for every token the peer can have accumulated.
fn drain_buffer() -> (v: Vec<u8>)
    ensures
        v@.len() == 32 * 8,
{
    vec![0u8; 256]
}

/// Drain a wake descriptor: a single read into a `drain_buffer`, its
/// completion classified by `classify_outcome` — success if and only if at
/// least one byte came out.
fn drain_tokens(fd: i32) -> (r: Result<(), FdError>) {
    let mut buf: Vec<u8> = drain_buffer();
    let res: Result<usize, i32> = read_fd(fd, &mut buf);
    classify_outcome(res)
}

/// Number of raised flags in a sequence.
pub open spec fn count_flags(s: Seq<bool>) -> int
    decreases s.len(),
{
    if s.len() == 0 {
        0
    } else {
        count_flags(s.drop_last()) + if s.last() {
            1int
        } else {
            0int
        }
    }
}

/// Edge triggering over a whole run: every operation writes a wake token
/// only when it makes its transition — `send` and `recv` state that of each
/// call — so however long the run, the tokens written never outnumber the
/// transitions made. Flag sequence `signalled` records which operations
/// wrote a token, `transitioned` which made their transition.
pub proof fn lemma_edge_trigger_bound(signalled: Seq<bool>, transitioned: Seq<bool>)
    requires
        signalled.len() == transitioned.len(),
        forall|i: int| 0 <= i < signalled.len() ==> (signalled[i] ==> transitioned[i]),
    ensures
        count_flags(signalled) <= count_flags(transitioned),
    decreases signalled.len(),
{
    if signalled.len() > 0 {
        assert(signalled.last() ==> transitioned.last());
        lemma_edge_trigger_bound(signalled.drop_last(), transitioned.drop_last());
    }
}

impl Sender {
    /// The wrapped ring endpoint.
    pub closed spec fn inner_spec(self) -> ringbuf::Sender {
        self.inner
    }

    /// Descriptor written to wake the consumer.
    pub closed spec fn signal_fd_spec(self) -> i32 {
        self.signal_fd
    }

    /// Descriptor the producer drains after being woken.
    pub closed spec fn wait_fd_spec(self) -> i32 {
        self.wait_fd
    }

    /// A single contiguous fill pass, then a wake token to the consumer if
    /// — and only if — this call made the empty-to-non-empty transition.
    /// Returns `(written, free_after, signal)`: the ring part always
    /// completes; `signal` reports the token write, so it can fail only
    /// when the transition happened.
    pub fn send<T: Copy>(&mut self, region: &mut SharedRegion<T>, items: &Vec<T>) -> (r: (
        usize,
        usize,
        Result<(), FdError>,
    ))
        requires
            old(region).wf(),
            old(self).inner_spec().wf_for(*old(region)),
        ensures
            ({
                let n = vstd::math::min(
                    items@.len() as int,
                    old(self).inner_spec().contiguous_free(*old(region)),
                );
                let transition = old(region).live_count() == 0 && n > 0;
                &&& r.0 == n
                &&& r.1 == final(region).free_count()
                &&& (r.2 is Err ==> transition)
                &&& (!transition ==> r.2 is Ok)
                &&& final(region).wf()
                &&& final(region).capacity() == old(region).capacity()
                &&& final(region).live_count() == old(region).live_count() + n
                &&& final(self).inner_spec().wf_for(*final(region))
                &&& final(region).live_from(
                    old(self).inner_spec().read_start(*old(region)),
                ) == old(region).live_from(old(self).inner_spec().read_start(*old(region)))
                    + items@.take(n)
                &&& final(self).inner_spec().read_start(*final(region)) == old(
                    self,
                ).inner_spec().read_start(*old(region))
                &&& final(self).signal_fd_spec() == old(self).signal_fd_spec()
                &&& final(self).wait_fd_spec() == old(self).wait_fd_spec()
            }),
            forall|peer: ringbuf::Receiver|
                #[trigger] pair_wf(old(self).inner_spec(), peer, *old(region)) ==> pair_wf(
                    final(self).inner_spec(),
                    peer,
                    *final(region),
                ),
    {
        let (n, free_after, was_empty) = self.inner.send(region, items);
        let sig: Result<(), FdError> = if was_empty {
            send_token(self.signal_fd)
        } else {
            Ok(())
        };
        (n, free_after, sig)
    }

    /// Fill from `items` using the full free capacity — up to two
    /// contiguous passes across the wrap — then a wake token to the
    /// consumer if and only if the empty-to-non-empty transition happened.
    /// Returns `(written, free_after, signal)` as `send` does.
    pub fn send_foreach<T: Copy>(&mut self, region: &mut SharedRegion<T>, items: &Vec<T>) -> (r: (
        usize,
        usize,
        Result<(), FdError>,
    ))
        requires
            old(region).wf(),
            old(self).inner_spec().wf_for(*old(region)),
        ensures
            ({
                let n = vstd::math::min(items@.len() as int, old(region).free_count());
                let transition = old(region).live_count() == 0 && n > 0;
                &&& r.0 == n
                &&& r.1 == final(region).free_count()
                &&& (r.2 is Err ==> transition)
                &&& (!transition ==> r.2 is Ok)
                &&& final(region).wf()
                &&& final(region).capacity() == old(region).capacity()
                &&& final(region).live_count() == old(region).live_count() + n
                &&& final(self).inner_spec().wf_for(*final(region))
                &&& final(region).live_from(
                    old(self).inner_spec().read_start(*old(region)),
                ) == old(region).live_from(old(self).inner_spec().read_start(*old(region)))
                    + items@.take(n)
                &&& final(self).inner_spec().read_start(*final(region)) == old(
                    self,
                ).inner_spec().read_start(*old(region))
                &&& final(self).signal_fd_spec() == old(self).signal_fd_spec()
                &&& final(self).wait_fd_spec() == old(self).wait_fd_spec()
            }),
            forall|peer: ringbuf::Receiver|
                #[trigger] pair_wf(old(self).inner_spec(), peer, *old(region)) ==> pair_wf(
                    final(self).inner_spec(),
                    peer,
                    *final(region),
                ),
    {
        let (n, free_after, was_empty) = self.inner.send_foreach(region, items);
        let sig: Result<(), FdError> = if was_empty {
            send_token(self.signal_fd)
        } else {
            Ok(())
        };
        (n, free_after, sig)
    }

    /// The descriptor to wait on, and the free capacity. A caller may block
    /// on the descriptor only when the capacity is 0: otherwise no token
    /// will come and it would sleep beside a usable ring.
    pub fn wait_status<T>(&self, region: &SharedRegion<T>) -> (r: (i32, usize))
        requires
            region.wf(),
        ensures
            r.0 == self.wait_fd_spec(),
            r.1 == region.free_count(),
    {
        (self.wait_fd, self.inner.write_count(region))
    }

    /// Drain the wait descriptor after being woken, with one read sized for
    /// all accumulated tokens. Call it only after the descriptor was
    /// reported readable, or the read may block or fail. The endpoint
    /// itself — ring state and wiring — is untouched.
    pub fn wait_clear(&mut self) -> (r: Result<(), FdError>)
        ensures
            final(self).inner_spec() == old(self).inner_spec(),
            final(self).signal_fd_spec() == old(self).signal_fd_spec(),
            final(self).wait_fd_spec() == old(self).wait_fd_spec(),
    {
        drain_tokens(self.wait_fd)
    }
}

impl Receiver {
    /// The wrapped ring endpoint.
    pub closed spec fn inner_spec(self) -> ringbuf::Receiver {
        self.inner
    }

    /// Descriptor written to wake the producer.
    pub closed spec fn signal_fd_spec(self) -> i32 {
        self.signal_fd
    }

    /// Descriptor the consumer drains after being woken.
    pub closed spec fn wait_fd_spec(self) -> i32 {
        self.wait_fd
    }

    /// Consume up to `max` items from the contiguous live run, then a wake
    /// token to the producer if — and only if — this call made the
    /// full-to-non-full transition. Returns `(taken, live_after, signal)`:
    /// the ring part always completes; `signal` reports the token write, so
    /// it can fail only when the transition happened.
    pub fn recv<T: Copy>(&mut self, region: &mut SharedRegion<T>, max: usize) -> (r: (
        Vec<T>,
        usize,
        Result<(), FdError>,
    ))
        requires
            old(region).wf(),
            old(self).inner_spec().wf_for(*old(region)),
        ensures
            ({
                let n = vstd::math::min(
                    max as int,
                    old(self).inner_spec().contiguous_live(*old(region)),
                );
                let transition = old(region).live_count() >= old(region).capacity() && n > 0;
                &&& r.0@.len() == n
                &&& r.0@ == old(region).live_from(old(self).inner_spec().index_spec()).take(n)
                &&& r.1 == final(region).live_count()
                &&& (r.2 is Err ==> transition)
                &&& (!transition ==> r.2 is Ok)
                &&& final(region).wf()
                &&& final(region).capacity() == old(region).capacity()
                &&& final(region).live_count() == old(region).live_count() - n
                &&& final(self).inner_spec().wf_for(*final(region))
                &&& (forall|j: int|
                    0 <= j < old(region).capacity() ==> final(region).slot(j) == old(
                        region,
                    ).slot(j))
                &&& final(region).live_from(final(self).inner_spec().index_spec()) == old(
                    region,
                ).live_from(old(self).inner_spec().index_spec()).skip(n)
                &&& final(self).signal_fd_spec() == old(self).signal_fd_spec()
                &&& final(self).wait_fd_spec() == old(self).wait_fd_spec()
            }),
            forall|peer: ringbuf::Sender|
                #[trigger] pair_wf(peer, old(self).inner_spec(), *old(region)) ==> pair_wf(
                    peer,
                    final(self).inner_spec(),
                    *final(region),
                ),
    {
        let (taken, live_after, was_full) = self.inner.recv(region, max);
        let sig: Result<(), FdError> = if was_full {
            send_token(self.signal_fd)
        } else {
            Ok(())
        };
        (taken, live_after, sig)
    }

    /// The descriptor to wait on, and the live item count. A caller may
    /// block on the descriptor only when the count is 0: otherwise no token
    /// will come and it would sleep beside readable data.
    pub fn wait_status<T>(&self, region: &SharedRegion<T>) -> (r: (i32, usize))
        requires
            region.wf(),
        ensures
            r.0 == self.wait_fd_spec(),
            r.1 == region.live_count(),
    {
        (self.wait_fd, self.inner.read_count(region))
    }

    /// Drain the wait descriptor after being woken, with one read sized for
    /// all accumulated tokens. Call it only after the descriptor was
    /// reported readable, or the read may block or fail. The endpoint
    /// itself — ring state and wiring — is untouched.
    pub fn wait_clear(&mut self) -> (r: Result<(), FdError>)
        ensures
            final(self).inner_spec() == old(self).inner_spec(),
            final(self).signal_fd_spec() == old(self).signal_fd_spec(),
            final(self).wait_fd_spec() == old(self).wait_fd_spec(),
    {
        drain_tokens(self.wait_fd)
    }
}

/// Create a channel pair with wake-up wiring over a byte budget, as the
/// ring-core constructor does. `empty` carries the producer's wake of the
/// consumer (written on empty to non-empty), `full` the consumer's wake of
/// the producer (written on full to non-full). The descriptors are not
/// owned and are never closed here.
pub fn channel<T: Copy>(buffer_len: usize, fill: T, empty: Pipe, full: Pipe) -> (r: Result<
    (Sender, Receiver, SharedRegion<T>),
    ChannelError,
>)
    requires
        vstd::layout::size_of::<T>() > 0,
    ensures
        r is Ok <==> vstd::layout::size_of::<usize>() + vstd::layout::size_of::<T>()
            <= buffer_len,
        r is Err ==> r->Err_0 == ChannelError::BufferTooSmall,
        r is Ok ==> ({
            let (s, c, region) = r->Ok_0;
            &&& pair_wf(s.inner_spec(), c.inner_spec(), region)
            &&& region.capacity() == (buffer_len - vstd::layout::size_of::<usize>())
                / (vstd::layout::size_of::<T>() as int)
            &&& region.live_count() == 0
            &&& s.inner_spec().index_spec() == 0
            &&& c.inner_spec().index_spec() == 0
            &&& s.signal_fd_spec() == empty.writer
            &&& s.wait_fd_spec() == full.reader
            &&& c.signal_fd_spec() == full.writer
            &&& c.wait_fd_spec() == empty.reader
            &&& forall|j: int| 0 <= j < region.capacity() ==> region.slot(j) == fill
        }),
{
    match ringbuf::channel(buffer_len, fill) {
        Ok((s, c, region)) => Ok(
            (
                Sender { inner: s, signal_fd: empty.writer, wait_fd: full.reader },
                Receiver { inner: c, signal_fd: full.writer, wait_fd: empty.reader },
                region,
            ),
        ),
        Err(e) => Err(e),
    }
}

} // verus!
