use fdringbuf::channel_bufsize;
use fdringbuf::fdbuf::{channel, Pipe};
use nix::errno::Errno;
use nix::fcntl::{fcntl, FcntlArg, OFlag};

fn make_pipe() -> Pipe {
    let (reader, writer) = nix::unistd::pipe().unwrap();
    // Reads must not block when the test checks that no token arrived.
    fcntl(reader, FcntlArg::F_SETFL(OFlag::O_NONBLOCK)).unwrap();
    Pipe { reader, writer }
}

fn close_pipe(p: Pipe) {
    nix::unistd::close(p.reader).unwrap();
    nix::unistd::close(p.writer).unwrap();
}

/// Read whatever is pending on `fd`, up to 64 bytes.
fn read_pending(fd: i32) -> Result<Vec<u8>, Errno> {
    let mut buf = [0u8; 64];
    let n = nix::unistd::read(fd, &mut buf)?;
    Ok(buf[..n].to_vec())
}

#[test]
fn wake_on_empty_to_nonempty() {
    let empty = make_pipe();
    let full = make_pipe();
    let (mut s, _r, mut region) = channel::<u16>(channel_bufsize::<u16>(3), 0, empty, full).unwrap();

    // First item enters an empty ring: exactly one 8-byte token.
    let (n, _, sig) = s.send(&mut region, &vec![5u16]);
    assert_eq!(n, 1);
    assert!(sig.is_ok());
    let token = read_pending(empty.reader).unwrap();
    assert_eq!(token, vec![1, 0, 0, 0, 0, 0, 0, 0]);

    // Second item finds the ring non-empty: no further token.
    let (n, _, sig) = s.send(&mut region, &vec![6u16]);
    assert_eq!(n, 1);
    assert!(sig.is_ok());
    assert_eq!(read_pending(empty.reader).unwrap_err(), Errno::EAGAIN);

    close_pipe(empty);
    close_pipe(full);
}

#[test]
fn wake_on_full_to_nonfull() {
    let empty = make_pipe();
    let full = make_pipe();
    let (mut s, mut r, mut region) =
        channel::<u16>(channel_bufsize::<u16>(3), 0, empty, full).unwrap();

    let (n, free, _) = s.send_foreach(&mut region, &vec![5u16, 8, 9]);
    assert_eq!(n, 3);
    assert_eq!(free, 0);

    // First removal from a full ring: exactly one 8-byte token.
    let (got, _, sig) = r.recv(&mut region, 1);
    assert_eq!(got, vec![5]);
    assert!(sig.is_ok());
    let token = read_pending(full.reader).unwrap();
    assert_eq!(token, vec![1, 0, 0, 0, 0, 0, 0, 0]);

    // Further removals without a refill: no further token.
    let (got, _, sig) = r.recv(&mut region, 1);
    assert_eq!(got, vec![8]);
    assert!(sig.is_ok());
    assert_eq!(read_pending(full.reader).unwrap_err(), Errno::EAGAIN);

    close_pipe(empty);
    close_pipe(full);
}

#[test]
fn wait_clear_drains_the_token() {
    let empty = make_pipe();
    let full = make_pipe();
    let (mut s, mut r, mut region) =
        channel::<u16>(channel_bufsize::<u16>(3), 0, empty, full).unwrap();

    let (_, _, sig) = s.send(&mut region, &vec![5u16]);
    assert!(sig.is_ok());

    // The consumer was woken: draining succeeds once, then the descriptor
    // is empty again and a second drain reports would-block.
    assert!(r.wait_clear().is_ok());
    assert_eq!(r.wait_clear().unwrap_err().errno, Errno::EAGAIN as i32);

    close_pipe(empty);
    close_pipe(full);
}

#[test]
fn wait_clear_on_quiet_descriptor_reports_errno() {
    let empty = make_pipe();
    let full = make_pipe();
    let (mut s, _r, _region) =
        channel::<u16>(channel_bufsize::<u16>(3), 0, empty, full).unwrap();

    // Nobody signalled the producer: its wait descriptor holds nothing.
    let err = s.wait_clear().unwrap_err();
    assert_eq!(err.errno, Errno::EAGAIN as i32);

    close_pipe(empty);
    close_pipe(full);
}

#[test]
fn wait_status_reports_descriptor_and_room() {
    let empty = make_pipe();
    let full = make_pipe();
    let (mut s, r, mut region) =
        channel::<u16>(channel_bufsize::<u16>(3), 0, empty, full).unwrap();

    assert_eq!(s.wait_status(&region), (full.reader, 3));
    assert_eq!(r.wait_status(&region), (empty.reader, 0));
    s.send(&mut region, &vec![5u16]);
    assert_eq!(s.wait_status(&region), (full.reader, 2));
    assert_eq!(r.wait_status(&region), (empty.reader, 1));

    close_pipe(empty);
    close_pipe(full);
}

#[test]
fn sentinel_shutdown() {
    let empty = make_pipe();
    let full = make_pipe();
    let (mut s, mut r, mut region) =
        channel::<i16>(channel_bufsize::<i16>(8), 0, empty, full).unwrap();

    // The producer submits its data followed by an in-band sentinel.
    let data: Vec<i16> = vec![3, 1, 4, 1, 5];
    let expected: i64 = data.iter().map(|v| *v as i64).sum();
    let (n, _, sig) = s.send_foreach(&mut region, &data);
    assert_eq!(n, data.len());
    assert!(sig.is_ok());
    let (n, _, sig) = s.send(&mut region, &vec![-1i16]);
    assert_eq!(n, 1);
    assert!(sig.is_ok());

    // The consumer drains until it meets the sentinel.
    let mut sum: i64 = 0;
    let mut done = false;
    while !done {
        let (_, available) = r.wait_status(&region);
        if available == 0 {
            // A real event loop would block on the wait descriptor here;
            // this run never starves because everything is already queued.
            panic!("queue ran dry before the sentinel");
        }
        let (got, _, sig) = r.recv(&mut region, 4);
        assert!(sig.is_ok());
        for v in got {
            if v == -1 {
                done = true;
                break;
            }
            sum += v as i64;
        }
    }
    assert_eq!(sum, expected);

    // The producer's first send woke the consumer exactly once.
    assert!(r.wait_clear().is_ok());
    assert_eq!(r.wait_clear().unwrap_err().errno, Errno::EAGAIN as i32);

    close_pipe(empty);
    close_pipe(full);
}
