use fdringbuf::channel_bufsize;
use fdringbuf::ringbuf::{channel, ChannelError};

#[test]
fn owner() {
    // A thirty-byte budget: room for the counter word and two eight-byte
    // slots.
    let r = channel::<i64>(30, 20i64);
    assert!(r.is_ok());
}

#[test]
fn simple_test() {
    // 20-byte budget for u16 slots: counter word plus six slots.
    let (mut s, mut r, mut region) = channel::<u16>(20, 10).unwrap();

    // is it empty?
    let (got, live, was_full) = r.recv(&mut region, usize::MAX);
    assert_eq!(got.len(), 0);
    assert_eq!(live, 0);
    assert!(!was_full);

    let (n, _free, was_empty) = s.send(&mut region, &vec![5u16]);
    assert_eq!(n, 1);
    assert!(was_empty);

    let peeked = r.peek(&region);
    assert_eq!(peeked.len(), 1);
    assert_eq!(peeked[0], 5);

    let (got, live, _) = r.recv(&mut region, 1);
    assert_eq!(got.len(), 1);
    assert_eq!(got[0], 5);
    assert_eq!(live, 0);

    let (got, _, _) = r.recv(&mut region, usize::MAX);
    assert_eq!(got.len(), 0);

    let (n, _, _) = s.send_foreach(&mut region, &vec![7u16, 8]);
    assert_eq!(n, 2);
    let (got, _, _) = r.recv(&mut region, 2);
    assert_eq!(got.len(), 2);
    assert_eq!(got[0], 7);
    assert_eq!(got[1], 8);
}

#[test]
fn full_buf_test() {
    let q = vec![66u8; channel_bufsize::<u16>(3)];
    let (mut s, mut r, mut region) = channel::<u16>(q.len(), 66).unwrap();

    let (n, _, _) = s.send(&mut region, &vec![5u16, 8]);
    assert_eq!(n, 2);

    // Only one free slot remains: the second item must not enter.
    let (n, free, _) = s.send_foreach(&mut region, &vec![10u16, 11]);
    assert_eq!(n, 1);
    assert_eq!(free, 0);

    // Full ring: nothing is written.
    let (n, free, was_empty) = s.send(&mut region, &vec![1u16]);
    assert_eq!(n, 0);
    assert_eq!(free, 0);
    assert!(!was_empty);

    let peeked = r.peek(&region);
    assert_eq!(peeked.len(), 3);

    let (n, _, _) = s.send(&mut region, &vec![1u16]);
    assert_eq!(n, 0);

    let peeked = r.peek(&region);
    assert_eq!(peeked, vec![5, 8, 10]);
    let (got, _, was_full) = r.recv(&mut region, 1);
    assert_eq!(got, vec![5]);
    assert!(was_full);

    let (n, _, _) = s.send(&mut region, &vec![1u16]);
    assert_eq!(n, 1);
    let (n, _, _) = s.send(&mut region, &vec![2u16]);
    assert_eq!(n, 0);

    let (got, _, _) = r.recv(&mut region, 2);
    assert_eq!(got, vec![8, 10]);
    let (got, _, _) = r.recv(&mut region, 1);
    assert_eq!(got, vec![1]);
}

#[test]
fn empty_then_one() {
    let (mut s, mut r, mut region) = channel::<u16>(channel_bufsize::<u16>(3), 0).unwrap();

    // Empty ring: nothing to take.
    let (got, _, _) = r.recv(&mut region, usize::MAX);
    assert_eq!(got.len(), 0);

    let (n, _, _) = s.send(&mut region, &vec![5u16]);
    assert_eq!(n, 1);

    // Peek twice: the item stays until it is consumed.
    assert_eq!(r.peek(&region), vec![5]);
    assert_eq!(r.peek(&region), vec![5]);
    let (got, _, _) = r.recv(&mut region, 1);
    assert_eq!(got, vec![5]);

    let (got, _, _) = r.recv(&mut region, usize::MAX);
    assert_eq!(got.len(), 0);
}

#[test]
fn bufsize_formula() {
    // On this platform the counter word is eight bytes.
    assert_eq!(channel_bufsize::<u16>(3), 14);
    assert_eq!(channel_bufsize::<u32>(1024), 4104);
    assert_eq!(channel_bufsize::<u8>(0), 8);
}

#[test]
fn construction_exact_fit_gives_one_slot() {
    // Counter word plus exactly one u16 slot.
    let (s, _r, region) = channel::<u16>(10, 0).unwrap();
    assert_eq!(s.write_count(&region), 1);
}

#[test]
fn construction_one_byte_short_fails() {
    let r = channel::<u16>(9, 0);
    assert_eq!(r.unwrap_err(), ChannelError::BufferTooSmall);
}

#[test]
fn send_foreach_nothing_is_a_no_op() {
    let (mut s, _r, mut region) = channel::<u16>(14, 0).unwrap();
    let (n, free, was_empty) = s.send_foreach(&mut region, &vec![]);
    assert_eq!(n, 0);
    assert_eq!(free, 3);
    assert!(!was_empty);
}

#[test]
fn send_foreach_crosses_the_wrap() {
    let (mut s, mut r, mut region) = channel::<u16>(14, 0).unwrap();
    // Move the write index to the last slot.
    let (n, _, _) = s.send(&mut region, &vec![1u16, 2]);
    assert_eq!(n, 2);
    let (got, _, _) = r.recv(&mut region, 2);
    assert_eq!(got, vec![1, 2]);
    // Two free slots remain but only one is contiguous: a single two-item
    // request must fill both sides of the wrap.
    let (n, free, was_empty) = s.send_foreach(&mut region, &vec![7u16, 8]);
    assert_eq!(n, 2);
    assert_eq!(free, 1);
    assert!(was_empty);
    let (got, _, _) = r.recv(&mut region, 2);
    assert_eq!(got, vec![7]);
    let (got, _, _) = r.recv(&mut region, 2);
    assert_eq!(got, vec![8]);
}

#[test]
fn counts_are_idempotent_without_operations() {
    let (mut s, r, mut region) = channel::<u16>(14, 0).unwrap();
    s.send(&mut region, &vec![5u16]);
    let w1 = s.write_count(&region);
    let w2 = s.write_count(&region);
    let c1 = r.read_count(&region);
    let c2 = r.read_count(&region);
    assert_eq!(w1, w2);
    assert_eq!(c1, c2);
    assert_eq!(w1, 2);
    assert_eq!(c1, 1);
}

#[test]
fn send_and_recv_report_counts_after_publication() {
    let (mut s, mut r, mut region) = channel::<u16>(14, 0).unwrap();
    let (n, free_after, _) = s.send(&mut region, &vec![4u16, 5]);
    assert_eq!(n, 2);
    assert_eq!(free_after, 1);
    assert_eq!(r.read_count(&region), 2);
    let (got, live_after, _) = r.recv(&mut region, 1);
    assert_eq!(got, vec![4]);
    assert_eq!(live_after, 1);
    assert_eq!(s.write_count(&region), 2);
}

#[test]
fn stress_one_million_in_order() {
    let (mut s, mut r, mut region) = channel::<u32>(channel_bufsize::<u32>(1024), 0).unwrap();
    let total: u32 = 1_000_000;
    let mut next_in: u32 = 0;
    let mut next_out: u32 = 0;
    let mut sum: u64 = 0;
    while next_out < total {
        if next_in < total {
            let batch_end = (next_in + 400).min(total);
            let batch: Vec<u32> = (next_in..batch_end).collect();
            let (n, _, _) = s.send_foreach(&mut region, &batch);
            next_in += n as u32;
        }
        let (got, _, _) = r.recv(&mut region, 300);
        for v in got {
            // Strictly monotonic: each value is the one expected next.
            assert_eq!(v, next_out);
            sum += v as u64;
            next_out += 1;
        }
    }
    let n = total as u64;
    assert_eq!(sum, n * (n - 1) / 2);
}
