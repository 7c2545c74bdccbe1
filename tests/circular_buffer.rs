use rspi::circular_buffer::{BufferError, CircularBuffer};
use rspi::reader::PendingOutput;

fn drain<const N: usize>(b: &mut CircularBuffer<N>) -> Vec<u8> {
    let mut out = Vec::new();
    b.write_to(&mut out);
    out
}

#[test]
fn new_buffer_is_empty() {
    let b: CircularBuffer<4096> = CircularBuffer::new();
    assert_eq!(b.len(), 0);
    assert!(b.is_empty());
    assert_eq!(b.allocated_size(), 4096);
}

#[test]
fn default_buffer_is_empty() {
    let mut b: CircularBuffer<16> = CircularBuffer::default();
    assert!(b.is_empty());
    assert_eq!(drain(&mut b), Vec::<u8>::new());
}

#[test]
fn drain_within_capacity_returns_concatenation() {
    let mut b: CircularBuffer<8> = CircularBuffer::new();
    assert_eq!(b.write(b"abc"), 3);
    assert_eq!(b.write(b"def"), 3);
    assert_eq!(b.len(), 6);
    assert_eq!(drain(&mut b), b"abcdef".to_vec());
    assert!(b.is_empty());
}

#[test]
fn drain_exactly_full_returns_everything() {
    let mut b: CircularBuffer<6> = CircularBuffer::new();
    b.write(b"abc");
    b.write(b"def");
    assert_eq!(drain(&mut b), b"abcdef".to_vec());
}

#[test]
fn drain_after_overflow_returns_last_n_bytes() {
    let mut b: CircularBuffer<4> = CircularBuffer::new();
    b.write(b"abc");
    b.write(b"def");
    assert_eq!(b.len(), 4);
    assert_eq!(drain(&mut b), b"cdef".to_vec());
}

#[test]
fn overflow_many_small_writes_keeps_freshest() {
    let mut b: CircularBuffer<4096> = CircularBuffer::new();
    let mut all = Vec::new();
    for i in 0..5000u32 {
        let byte = [(i % 251) as u8];
        assert_eq!(b.write(&byte), 1);
        all.push(byte[0]);
    }
    assert_eq!(b.len(), 4096);
    assert_eq!(drain(&mut b), all[all.len() - 4096..].to_vec());
}

#[test]
fn single_write_accepts_at_most_capacity() {
    let mut b: CircularBuffer<4> = CircularBuffer::new();
    assert_eq!(b.write(b"abcdef"), 4);
    assert_eq!(drain(&mut b), b"abcd".to_vec());
}

#[test]
fn drain_after_wrap_is_in_order() {
    let mut b: CircularBuffer<5> = CircularBuffer::new();
    b.write(b"abcd");
    let mut out = [0u8; 3];
    assert_eq!(b.read(&mut out), Ok(3));
    assert_eq!(&out, b"abc");
    b.write(b"efgh");
    assert_eq!(drain(&mut b), b"defgh".to_vec());
    b.write(b"xy");
    assert_eq!(drain(&mut b), b"xy".to_vec());
}

#[test]
fn read_empty_would_block() {
    let mut b: CircularBuffer<8> = CircularBuffer::new();
    let mut out = [7u8; 4];
    assert_eq!(b.read(&mut out), Err(BufferError::WouldBlock));
    assert_eq!(out, [7u8; 4]);
    b.write(b"z");
    let _ = drain(&mut b);
    assert_eq!(b.read(&mut out), Err(BufferError::WouldBlock));
}

#[test]
fn read_partial_leaves_rest() {
    let mut b: CircularBuffer<8> = CircularBuffer::new();
    b.write(b"hello");
    let mut out = [0u8; 2];
    assert_eq!(b.read(&mut out), Ok(2));
    assert_eq!(&out, b"he");
    let mut big = [0u8; 8];
    assert_eq!(b.read(&mut big), Ok(3));
    assert_eq!(&big[..3], b"llo");
    assert_eq!(&big[3..], &[0u8; 5]);
}

#[test]
fn zero_capacity_keeps_nothing() {
    let mut b: CircularBuffer<0> = CircularBuffer::new();
    assert_eq!(b.write(b"abc"), 0);
    assert!(b.is_empty());
    let mut out = [0u8; 1];
    assert_eq!(b.read(&mut out), Err(BufferError::WouldBlock));
}

#[test]
fn flush_while_parked_overwrites_oldest() {
    let mut b: CircularBuffer<4> = CircularBuffer::new();
    b.write(b"abc");
    let mut p = PendingOutput::new();
    p.push_bytes(b"defghi");
    assert!(p.must_block(4));
    assert!(p.flush_into(&mut b, false));
    assert_eq!(p.len(), 0);
    assert_eq!(drain(&mut b), b"fghi".to_vec());
}

#[test]
fn flush_while_outputting_moves_only_what_fits() {
    let mut b: CircularBuffer<4> = CircularBuffer::new();
    b.write(b"abc");
    let mut p = PendingOutput::new();
    p.push(b'd');
    p.push(b'e');
    assert!(!p.must_block(4));
    assert!(!p.flush_into(&mut b, true));
    assert_eq!(p.len(), 1);
    assert_eq!(b.len(), 4);
    assert_eq!(drain(&mut b), b"abcd".to_vec());
    assert!(p.flush_into(&mut b, true));
    assert_eq!(p.len(), 0);
    assert_eq!(drain(&mut b), b"e".to_vec());
}

#[test]
fn flush_while_outputting_into_full_buffer_moves_nothing() {
    let mut b: CircularBuffer<3> = CircularBuffer::new();
    b.write(b"xyz");
    let mut p = PendingOutput::new();
    p.push(b'q');
    assert!(!p.flush_into(&mut b, true));
    assert_eq!(p.len(), 1);
    assert_eq!(drain(&mut b), b"xyz".to_vec());
}

#[test]
fn more_than_capacity_pending_reaches_live_client_in_order() {
    let mut b: CircularBuffer<4> = CircularBuffer::new();
    let mut p = PendingOutput::new();
    p.push_bytes(b"0123456789");
    assert!(p.must_block(4));
    let mut seen = Vec::new();
    let mut rounds = 0;
    while !p.flush_into(&mut b, true) {
        b.write_to(&mut seen);
        rounds += 1;
        assert!(rounds < 10);
    }
    b.write_to(&mut seen);
    assert_eq!(seen, b"0123456789".to_vec());
    assert_eq!(rounds, 2);
}

#[test]
fn drain_empty_would_block() {
    let mut b: CircularBuffer<8> = CircularBuffer::new();
    let mut out = vec![1u8];
    assert_eq!(b.drain(&mut out), Err(BufferError::WouldBlock));
    assert_eq!(out, vec![1u8]);
    b.write(b"hi");
    assert_eq!(b.drain(&mut out), Ok(()));
    assert_eq!(out, b"\x01hi".to_vec());
    assert!(b.is_empty());
    assert_eq!(b.drain(&mut out), Err(BufferError::WouldBlock));
}
