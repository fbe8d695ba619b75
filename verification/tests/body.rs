use http_relay::server::body::{
    after_read, next_read_len, BodySource, BodyUnderRead, TRANSFER_BUFFER,
};
use http_relay::server::outbox::{Outbox, WireOp};

#[test]
fn transfer_buffer_size() {
    assert_eq!(TRANSFER_BUFFER, 4096);
}

#[test]
fn read_length_is_what_is_owed_up_to_a_buffer() {
    assert_eq!(next_read_len(0), 0);
    assert_eq!(next_read_len(1), 1);
    assert_eq!(next_read_len(4095), 4095);
    assert_eq!(next_read_len(4096), 4096);
    assert_eq!(next_read_len(4097), 4096);
    assert_eq!(next_read_len(u64::MAX), 4096);
}

#[test]
fn a_read_lowers_what_is_owed() {
    assert_eq!(after_read(5, 2), Ok(3));
    assert_eq!(after_read(5, 5), Ok(0));
    assert_eq!(after_read(10000, 4096), Ok(5904));
    assert_eq!(after_read(u64::MAX, 1), Ok(u64::MAX - 1));
}

#[test]
fn an_empty_read_is_an_under_read() {
    assert_eq!(after_read(5, 0), Err(BodyUnderRead { missing: 5 }));
    assert_eq!(after_read(u64::MAX, 0), Err(BodyUnderRead { missing: u64::MAX }));
}

#[test]
fn source_reads_chunk_by_chunk() {
    let mut source = BodySource::new(vec![b"abc".to_vec(), b"de".to_vec()]);
    assert_eq!(source.read(10), b"abc".to_vec());
    assert_eq!(source.read(10), b"de".to_vec());
    assert_eq!(source.read(10), Vec::<u8>::new());
    assert_eq!(source.read(10), Vec::<u8>::new());
}

#[test]
fn source_splits_a_chunk_that_is_too_long() {
    let mut source = BodySource::new(vec![b"abcdefg".to_vec(), b"h".to_vec()]);
    assert_eq!(source.read(3), b"abc".to_vec());
    assert_eq!(source.read(3), b"def".to_vec());
    assert_eq!(source.read(3), b"g".to_vec());
    assert_eq!(source.read(3), b"h".to_vec());
    assert_eq!(source.read(3), Vec::<u8>::new());
}

#[test]
fn source_read_of_nothing_keeps_its_place() {
    let mut source = BodySource::new(vec![b"ab".to_vec()]);
    assert_eq!(source.read(0), Vec::<u8>::new());
    assert_eq!(source.read(1), b"a".to_vec());
    assert_eq!(source.read(0), Vec::<u8>::new());
    assert_eq!(source.read(1), b"b".to_vec());
}

#[test]
fn source_empty_chunk_reads_as_the_end_once() {
    let mut source = BodySource::new(vec![Vec::new(), b"x".to_vec()]);
    assert_eq!(source.read(4), Vec::<u8>::new());
    assert_eq!(source.read(4), b"x".to_vec());
}

#[test]
fn outbox_keeps_steps_in_order() {
    let mut outbox = Outbox::new();
    assert!(outbox.ops.is_empty());
    outbox.write(b"one".to_vec());
    outbox.flush();
    outbox.write(b"two".to_vec());
    assert_eq!(outbox.bytes(), b"onetwo".to_vec());
    assert_eq!(
        outbox.ops,
        vec![WireOp::Write(b"one".to_vec()), WireOp::Flush, WireOp::Write(b"two".to_vec())]
    );
}

#[test]
fn outbox_take_empties_it() {
    let mut outbox = Outbox::new();
    outbox.write(b"one".to_vec());
    outbox.flush();
    let taken = outbox.take();
    assert_eq!(taken, vec![WireOp::Write(b"one".to_vec()), WireOp::Flush]);
    assert!(outbox.ops.is_empty());
    assert_eq!(outbox.bytes(), Vec::<u8>::new());
    outbox.write(b"two".to_vec());
    assert_eq!(outbox.take(), vec![WireOp::Write(b"two".to_vec())]);
}
