use hearsay::error::Error;
use hearsay::wire::{
    check_payload_length, frame_payload, frame_reads, length_header, next_chunk_length, read_frame_length, MAX_FRAME_LENGTH,
    READ_CHUNK,
};

#[test]
fn frame_starts_with_big_endian_length() {
    let frame = frame_payload(&[7, 8, 9]);
    assert_eq!(frame, vec![0, 0, 0, 3, 7, 8, 9]);
}

#[test]
fn empty_payload_frame_is_a_zero_header() {
    assert_eq!(frame_payload(&[]), vec![0, 0, 0, 0]);
}

#[test]
fn length_header_orders_bytes_most_significant_first() {
    assert_eq!(length_header(0x0102_0304), vec![1, 2, 3, 4]);
    assert_eq!(length_header(300), vec![0, 0, 1, 44]);
}

#[test]
fn frame_round_trip_reads_back_length_and_payload() {
    let payload: Vec<u8> = (0..=255u8).collect();
    let frame = frame_payload(&payload);
    let header = [frame[0], frame[1], frame[2], frame[3]];
    let length = read_frame_length(header).ok().unwrap();
    assert_eq!(length, payload.len());
    assert_eq!(&frame[4..], payload.as_slice());
}

#[test]
fn oversized_payload_is_refused_before_framing() {
    assert!(check_payload_length(MAX_FRAME_LENGTH as usize).is_ok());
    assert!(matches!(check_payload_length(MAX_FRAME_LENGTH as usize + 1), Err(Error::FrameTooLarge)));
}

#[test]
fn oversized_header_is_refused() {
    let limit = MAX_FRAME_LENGTH.to_be_bytes();
    assert_eq!(read_frame_length(limit).ok(), Some(MAX_FRAME_LENGTH as usize));
    let over = (MAX_FRAME_LENGTH + 1).to_be_bytes();
    assert!(matches!(read_frame_length(over), Err(Error::FrameTooLarge)));
}

#[test]
fn reads_come_in_chunks() {
    assert_eq!(next_chunk_length(10, 0), 10);
    assert_eq!(next_chunk_length(READ_CHUNK * 2 + 5, 0), READ_CHUNK);
    assert_eq!(next_chunk_length(READ_CHUNK * 2 + 5, READ_CHUNK * 2), 5);
}

#[test]
fn frame_reads_take_exactly_the_announced_length() {
    let payload = vec![9u8; 150_000];
    let frame = frame_payload(&payload);
    let header = [frame[0], frame[1], frame[2], frame[3]];
    let reads = match frame_reads(header) {
        Ok(reads) => reads,
        Err(_) => panic!("a frame that fits"),
    };
    assert_eq!(reads, vec![READ_CHUNK, READ_CHUNK, 150_000 - 2 * READ_CHUNK]);
    assert_eq!(4 + reads.iter().sum::<usize>(), frame.len());
    assert!(matches!(frame_reads([0, 0, 0, 0]), Ok(reads) if reads.is_empty()));
    assert!(matches!(frame_reads([4, 0, 0, 1]), Err(Error::FrameTooLarge)));
}
