//! Frames on the TCP stream: a four-byte big-endian length, then the payload.
use crate::error::Error;
use vstd::prelude::*;

verus! {

/// The largest payload a frame may carry.
pub const MAX_FRAME_LENGTH: u32 = 64 * 1024 * 1024;

/// How many payload bytes a reader asks the stream for at a time.
pub const READ_CHUNK: usize = 64 * 1024;

/// The four bytes of `n`, most significant first.
pub open spec fn be_bytes(n: u32) -> Seq<u8> {
    seq![
        (n / 0x100_0000) as u8,
        ((n / 0x1_0000) % 0x100) as u8,
        ((n / 0x100) % 0x100) as u8,
        (n % 0x100) as u8,
    ]
}

/// The number that four big-endian bytes stand for.
pub open spec fn be_value(bytes: Seq<u8>) -> int
    recommends
        bytes.len() == 4,
{
    bytes[0] * 0x100_0000 + bytes[1] * 0x1_0000 + bytes[2] * 0x100 + bytes[3]
}

/// The length field of a frame: the payload's length, cut to 32 bits.
pub open spec fn length_field(length: nat) -> u32 {
    (length % 0x1_0000_0000) as u32
}

/// A whole frame for `payload`.
pub open spec fn frame_spec(payload: Seq<u8>) -> Seq<u8> {
    be_bytes(length_field(payload.len())) + payload
}

/// Reading the four bytes back gives the number that was written.
pub proof fn lemma_be_round_trip(n: u32)
    ensures
        be_value(be_bytes(n)) == n,
{
    let b0 = n / 0x100_0000;
    let b1 = (n / 0x1_0000) % 0x100;
    let b2 = (n / 0x100) % 0x100;
    let b3 = n % 0x100;
    assert(n == b0 * 0x100_0000 + b1 * 0x1_0000 + b2 * 0x100 + b3) by (nonlinear_arith)
        requires
            b0 == n / 0x100_0000,
            b1 == (n / 0x1_0000) % 0x100,
            b2 == (n / 0x100) % 0x100,
            b3 == n % 0x100,
            n <= 0xffff_ffff,
    ;
    assert(b0 < 0x100);
}

/// A frame read back: its first four bytes give the payload's length, and the
/// rest of it is the payload, for every payload a frame may carry.
pub proof fn lemma_frame_round_trip(payload: Seq<u8>)
    requires
        payload.len() <= MAX_FRAME_LENGTH,
    ensures
        frame_spec(payload).len() == payload.len() + 4,
        be_value(frame_spec(payload).take(4)) == payload.len(),
        frame_spec(payload).skip(4) == payload,
{
    let frame = frame_spec(payload);
    let n = length_field(payload.len());
    assert(n == payload.len());
    lemma_be_round_trip(n);
    assert(frame.take(4) =~= be_bytes(n));
    assert(frame.skip(4) =~= payload);
}

/// The four header bytes of a frame whose payload is `length` bytes long.
pub fn length_header(length: usize) -> (header: Vec<u8>)
    ensures
        header@ == be_bytes(length_field(length as nat)),
{
    let field: u32 = ((length as u64) % 0x1_0000_0000u64) as u32;
    let mut header: Vec<u8> = Vec::with_capacity(4);
    header.push((field / 0x100_0000) as u8);
    header.push(((field / 0x1_0000) % 0x100) as u8);
    header.push(((field / 0x100) % 0x100) as u8);
    header.push((field % 0x100) as u8);
    assert(header@ =~= be_bytes(length_field(length as nat)));
    header
}

/// Prefixes `payload` with its length. A payload longer than 32 bits can say
/// has its length cut to 32 bits, as the header has no room for more.
pub fn frame_payload(payload: &[u8]) -> (frame: Vec<u8>)
    ensures
        frame@ == frame_spec(payload@),
{
    let mut frame = length_header(payload.len());
    let mut index: usize = 0;
    while index < payload.len()
        invariant
            index <= payload@.len(),
            frame@ == be_bytes(length_field(payload@.len())) + payload@.take(index as int),
        decreases payload@.len() - index,
    {
        frame.push(payload[index]);
        index = index + 1;
        assert(payload@.take(index as int) =~= payload@.take(index - 1).push(payload@[index - 1]));
    }
    assert(payload@.take(payload@.len() as int) =~= payload@);
    frame
}

/// Checks a serialized payload before it is framed: `FrameTooLarge` exactly
/// when it is longer than a frame may carry.
pub fn check_payload_length(length: usize) -> (result: Result<(), Error>)
    ensures
        result is Ok <==> length <= MAX_FRAME_LENGTH,
        result matches Err(error) ==> error is FrameTooLarge,
{
    if length > MAX_FRAME_LENGTH as usize {
        Err(Error::FrameTooLarge)
    } else {
        Ok(())
    }
}

/// Decodes a frame's header: the payload length it announces, or
/// `FrameTooLarge` when that length is more than a frame may carry.
pub fn read_frame_length(header: [u8; 4]) -> (result: Result<usize, Error>)
    ensures
        be_value(header@) <= MAX_FRAME_LENGTH ==> result == Ok::<usize, Error>(be_value(header@) as usize),
        be_value(header@) > MAX_FRAME_LENGTH ==> (result matches Err(error) && error is FrameTooLarge),
{
    let length: u32 = (header[0] as u32) * 0x100_0000 + (header[1] as u32) * 0x1_0000
        + (header[2] as u32) * 0x100 + (header[3] as u32);
    if length > MAX_FRAME_LENGTH {
        Err(Error::FrameTooLarge)
    } else {
        Ok(length as usize)
    }
}

/// How many bytes the reader asks for next, `filled` of `length` having
/// arrived: the rest of the payload, but never more than a chunk.
pub fn next_chunk_length(length: usize, filled: usize) -> (chunk: usize)
    requires
        filled < length,
    ensures
        chunk == if length - filled < READ_CHUNK { (length - filled) as usize } else { READ_CHUNK },
        0 < chunk <= READ_CHUNK,
        filled + chunk <= length,
{
    let remaining = length - filled;
    if remaining < READ_CHUNK {
        remaining
    } else {
        READ_CHUNK
    }
}


/// The sum of `lengths`.
pub open spec fn total(lengths: Seq<usize>) -> int
    decreases lengths.len(),
{
    if lengths.len() == 0 {
        0
    } else {
        total(lengths.drop_last()) + lengths.last()
    }
}

/// The reads that take in the payload of a frame whose header is `header`,
/// in order: its length in chunks of at most `READ_CHUNK` bytes; or
/// `FrameTooLarge` when the header announces more than a frame may carry, in
/// which case nothing past the header is read.
pub fn frame_reads(header: [u8; 4]) -> (reads: Result<Vec<usize>, Error>)
    ensures
        be_value(header@) > MAX_FRAME_LENGTH ==> (reads matches Err(error) && error is FrameTooLarge),
        be_value(header@) <= MAX_FRAME_LENGTH ==> (reads matches Ok(chunks) && total(chunks@) == be_value(header@)
            && forall|i: int| 0 <= i < chunks@.len() ==> 0 < #[trigger] chunks@[i] <= READ_CHUNK),
{
    let length = match read_frame_length(header) {
        Ok(length) => length,
        Err(error) => {
            return Err(error);
        },
    };
    let mut chunks: Vec<usize> = Vec::new();
    let mut filled: usize = 0;
    while filled < length
        invariant
            filled <= length,
            total(chunks@) == filled,
            forall|i: int| 0 <= i < chunks@.len() ==> 0 < #[trigger] chunks@[i] <= READ_CHUNK,
        decreases length - filled,
    {
        let chunk = next_chunk_length(length, filled);
        let ghost before = chunks@;
        chunks.push(chunk);
        assert(chunks@.drop_last() =~= before);
        filled = filled + chunk;
    }
    Ok(chunks)
}

/// A frame is taken in whole and alone: its four header bytes announce a
/// length that chunks summing to it complete exactly, so a reader consumes
/// the frame's bytes and none of what follows.
pub proof fn lemma_frame_reads_consume_the_frame(payload: Seq<u8>, chunks: Seq<usize>)
    requires
        payload.len() <= MAX_FRAME_LENGTH,
        total(chunks) == be_value(frame_spec(payload).take(4)),
    ensures
        4 + total(chunks) == frame_spec(payload).len(),
        frame_spec(payload).subrange(4, 4 + total(chunks)) == payload,
{
    lemma_frame_round_trip(payload);
    assert(frame_spec(payload).subrange(4, 4 + total(chunks)) =~= frame_spec(payload).skip(4));
}

} // verus!
