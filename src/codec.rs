use vstd::prelude::*;

verus! {

/// Encoded size of a sequence header: stream id (4), sequence (8), end flag (1).
pub const HEADER_SIZE: usize = 13;

/// The header carried at the start of every frame payload.
#[derive(Clone, Copy, Debug, PartialEq, Eq, Structural)]
pub struct SequenceHeader {
    pub stream_id: u32,
    pub sequence: u64,
    pub end_of_stream: bool,
}

impl SequenceHeader {
    /// The first header of a stream: sequence 0, not the end.
    pub fn new(stream_id: u32) -> (r: SequenceHeader)
        ensures
            r == (SequenceHeader { stream_id, sequence: 0, end_of_stream: false }),
    {
        SequenceHeader { stream_id, sequence: 0, end_of_stream: false }
    }

    /// The header of the following data frame of the same stream.
    pub fn next(self) -> (r: SequenceHeader)
        requires
            self.sequence < u64::MAX,
        ensures
            r == (SequenceHeader {
                stream_id: self.stream_id,
                sequence: (self.sequence + 1) as u64,
                end_of_stream: false,
            }),
    {
        SequenceHeader { stream_id: self.stream_id, sequence: self.sequence + 1, end_of_stream: false }
    }
}

pub open spec fn le_u32(v: u32) -> Seq<u8> {
    seq![v as u8, (v >> 8u32) as u8, (v >> 16u32) as u8, (v >> 24u32) as u8]
}

pub open spec fn le_u64(v: u64) -> Seq<u8> {
    seq![
        v as u8,
        (v >> 8u64) as u8,
        (v >> 16u64) as u8,
        (v >> 24u64) as u8,
        (v >> 32u64) as u8,
        (v >> 40u64) as u8,
        (v >> 48u64) as u8,
        (v >> 56u64) as u8,
    ]
}

pub open spec fn u32_of_le(b: Seq<u8>) -> u32 {
    (b[0] as u32) | ((b[1] as u32) << 8u32) | ((b[2] as u32) << 16u32) | ((b[3] as u32) << 24u32)
}

pub open spec fn u64_of_le(b: Seq<u8>) -> u64 {
    (b[0] as u64) | ((b[1] as u64) << 8u64) | ((b[2] as u64) << 16u64) | ((b[3] as u64) << 24u64)
        | ((b[4] as u64) << 32u64) | ((b[5] as u64) << 40u64) | ((b[6] as u64) << 48u64)
        | ((b[7] as u64) << 56u64)
}

pub open spec fn bool_byte(b: bool) -> u8 {
    if b { 1 } else { 0 }
}

/// The wire form of a header.
pub open spec fn header_bytes(h: SequenceHeader) -> Seq<u8> {
    le_u32(h.stream_id) + le_u64(h.sequence) + seq![bool_byte(h.end_of_stream)]
}

/// Whether a byte string starts with a well-formed header.
pub open spec fn header_ok(b: Seq<u8>) -> bool {
    b.len() >= HEADER_SIZE && b[12] <= 1
}

/// The header that a well-formed byte string starts with; trailing bytes are ignored.
pub open spec fn header_of(b: Seq<u8>) -> SequenceHeader {
    SequenceHeader {
        stream_id: u32_of_le(b.subrange(0, 4)),
        sequence: u64_of_le(b.subrange(4, 12)),
        end_of_stream: b[12] == 1,
    }
}

#[verifier::external_type_specification]
#[verifier::external_body]
pub struct ExBincodeErrorKind(bincode::ErrorKind);

/// Relies on bincode::serialize (1.3): little-endian fixed-width integers and a
/// one-byte bool, fields in order; writing into a `Vec` cannot fail.
#[verifier::external_body]
fn bincode_encode(stream_id: u32, sequence: u64, end: bool) -> (r: Result<Vec<u8>, Box<bincode::ErrorKind>>)
    ensures
        r is Ok,
        r is Ok ==> r->Ok_0@ == le_u32(stream_id) + le_u64(sequence) + seq![bool_byte(end)],
{
    bincode::serialize(&(stream_id, sequence, end))
}

/// Relies on bincode::deserialize (1.3): little-endian fixed-width integers, a
/// bool byte of 0 or 1 (any other value is an error), an error on a short
/// input, and trailing bytes allowed.
#[verifier::external_body]
fn bincode_decode(b: &[u8]) -> (r: Result<(u32, u64, bool), Box<bincode::ErrorKind>>)
    ensures
        r is Ok <==> (b@.len() >= 13 && b@[12] <= 1),
        r is Ok ==> r->Ok_0 == (
            u32_of_le(b@.subrange(0, 4)),
            u64_of_le(b@.subrange(4, 12)),
            b@[12] == 1,
        ),
{
    bincode::deserialize::<(u32, u64, bool)>(b)
}

/// A payload that could not be read as a header.
#[derive(Clone, Copy, Debug, PartialEq, Eq, Structural)]
pub enum DecodeError {
    Malformed,
}

/// Encodes a header into its fixed-size wire form.
pub fn encode(h: &SequenceHeader) -> (r: Vec<u8>)
    ensures
        r@ == header_bytes(*h),
        r@.len() == HEADER_SIZE,
{
    match bincode_encode(h.stream_id, h.sequence, h.end_of_stream) {
        Ok(v) => v,
        Err(_) => Vec::new(),
    }
}

/// Decodes the header at the start of a payload.
pub fn decode(b: &[u8]) -> (r: Result<SequenceHeader, DecodeError>)
    ensures
        header_ok(b@) <==> r is Ok,
        r is Ok ==> r->Ok_0 == header_of(b@),
        r is Err ==> r->Err_0 == DecodeError::Malformed,
{
    match bincode_decode(b) {
        Ok((stream_id, sequence, end_of_stream)) => Ok(SequenceHeader { stream_id, sequence, end_of_stream }),
        Err(_) => Err(DecodeError::Malformed),
    }
}

/// A frame payload of `size` bytes: the encoded header, then zero filler.
pub fn build_payload(h: &SequenceHeader, size: usize) -> (r: Vec<u8>)
    requires
        size >= HEADER_SIZE,
    ensures
        r@.len() == size,
        r@.subrange(0, HEADER_SIZE as int) == header_bytes(*h),
        forall|i: int| HEADER_SIZE <= i < size ==> r@[i] == 0,
{
    let mut r = encode(h);
    while r.len() < size
        invariant
            HEADER_SIZE <= r@.len() <= size,
            r@.subrange(0, HEADER_SIZE as int) == header_bytes(*h),
            forall|i: int| HEADER_SIZE <= i < r@.len() ==> r@[i] == 0,
        decreases size - r@.len(),
    {
        r.push(0);
    }
    r
}

proof fn lemma_u32_le(v: u32)
    ensures
        u32_of_le(le_u32(v)) == v,
{
    let b = le_u32(v);
    assert(b[0] == v as u8 && b[1] == (v >> 8u32) as u8 && b[2] == (v >> 16u32) as u8 && b[3] == (v >> 24u32) as u8);
    assert(((v as u8) as u32) | ((((v >> 8u32) as u8) as u32) << 8u32) | ((((v >> 16u32) as u8) as u32) << 16u32)
        | ((((v >> 24u32) as u8) as u32) << 24u32) == v) by (bit_vector);
}

proof fn lemma_u64_le(v: u64)
    ensures
        u64_of_le(le_u64(v)) == v,
{
    let b = le_u64(v);
    assert(b[0] == v as u8 && b[1] == (v >> 8u64) as u8 && b[2] == (v >> 16u64) as u8 && b[3] == (v >> 24u64) as u8);
    assert(b[4] == (v >> 32u64) as u8 && b[5] == (v >> 40u64) as u8 && b[6] == (v >> 48u64) as u8 && b[7] == (v >> 56u64) as u8);
    assert(((v as u8) as u64) | ((((v >> 8u64) as u8) as u64) << 8u64) | ((((v >> 16u64) as u8) as u64) << 16u64)
        | ((((v >> 24u64) as u8) as u64) << 24u64) | ((((v >> 32u64) as u8) as u64) << 32u64)
        | ((((v >> 40u64) as u8) as u64) << 40u64) | ((((v >> 48u64) as u8) as u64) << 48u64)
        | ((((v >> 56u64) as u8) as u64) << 56u64) == v) by (bit_vector);
}

/// Decoding an encoded header gives the header back, for every stream id,
/// sequence (0 and the largest value included) and end flag, whatever filler
/// follows it.
pub proof fn lemma_round_trip(h: SequenceHeader, filler: Seq<u8>)
    ensures
        header_ok(header_bytes(h) + filler),
        header_of(header_bytes(h) + filler) == h,
{
    let b = header_bytes(h) + filler;
    lemma_u32_le(h.stream_id);
    lemma_u64_le(h.sequence);
    assert(b.subrange(0, 4) =~= le_u32(h.stream_id));
    assert(b.subrange(4, 12) =~= le_u64(h.sequence));
    assert(b[12] == bool_byte(h.end_of_stream));
}

} // verus!
