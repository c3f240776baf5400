//! Frame validation: header checks, length-prefixed payload, checksum of
//! sensitive frames.
//!
//! Validation is lenient: only the magic byte and, for sensitive frames, the
//! checksum are checked; the two reserved bytes are carried through unread.
use crate::checksum::{
    checksum_matches, compute_checksum, lemma_single_bit_flip_changes_checksum,
};
use crate::HEADER_LEN;
use vstd::prelude::*;

verus! {

/// First byte of every frame.
pub const MAGIC: u8 = 0xCC;

/// Bit of the options byte that marks a frame as sensitive.
pub const SENSITIVE_FLAG: u8 = 0x40;

/// Value that stands in for each checksum byte while the checksum is computed.
pub const CHECKSUM_FILLER: u8 = 0xCC;

/// Why a frame was not accepted.
#[derive(Clone, Copy, Debug, PartialEq, Eq, Structural)]
pub enum FrameError {
    /// The header does not start with the magic byte.
    ProtocolViolation,
    /// A sensitive frame whose checksum does not match its contents.
    ChecksumViolation,
    /// The stream ended or failed after part of a frame had arrived.
    IoFailure,
}

/// What reading one frame from a stream gives, as a value.
pub enum Parsed {
    Frame(Seq<u8>),
    CleanEnd,
    Failed(FrameError),
}

/// What reading one frame from a stream gives.
#[derive(Debug, PartialEq, Eq)]
pub enum ReadOutcome {
    /// A complete, valid frame: header and payload, unmodified.
    Frame(Vec<u8>),
    /// The stream ended before any byte of a header.
    CleanEnd,
    /// The frame was rejected, or the stream broke inside it.
    Failed(FrameError),
}

impl View for ReadOutcome {
    type V = Parsed;

    open spec fn view(&self) -> Parsed {
        match self {
            ReadOutcome::Frame(m) => Parsed::Frame(m@),
            ReadOutcome::CleanEnd => Parsed::CleanEnd,
            ReadOutcome::Failed(e) => Parsed::Failed(*e),
        }
    }
}

/// Payload length announced by a header: bytes 2 and 3, big-endian.
pub open spec fn payload_len(h: Seq<u8>) -> nat {
    h[2] as nat * 256 + h[3] as nat
}

/// Length of the whole frame that a header announces.
pub open spec fn frame_len(h: Seq<u8>) -> nat {
    HEADER_LEN as nat + payload_len(h)
}

/// Whether the options byte marks the frame as sensitive.
pub open spec fn is_sensitive(h: Seq<u8>) -> bool {
    h[1] & SENSITIVE_FLAG != 0
}

/// The checksum carried in bytes 4 and 5, big-endian.
pub open spec fn checksum_field(h: Seq<u8>) -> u16 {
    (h[4] as nat * 256 + h[5] as nat) as u16
}

/// The bytes the checksum covers: the frame with its checksum bytes filled in.
pub open spec fn checksum_input(f: Seq<u8>) -> Seq<u8> {
    f.update(4, CHECKSUM_FILLER).update(5, CHECKSUM_FILLER)
}

/// Whether the checksum field of a frame matches its contents.
pub open spec fn checksum_holds(f: Seq<u8>) -> bool {
    checksum_matches(checksum_input(f), checksum_field(f))
}

/// Whether a complete frame passes the checksum rule.
pub open spec fn frame_accepted(f: Seq<u8>) -> bool {
    !is_sensitive(f) || checksum_holds(f)
}

/// The payload of a complete frame.
pub open spec fn frame_payload(f: Seq<u8>) -> Seq<u8> {
    f.subrange(HEADER_LEN as int, f.len() as int)
}

/// The outcome of reading one frame from a stream that delivers `input` and
/// then ends.
pub open spec fn parse_spec(input: Seq<u8>) -> Parsed {
    if input.len() == 0 {
        Parsed::CleanEnd
    } else if input.len() < HEADER_LEN {
        Parsed::Failed(FrameError::IoFailure)
    } else if input[0] != MAGIC {
        Parsed::Failed(FrameError::ProtocolViolation)
    } else if input.len() < frame_len(input) {
        Parsed::Failed(FrameError::IoFailure)
    } else {
        let f = input.subrange(0, frame_len(input) as int);
        if frame_accepted(f) {
            Parsed::Frame(f)
        } else {
            Parsed::Failed(FrameError::ChecksumViolation)
        }
    }
}

/// Checks a header and returns the payload length it announces.
pub fn check_header(header: &[u8]) -> (r: Result<usize, FrameError>)
    requires
        header@.len() == HEADER_LEN,
    ensures
        match r {
            Ok(n) => header@[0] == MAGIC && n == payload_len(header@),
            Err(e) => header@[0] != MAGIC && e == FrameError::ProtocolViolation,
        },
{
    if header[0] != MAGIC {
        return Err(FrameError::ProtocolViolation);
    }
    Ok((header[2] as usize) * 256 + (header[3] as usize))
}

/// Appends `src[start..end]` to `dst`.
fn append_range(dst: &mut Vec<u8>, src: &[u8], start: usize, end: usize)
    requires
        start <= end <= src@.len(),
    ensures
        final(dst)@ == old(dst)@ + src@.subrange(start as int, end as int),
{
    let mut i: usize = start;
    while i < end
        invariant
            start <= i <= end <= src@.len(),
            dst@ == old(dst)@ + src@.subrange(start as int, i as int),
        decreases end - i,
    {
        dst.push(src[i]);
        i = i + 1;
        assert(dst@ =~= old(dst)@ + src@.subrange(start as int, i as int));
    }
}

/// Joins a checked header and its payload into one frame, and applies the
/// checksum rule when the frame is sensitive.
pub fn check_frame(header: &[u8], payload: &[u8]) -> (r: Result<Vec<u8>, FrameError>)
    requires
        header@.len() == HEADER_LEN,
        payload@.len() == payload_len(header@),
    ensures
        match r {
            Ok(m) => m@ == header@ + payload@ && frame_accepted(header@ + payload@),
            Err(e) => !frame_accepted(header@ + payload@) && e == FrameError::ChecksumViolation,
        },
{
    let mut message: Vec<u8> = Vec::new();
    append_range(&mut message, header, 0, HEADER_LEN);
    append_range(&mut message, payload, 0, payload.len());
    assert(header@.subrange(0, 8) =~= header@);
    assert(payload@.subrange(0, payload@.len() as int) =~= payload@);
    assert(message@ =~= header@ + payload@);
    if header[1] & SENSITIVE_FLAG != 0 {
        let mut covered: Vec<u8> = message.clone();
        covered.set(4, CHECKSUM_FILLER);
        covered.set(5, CHECKSUM_FILLER);
        assert(covered@ =~= checksum_input(message@));
        let expected: u16 = (header[4] as u16) * 256 + (header[5] as u16);
        if compute_checksum(covered.as_slice()) != expected {
            return Err(FrameError::ChecksumViolation);
        }
    }
    Ok(message)
}

/// Reads one frame from the start of `input`, the bytes a stream delivers
/// before it ends.
pub fn parse_ctmp_message(input: &[u8]) -> (r: ReadOutcome)
    ensures
        r@ == parse_spec(input@),
{
    let n: usize = input.len();
    if n == 0 {
        return ReadOutcome::CleanEnd;
    }
    if n < HEADER_LEN {
        return ReadOutcome::Failed(FrameError::IoFailure);
    }
    let mut header: Vec<u8> = Vec::new();
    append_range(&mut header, input, 0, HEADER_LEN);
    assert(header@ =~= input@.subrange(0, 8));
    let len: usize = match check_header(header.as_slice()) {
        Ok(len) => len,
        Err(e) => return ReadOutcome::Failed(e),
    };
    if n - HEADER_LEN < len {
        return ReadOutcome::Failed(FrameError::IoFailure);
    }
    let mut payload: Vec<u8> = Vec::new();
    append_range(&mut payload, input, HEADER_LEN, HEADER_LEN + len);
    assert(header@ + payload@ =~= input@.subrange(0, frame_len(input@) as int));
    match check_frame(header.as_slice(), payload.as_slice()) {
        Ok(m) => ReadOutcome::Frame(m),
        Err(e) => ReadOutcome::Failed(e),
    }
}

/// A frame that is not sensitive is read whole, with exactly its payload,
/// whatever its checksum bytes hold and whatever follows it on the stream.
pub proof fn lemma_plain_frame_passes(header: Seq<u8>, payload: Seq<u8>, rest: Seq<u8>)
    requires
        header.len() == HEADER_LEN,
        header[0] == MAGIC,
        header[1] & SENSITIVE_FLAG == 0,
        payload.len() == payload_len(header),
    ensures
        parse_spec(header + payload + rest) == Parsed::Frame(header + payload),
        frame_payload(header + payload) == payload,
{
    let input = header + payload + rest;
    assert(input.subrange(0, frame_len(input) as int) =~= header + payload);
    assert(frame_payload(header + payload) =~= payload);
}

/// In a frame whose checksum holds, flipping any one bit outside the checksum
/// bytes makes the checksum fail.
pub proof fn lemma_bit_flip_breaks_checksum(f: Seq<u8>, j: int, k: u8)
    requires
        f.len() >= HEADER_LEN,
        checksum_holds(f),
        0 <= j < f.len(),
        j != 4,
        j != 5,
        k < 8,
    ensures
        !checksum_holds(f.update(j, f[j] ^ (1u8 << k))),
{
    let g = f.update(j, f[j] ^ (1u8 << k));
    let c = checksum_input(f);
    assert(checksum_input(g) =~= c.update(j, c[j] ^ (1u8 << k)));
    assert(checksum_field(g) == checksum_field(f));
    lemma_single_bit_flip_changes_checksum(c, j, k);
}

/// Two frames sent back to back are read in the order sent: the first comes
/// out first, and the rest of the stream then yields the second.
pub proof fn lemma_back_to_back_in_order(f1: Seq<u8>, f2: Seq<u8>)
    requires
        parse_spec(f1) == Parsed::Frame(f1),
        parse_spec(f2) == Parsed::Frame(f2),
    ensures
        parse_spec(f1 + f2) == Parsed::Frame(f1),
        parse_spec((f1 + f2).subrange(f1.len() as int, (f1 + f2).len() as int))
            == Parsed::Frame(f2),
{
    let s = f1 + f2;
    assert(f1.subrange(0, frame_len(f1) as int) == f1);
    assert(s[0] == f1[0] && s[2] == f1[2] && s[3] == f1[3]);
    assert(s.subrange(0, frame_len(s) as int) =~= f1);
    assert(s.subrange(f1.len() as int, s.len() as int) =~= f2);
}

} // verus!
