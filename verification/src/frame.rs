//! Length-prefixed frames, in which parent and worker talk.

use vstd::bytes::{
    lemma_auto_spec_u64_to_from_le_bytes, spec_u64_from_le_bytes, spec_u64_to_le_bytes, u64_from_le_bytes,
    u64_to_le_bytes,
};
use vstd::prelude::*;
use vstd::slice::slice_subrange;
use vstd::string::*;

verus! {

/// Why bytes are no frame.
#[derive(Clone, Copy, Debug, PartialEq, Eq, Structural)]
pub enum FrameError {
    /// The payload is longer than memory can address.
    TooLong,
    /// The payload ends early.
    Truncated,
}

impl FrameError {
    /// The text of this error.
    pub open spec fn message(&self) -> Seq<char> {
        match self {
            FrameError::TooLong => "BEAM frame length does not fit usize"@,
            FrameError::Truncated => "failed to fill whole buffer"@,
        }
    }

    /// Renders this error.
    pub fn to_string(&self) -> (s: String)
        ensures
            s@ == self.message(),
    {
        match self {
            FrameError::TooLong => "BEAM frame length does not fit usize".to_owned(),
            FrameError::Truncated => "failed to fill whole buffer".to_owned(),
        }
    }
}

/// A payload as a frame: its length in eight bytes, the least significant
/// first, and the payload.
pub open spec fn framed(payload: Seq<u8>) -> Seq<u8> {
    spec_u64_to_le_bytes(payload.len() as u64) + payload
}

/// What reading a frame off the front of bytes gives: nothing where they end
/// before a whole header, else a payload and the bytes it took, or an error.
pub open spec fn first_frame(bytes: Seq<u8>) -> Result<Option<(Seq<u8>, nat)>, FrameError> {
    if bytes.len() < 8 {
        Ok(None)
    } else {
        let length = spec_u64_from_le_bytes(bytes.subrange(0, 8));
        if length > usize::MAX {
            Err(FrameError::TooLong)
        } else if bytes.len() - 8 < length {
            Err(FrameError::Truncated)
        } else {
            Ok(Some((bytes.subrange(8, 8 + length as int), (8 + length) as nat)))
        }
    }
}

/// Appends a payload to a stream as a frame.
pub fn write_frame(stream: &mut Vec<u8>, payload: &Vec<u8>)
    ensures
        final(stream)@ == old(stream)@ + framed(payload@),
{
    let header = u64_to_le_bytes(payload.len() as u64);
    let ghost before = stream@;
    let mut i: usize = 0;
    while i < 8
        invariant
            i <= 8,
            header@.len() == 8,
            stream@ == before + header@.subrange(0, i as int),
        decreases 8 - i,
    {
        stream.push(header[i]);
        i = i + 1;
    }
    assert(header@.subrange(0, 8) =~= header@);
    let mut j: usize = 0;
    while j < payload.len()
        invariant
            j <= payload@.len(),
            stream@ == before + header@ + payload@.subrange(0, j as int),
        decreases payload@.len() - j,
    {
        stream.push(payload[j]);
        j = j + 1;
    }
    assert(payload@.subrange(0, j as int) =~= payload@);
    assert(stream@ =~= before + framed(payload@));
}

/// The length of the payload that follows a header.
pub fn frame_length(header: &[u8]) -> (length: Result<usize, FrameError>)
    requires
        header@.len() == 8,
    ensures
        match length {
            Ok(length) => length == spec_u64_from_le_bytes(header@),
            Err(error) => error == FrameError::TooLong && spec_u64_from_le_bytes(header@) > usize::MAX,
        },
{
    let length = u64_from_le_bytes(header);
    if length > usize::MAX as u64 {
        return Err(FrameError::TooLong);
    }
    Ok(length as usize)
}

/// Reads a frame off the front of bytes: its payload, and how many bytes it
/// took. There is none where the bytes end before a whole header.
pub fn read_frame(bytes: &[u8]) -> (frame: Result<Option<(Vec<u8>, usize)>, FrameError>)
    ensures
        match frame {
            Ok(Some((payload, used))) => first_frame(bytes@) == Ok::<_, FrameError>(Some((payload@, used as nat))),
            Ok(None) => first_frame(bytes@) == Ok::<Option<(Seq<u8>, nat)>, FrameError>(None),
            Err(error) => first_frame(bytes@) == Err::<Option<(Seq<u8>, nat)>, FrameError>(error),
        },
{
    let len = bytes.len();
    if len < 8 {
        return Ok(None);
    }
    let length = match frame_length(slice_subrange(bytes, 0, 8)) {
        Ok(length) => length,
        Err(error) => return Err(error),
    };
    if len - 8 < length {
        return Err(FrameError::Truncated);
    }
    let end: usize = 8 + length;
    let mut payload: Vec<u8> = Vec::new();
    let mut i: usize = 8;
    while i < end
        invariant
            8 <= i <= end,
            end <= bytes@.len(),
            payload@ == bytes@.subrange(8, i as int),
        decreases end - i,
    {
        payload.push(bytes[i]);
        i = i + 1;
    }
    Ok(Some((payload, end)))
}

/// What was written is read back: the payload of a frame, whatever follows it.
pub proof fn law_read_gives_back_what_was_written(payload: Seq<u8>, rest: Seq<u8>)
    requires
        payload.len() <= usize::MAX - 8,
    ensures
        first_frame(framed(payload) + rest) == Ok::<_, FrameError>(Some((payload, framed(payload).len()))),
{
    lemma_auto_spec_u64_to_from_le_bytes();
    let header = spec_u64_to_le_bytes(payload.len() as u64);
    let bytes = framed(payload) + rest;
    assert(header.len() == 8);
    assert(bytes.subrange(0, 8) =~= header);
    assert(bytes.subrange(8, 8 + payload.len() as int) =~= payload);
}

/// A stream of frames is read back frame by frame, to its end.
pub open spec fn frames(payloads: Seq<Seq<u8>>) -> Seq<u8>
    decreases payloads.len(),
{
    if payloads.len() == 0 {
        Seq::empty()
    } else {
        framed(payloads[0]) + frames(payloads.subrange(1, payloads.len() as int))
    }
}

/// The payloads of a stream, as far as whole frames go.
pub open spec fn unframed(bytes: Seq<u8>) -> Seq<Seq<u8>>
    decreases bytes.len(),
{
    match first_frame(bytes) {
        Ok(Some((payload, used))) => if 0 < used <= bytes.len() {
            seq![payload] + unframed(bytes.subrange(used as int, bytes.len() as int))
        } else {
            Seq::empty()
        },
        _ => Seq::empty(),
    }
}

/// Reading a stream of frames gives the payloads that were written, in order.
pub proof fn law_streams_read_back(payloads: Seq<Seq<u8>>)
    requires
        forall|i: int| 0 <= i < payloads.len() ==> #[trigger] payloads[i].len() <= usize::MAX - 8,
    ensures
        unframed(frames(payloads)) == payloads,
    decreases payloads.len(),
{
    if payloads.len() > 0 {
        let tail = payloads.subrange(1, payloads.len() as int);
        let bytes = frames(payloads);
        law_read_gives_back_what_was_written(payloads[0], frames(tail));
        lemma_auto_spec_u64_to_from_le_bytes();
        assert(spec_u64_to_le_bytes(payloads[0].len() as u64).len() == 8);
        assert(bytes.subrange(framed(payloads[0]).len() as int, bytes.len() as int) =~= frames(tail));
        law_streams_read_back(tail);
        assert(seq![payloads[0]] + tail =~= payloads);
    }
}

/// A frame is the payload behind eight bytes that hold its length, and nothing else.
pub proof fn law_frames_begin_with_the_payloads_length(payload: Seq<u8>)
    requires
        payload.len() <= u64::MAX,
    ensures
        framed(payload).len() == 8 + payload.len(),
        spec_u64_from_le_bytes(framed(payload).subrange(0, 8)) == payload.len(),
        framed(payload).subrange(8, framed(payload).len() as int) == payload,
{
    lemma_auto_spec_u64_to_from_le_bytes();
    let header = spec_u64_to_le_bytes(payload.len() as u64);
    assert(header.len() == 8);
    assert(framed(payload).subrange(0, 8) =~= header);
    assert(framed(payload).subrange(8, framed(payload).len() as int) =~= payload);
}

/// A frame that is cut off is never read as one: there is none within its first eight
/// bytes, and an error after them.
pub proof fn law_cut_frames_are_not_read(payload: Seq<u8>, cut: int)
    requires
        payload.len() <= usize::MAX - 8,
        0 <= cut < framed(payload).len(),
    ensures
        cut < 8 ==> first_frame(framed(payload).subrange(0, cut)) == Ok::<Option<(Seq<u8>, nat)>, FrameError>(None),
        cut >= 8 ==> first_frame(framed(payload).subrange(0, cut)) == Err::<Option<(Seq<u8>, nat)>, FrameError>(
            FrameError::Truncated,
        ),
{
    law_frames_begin_with_the_payloads_length(payload);
    let bytes = framed(payload).subrange(0, cut);
    if cut >= 8 {
        assert(bytes.subrange(0, 8) =~= framed(payload).subrange(0, 8));
    }
}

/// What is read is what the bytes hold: a payload stands behind its length, and what was
/// used is both. A length that memory cannot address is an error.
pub proof fn law_frames_are_read_off_the_front(bytes: Seq<u8>)
    ensures
        first_frame(bytes) matches Ok(Some((payload, used))) ==> used == 8 + payload.len() && used <= bytes.len() && payload
            == bytes.subrange(8, used as int) && spec_u64_from_le_bytes(bytes.subrange(0, 8)) == payload.len(),
        first_frame(bytes) matches Ok(None) ==> bytes.len() < 8,
        bytes.len() >= 8 && spec_u64_from_le_bytes(bytes.subrange(0, 8)) > usize::MAX ==> (first_frame(bytes) matches Err(
            FrameError::TooLong,
        )),
{
}

} // verus!
