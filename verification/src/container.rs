//! The container format: a header record followed by chunk records, each a
//! frame behind its length as four little-endian bytes.

use crate::crypto::open_frame;
use crate::crypto::seals;
use crate::crypto::CryptoError;
use crate::crypto::FRAME_OVERHEAD;
use crate::sdk::IoFault;
use crate::sdk::SdkError;
use crate::sdk::FORMAT_VERSION;
use vstd::bytes::lemma_auto_spec_u32_to_from_le_bytes;
use vstd::bytes::spec_u32_from_le_bytes;
use vstd::bytes::spec_u32_to_le_bytes;
use vstd::bytes::u32_to_le_bytes;
use vstd::prelude::*;

verus! {

/// Most plaintext bytes that one chunk record holds: 1 MiB.
pub const CHUNK_SIZE: usize = 1048576;

/// Length of the prefix that says how long a frame is.
pub const LEN_PREFIX_SIZE: usize = 4;

/// Longest plaintext whose frame still has a length that fits the prefix.
pub const MAX_RECORD_PAYLOAD: usize = 4294967267;

/// The record of a frame: its length, then the frame.
pub open spec fn record(frame: Seq<u8>) -> Seq<u8>
    recommends
        frame.len() <= u32::MAX,
{
    spec_u32_to_le_bytes(frame.len() as u32) + frame
}

/// What stands at the start of a byte stream.
pub enum RecordParse {
    /// Nothing: the stream ends at a record boundary.
    End,
    /// A length prefix or a frame that the stream ends in the middle of.
    Truncated,
    /// A whole record, and what follows it.
    Record { frame: Seq<u8>, rest: Seq<u8> },
}

/// Reads one record off the front of `bytes`.
pub open spec fn parse_record(bytes: Seq<u8>) -> RecordParse {
    if bytes.len() == 0 {
        RecordParse::End
    } else if bytes.len() < LEN_PREFIX_SIZE {
        RecordParse::Truncated
    } else {
        let n = spec_u32_from_le_bytes(bytes.subrange(0, LEN_PREFIX_SIZE as int)) as int;
        if bytes.len() < LEN_PREFIX_SIZE + n {
            RecordParse::Truncated
        } else {
            RecordParse::Record {
                frame: bytes.subrange(LEN_PREFIX_SIZE as int, LEN_PREFIX_SIZE + n),
                rest: bytes.subrange(LEN_PREFIX_SIZE + n, bytes.len() as int),
            }
        }
    }
}

/// `bytes` is exactly one record, and its frame seals `plaintext`.
pub open spec fn record_seals(key: Seq<u8>, bytes: Seq<u8>, plaintext: Seq<u8>) -> bool {
    parse_record(bytes) matches RecordParse::Record { frame, rest } && rest.len() == 0 && seals(
        key,
        frame,
        plaintext,
    )
}

/// Length of the first chunk of `data`.
pub open spec fn first_chunk_len(data: Seq<u8>) -> int {
    if data.len() < CHUNK_SIZE {
        data.len() as int
    } else {
        CHUNK_SIZE as int
    }
}

/// `bytes` is the chunk region of a container for `data`: one record for
/// each successive `CHUNK_SIZE` bytes of it, the last one for what is left,
/// and nothing else.
pub open spec fn chunk_records(key: Seq<u8>, bytes: Seq<u8>, data: Seq<u8>) -> bool
    decreases data.len(),
{
    if data.len() == 0 {
        bytes.len() == 0
    } else {
        let n = first_chunk_len(data);
        match parse_record(bytes) {
            RecordParse::Record { frame, rest } => {
                &&& seals(key, frame, data.subrange(0, n))
                &&& chunk_records(key, rest, data.subrange(n, data.len() as int))
            },
            _ => false,
        }
    }
}

/// `image` is a container of `data` with the serialized header `header`:
/// the header record first, then the chunk records.
pub open spec fn is_container(
    key: Seq<u8>,
    image: Seq<u8>,
    header: Seq<u8>,
    data: Seq<u8>,
) -> bool {
    match parse_record(image) {
        RecordParse::Record { frame, rest } => {
            &&& seals(key, frame, header)
            &&& chunk_records(key, rest, data)
        },
        _ => false,
    }
}

/// The decrypted header of a container, and the bytes that follow its
/// record. A stream that ends before the header record is complete fails
/// as a short read.
pub open spec fn open_header(key: Seq<u8>, image: Seq<u8>) -> Result<(Seq<u8>, Seq<u8>), SdkError> {
    match parse_record(image) {
        RecordParse::Record { frame, rest } => match open_frame(key, frame) {
            Ok(header) => Ok((header, rest)),
            Err(e) => Err(SdkError::Crypto(e)),
        },
        _ => Err(SdkError::Io(IoFault::UnexpectedEof)),
    }
}

/// The plaintext of a chunk region: the decrypted frames in order. The
/// first record that is cut short or does not open decides the error.
pub open spec fn open_chunks(key: Seq<u8>, bytes: Seq<u8>) -> Result<Seq<u8>, SdkError>
    decreases bytes.len(),
{
    match parse_record(bytes) {
        RecordParse::End => Ok(Seq::empty()),
        RecordParse::Truncated => Err(SdkError::Io(IoFault::UnexpectedEof)),
        RecordParse::Record { frame, rest } => match open_frame(key, frame) {
            Err(e) => Err(SdkError::Crypto(e)),
            Ok(chunk) => match open_chunks(key, rest) {
                Ok(tail) => Ok(chunk + tail),
                Err(e) => Err(e),
            },
        },
    }
}

/// The plaintext of a chunk region whose length must be `expected`, where
/// that is known.
pub open spec fn restore_body(key: Seq<u8>, bytes: Seq<u8>, expected: Option<u64>) -> Result<
    Seq<u8>,
    SdkError,
> {
    match open_chunks(key, bytes) {
        Err(e) => Err(e),
        Ok(data) => if expected matches Some(n) && n != data.len() {
            Err(SdkError::TruncationError)
        } else {
            Ok(data)
        },
    }
}

/// What restoring a container yields, given the version and the size
/// that its parsed header carries: the header record must open, the
/// version must be the one this crate reads, and the chunk region must
/// restore to the announced size.
pub open spec fn restore(key: Seq<u8>, image: Seq<u8>, version: u8, expected: Option<u64>) -> Result<
    Seq<u8>,
    SdkError,
> {
    match open_header(key, image) {
        Err(e) => Err(e),
        Ok((_, rest)) => if version != FORMAT_VERSION {
            Err(SdkError::UnsupportedVersion(version))
        } else {
            restore_body(key, rest, expected)
        },
    }
}

/// A record followed by anything parses as that record and what follows.
pub proof fn lemma_parse_record(frame: Seq<u8>, rest: Seq<u8>)
    requires
        frame.len() <= u32::MAX,
    ensures
        parse_record(record(frame) + rest) == (RecordParse::Record { frame, rest }),
        record(frame).len() == LEN_PREFIX_SIZE + frame.len(),
{
    lemma_auto_spec_u32_to_from_le_bytes();
    let prefix = spec_u32_to_le_bytes(frame.len() as u32);
    let bytes = record(frame) + rest;
    assert(bytes.subrange(0, LEN_PREFIX_SIZE as int) =~= prefix);
    let n = frame.len() as int;
    assert(bytes.subrange(LEN_PREFIX_SIZE as int, LEN_PREFIX_SIZE + n) =~= frame);
    assert(bytes.subrange(LEN_PREFIX_SIZE + n, bytes.len() as int) =~= rest);
}

/// Bytes appended behind a whole record stay behind it.
pub proof fn lemma_parse_record_append(bytes: Seq<u8>, more: Seq<u8>)
    requires
        parse_record(bytes) is Record,
    ensures
        parse_record(bytes + more) == (RecordParse::Record {
            frame: parse_record(bytes)->frame,
            rest: parse_record(bytes)->rest + more,
        }),
{
    let all = bytes + more;
    assert(all.subrange(0, LEN_PREFIX_SIZE as int) =~= bytes.subrange(0, LEN_PREFIX_SIZE as int));
    let n = spec_u32_from_le_bytes(bytes.subrange(0, LEN_PREFIX_SIZE as int)) as int;
    assert(all.subrange(LEN_PREFIX_SIZE as int, LEN_PREFIX_SIZE + n) =~= bytes.subrange(
        LEN_PREFIX_SIZE as int,
        LEN_PREFIX_SIZE + n,
    ));
    assert(all.subrange(LEN_PREFIX_SIZE + n, all.len() as int) =~= bytes.subrange(
        LEN_PREFIX_SIZE + n,
        bytes.len() as int,
    ) + more);
}

/// A chunk region stays one when the record of one more chunk is put
/// behind it, as long as every chunk before was a full one.
pub proof fn lemma_chunk_records_append(
    key: Seq<u8>,
    bytes: Seq<u8>,
    data: Seq<u8>,
    more: Seq<u8>,
    chunk: Seq<u8>,
)
    requires
        chunk_records(key, bytes, data),
        data.len() % (CHUNK_SIZE as nat) == 0,
        record_seals(key, more, chunk),
        0 < chunk.len() <= CHUNK_SIZE,
    ensures
        chunk_records(key, bytes + more, data + chunk),
    decreases data.len(),
{
    if data.len() == 0 {
        assert(bytes + more =~= more);
        assert(data + chunk =~= chunk);
        let whole = data + chunk;
        assert(first_chunk_len(whole) == whole.len());
        assert(whole.subrange(0, whole.len() as int) =~= chunk);
        assert(whole.subrange(whole.len() as int, whole.len() as int) =~= Seq::<u8>::empty());
        assert(chunk_records(key, parse_record(more)->rest, Seq::<u8>::empty()));
    } else {
        let n = first_chunk_len(data);
        assert(n == CHUNK_SIZE);
        let frame = parse_record(bytes)->frame;
        let rest = parse_record(bytes)->rest;
        let tail = data.subrange(n, data.len() as int);
        lemma_parse_record_append(bytes, more);
        assert(tail.len() % (CHUNK_SIZE as nat) == 0);
        lemma_chunk_records_append(key, rest, tail, more, chunk);
        let whole = data + chunk;
        assert(first_chunk_len(whole) == n);
        assert(whole.subrange(0, n) =~= data.subrange(0, n));
        assert(whole.subrange(n, whole.len() as int) =~= tail + chunk);
    }
}

/// A chunk region restores to the data that it was written for.
pub proof fn lemma_chunks_round_trip(key: Seq<u8>, bytes: Seq<u8>, data: Seq<u8>)
    requires
        chunk_records(key, bytes, data),
    ensures
        open_chunks(key, bytes) == Ok::<Seq<u8>, SdkError>(data),
    decreases data.len(),
{
    if data.len() == 0 {
        assert(data =~= Seq::<u8>::empty());
    } else {
        let n = first_chunk_len(data);
        let rest = parse_record(bytes)->rest;
        let tail = data.subrange(n, data.len() as int);
        lemma_chunks_round_trip(key, rest, tail);
        assert(data.subrange(0, n) + tail =~= data);
    }
}

/// Round trip: a container restores to the header and the data that were
/// stored, whether or not the header announced the size.
pub proof fn lemma_round_trip(
    key: Seq<u8>,
    image: Seq<u8>,
    header: Seq<u8>,
    data: Seq<u8>,
    total_size: Option<u64>,
)
    requires
        is_container(key, image, header, data),
        total_size matches Some(n) ==> n == data.len(),
    ensures
        open_header(key, image) matches Ok(found) && found.0 == header,
        restore(key, image, FORMAT_VERSION, total_size) == Ok::<Seq<u8>, SdkError>(data),
{
    lemma_chunks_round_trip(key, parse_record(image)->rest, data);
}

/// A chunk region that is cut short yields fewer bytes than were stored,
/// or ends in the middle of a record.
pub proof fn lemma_chunks_cut_short(key: Seq<u8>, bytes: Seq<u8>, data: Seq<u8>, cut: int)
    requires
        chunk_records(key, bytes, data),
        0 <= cut < bytes.len(),
    ensures
        match open_chunks(key, bytes.subrange(0, cut)) {
            Ok(found) => found.len() < data.len(),
            Err(e) => e == SdkError::Io(IoFault::UnexpectedEof),
        },
    decreases data.len(),
{
    let short = bytes.subrange(0, cut);
    if data.len() == 0 {
    } else if cut < LEN_PREFIX_SIZE {
    } else {
        let n = first_chunk_len(data);
        let frame = parse_record(bytes)->frame;
        let rest = parse_record(bytes)->rest;
        let tail = data.subrange(n, data.len() as int);
        assert(short.subrange(0, LEN_PREFIX_SIZE as int) =~= bytes.subrange(
            0,
            LEN_PREFIX_SIZE as int,
        ));
        let end = LEN_PREFIX_SIZE + frame.len();
        if cut >= end {
            assert(short.subrange(LEN_PREFIX_SIZE as int, end) =~= frame);
            assert(short.subrange(end, short.len() as int) =~= rest.subrange(0, cut - end));
            lemma_chunks_cut_short(key, rest, tail, cut - end);
        }
    }
}

/// Truncation is detected: a container that announces its size and has
/// lost any number of bytes from its end, but not none, fails to restore,
/// as truncated or as a stream that ended early. Where its header can still
/// be read, it is the header that was stored.
pub proof fn lemma_truncation_detected(
    key: Seq<u8>,
    image: Seq<u8>,
    header: Seq<u8>,
    data: Seq<u8>,
    cut: int,
)
    requires
        is_container(key, image, header, data),
        data.len() <= u64::MAX,
        0 <= cut < image.len(),
    ensures
        open_header(key, image.subrange(0, cut)) matches Ok(found) ==> found.0 == header,
        restore(key, image.subrange(0, cut), FORMAT_VERSION, Some(data.len() as u64)) matches Err(
            e,
        ) && (e == SdkError::TruncationError || e == SdkError::Io(IoFault::UnexpectedEof)),
{
    let short = image.subrange(0, cut);
    if cut >= LEN_PREFIX_SIZE {
        let frame = parse_record(image)->frame;
        let rest = parse_record(image)->rest;
        assert(short.subrange(0, LEN_PREFIX_SIZE as int) =~= image.subrange(
            0,
            LEN_PREFIX_SIZE as int,
        ));
        let end = LEN_PREFIX_SIZE + frame.len();
        if cut >= end {
            assert(short.subrange(LEN_PREFIX_SIZE as int, end) =~= frame);
            assert(short.subrange(end, short.len() as int) =~= rest.subrange(0, cut - end));
            lemma_chunks_cut_short(key, rest, data, cut - end);
        }
    }
}

/// A frame that the cipher refuses is reported: where the records in front
/// of it open, the chunk region fails with a decryption error, whatever
/// follows the refused frame.
pub proof fn lemma_refused_frame_is_reported(
    key: Seq<u8>,
    front: Seq<u8>,
    frame: Seq<u8>,
    behind: Seq<u8>,
)
    requires
        open_chunks(key, front) is Ok,
        frame.len() <= u32::MAX,
        open_frame(key, frame) is Err,
    ensures
        open_chunks(key, front + record(frame) + behind) == Err::<Seq<u8>, SdkError>(
            SdkError::Crypto(CryptoError::DecryptionError),
        ),
    decreases front.len(),
{
    let all = front + record(frame) + behind;
    if front.len() == 0 {
        assert(all =~= record(frame) + behind);
        lemma_parse_record(frame, behind);
    } else {
        let rest = parse_record(front)->rest;
        lemma_parse_record_append(front, record(frame) + behind);
        assert(all =~= front + (record(frame) + behind));
        assert(rest + (record(frame) + behind) =~= rest + record(frame) + behind);
        lemma_refused_frame_is_reported(key, rest, frame, behind);
    }
}

/// Number of chunk records that `len` bytes are stored in.
pub open spec fn chunk_count(len: nat) -> nat {
    ((len + CHUNK_SIZE - 1) / (CHUNK_SIZE as int)) as nat
}

/// Lengths of the frames of the records that `bytes` starts with, up to
/// its end or to the first record that is cut short.
pub open spec fn frame_lengths(bytes: Seq<u8>) -> Seq<nat>
    decreases bytes.len(),
{
    match parse_record(bytes) {
        RecordParse::Record { frame, rest } => seq![frame.len()] + frame_lengths(rest),
        _ => Seq::empty(),
    }
}

/// Lengths of the chunk frames for `len` bytes of data: full chunks, then
/// what is left, each with the overhead of its frame.
pub open spec fn chunk_frame_lengths(len: nat) -> Seq<nat>
    decreases len,
{
    if len == 0 {
        Seq::empty()
    } else if len <= CHUNK_SIZE {
        seq![len + FRAME_OVERHEAD as nat]
    } else {
        seq![(CHUNK_SIZE + FRAME_OVERHEAD) as nat] + chunk_frame_lengths(
            (len - CHUNK_SIZE) as nat,
        )
    }
}

/// Chunk boundaries depend on the length of the data alone: a chunk region
/// holds one record for each full `CHUNK_SIZE` bytes and one for what is
/// left, with frames of the matching lengths.
pub proof fn lemma_chunk_layout(key: Seq<u8>, bytes: Seq<u8>, data: Seq<u8>)
    requires
        chunk_records(key, bytes, data),
    ensures
        frame_lengths(bytes) == chunk_frame_lengths(data.len()),
        frame_lengths(bytes).len() == chunk_count(data.len()),
        bytes.len() == data.len() + chunk_count(data.len()) * (LEN_PREFIX_SIZE + FRAME_OVERHEAD),
    decreases data.len(),
{
    if data.len() == 0 {
    } else {
        let n = first_chunk_len(data);
        let rest = parse_record(bytes)->rest;
        let tail = data.subrange(n, data.len() as int);
        lemma_chunk_layout(key, rest, tail);
        if data.len() <= CHUNK_SIZE {
            assert(tail.len() == 0);
            assert(chunk_count(data.len()) == 1);
        } else {
            assert(chunk_count(data.len()) == chunk_count(tail.len()) + 1);
        }
    }
}

/// Frames `frame` as a record. `None` where its length does not fit the
/// four-byte prefix.
pub fn encode_record(frame: &[u8]) -> (r: Option<Vec<u8>>)
    ensures
        match r {
            Some(bytes) => frame@.len() <= u32::MAX && bytes@ == record(frame@),
            None => frame@.len() > u32::MAX,
        },
{
    if frame.len() > 0xFFFF_FFFF {
        return None;
    }
    let mut bytes = u32_to_le_bytes(frame.len() as u32);
    let mut body = vstd::slice::slice_to_vec(frame);
    bytes.append(&mut body);
    Some(bytes)
}

} // verus!
