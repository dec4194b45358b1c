//! The vault engine: what is written for a stored artifact and what is
//! accepted when it is read back.

use crate::container::chunk_records;
use crate::container::encode_record;
use crate::container::is_container;
use crate::container::lemma_chunk_records_append;
use crate::container::lemma_parse_record;
use crate::container::lemma_parse_record_append;
use crate::container::open_chunks;
use crate::container::open_header;
use crate::container::parse_record;
use crate::container::record;
use crate::container::record_seals;
use crate::container::restore;
use crate::container::restore_body;
use crate::container::RecordParse;
use crate::container::CHUNK_SIZE;
use crate::container::LEN_PREFIX_SIZE;
use crate::container::MAX_RECORD_PAYLOAD;
use crate::crypto::AegisCrypto;
use crate::crypto::CryptoError;
use crate::crypto::FRAME_OVERHEAD;
use crate::crypto::KEY_SIZE;
use crate::naming::fresh_stored_name;
use crate::naming::is_stored_name;
use crate::restore::moved;
use crate::restore::start;
use crate::restore::Progress;
use crate::restore::RestoreState;
use crate::restore::Restorer;
use vstd::prelude::*;
use vstd::slice::slice_subrange;
use vstd::string::StringExecFns;

verus! {

/// Format version that this crate writes and the only one it reads.
pub const FORMAT_VERSION: u8 = 1;

/// How a byte stream let its reader down.
#[derive(Clone, Copy, Debug, PartialEq, Eq, Structural)]
pub enum IoFault {
    /// The stream ended in the middle of a length prefix or of a frame.
    UnexpectedEof,
    /// The named file does not exist.
    NotFound,
    /// Any other failure of the underlying stream.
    Other,
}

#[derive(Clone, Copy, Debug, PartialEq, Eq, Structural)]
pub enum SdkError {
    /// A stream or file failed, or ended early.
    Io(IoFault),
    /// The key was refused, or a frame could not be sealed or opened.
    Crypto(CryptoError),
    /// The header could not be encoded or decoded.
    Serialization,
    /// A header names no usable file, or the engine was driven out of turn.
    InvalidState,
    /// Reserved for integrity failures that are not the cipher's.
    IntegrityError,
    /// The restored bytes are not as many as the header announced.
    TruncationError,
    /// The header carries a format version other than `FORMAT_VERSION`.
    UnsupportedVersion(u8),
}

/// What a container says of itself, sealed in its first record.
#[derive(Clone, Debug)]
pub struct VaultHeader {
    /// Name under which the artifact was stored, as the caller gave it.
    /// It is never trusted as a path when the artifact is restored.
    pub original_filename: String,
    /// Seconds since the Unix epoch at the time of storing.
    pub timestamp: u64,
    /// Format version.
    pub version: u8,
    /// Number of plaintext bytes, where it was known when storing.
    pub total_size: Option<u64>,
}

impl VaultHeader {
    /// The header of an artifact that is stored now. `clock` is the current
    /// time in seconds since the Unix epoch, or `None` where the clock
    /// stands before the epoch: the timestamp is then 0.
    pub fn new(filename: &str, clock: Option<u64>, total_size: Option<u64>) -> (header: Self)
        ensures
            header.original_filename@ == filename@,
            header.timestamp == match clock {
                Some(seconds) => seconds,
                None => 0,
            },
            header.version == FORMAT_VERSION,
            header.total_size == total_size,
    {
        let timestamp = match clock {
            Some(seconds) => seconds,
            None => 0,
        };
        VaultHeader {
            original_filename: String::from_str(filename),
            timestamp,
            version: FORMAT_VERSION,
            total_size,
        }
    }
}

/// A vault: the directory that holds its containers, and the cipher that
/// seals them.
pub struct Vault {
    root_path: String,
    crypto: AegisCrypto,
}

impl Vault {
    /// The directory of this vault, as given at opening.
    pub closed spec fn root(self) -> Seq<char> {
        self.root_path@
    }

    /// The key of this vault's cipher.
    pub closed spec fn key(self) -> Seq<u8> {
        self.crypto.key()
    }

    /// Opens the vault rooted at `path` with a 32-byte key. The directory
    /// itself is the caller's to create.
    pub fn new(path: &str, key: &[u8]) -> (r: Result<Self, SdkError>)
        ensures
            match r {
                Ok(vault) => key@.len() == KEY_SIZE && vault.key() == key@ && vault.root()
                    == path@,
                Err(e) => key@.len() != KEY_SIZE && e == SdkError::Crypto(CryptoError::KeyError),
            },
    {
        match AegisCrypto::new_from_key(key) {
            Ok(crypto) => Ok(Vault { root_path: String::from_str(path), crypto }),
            Err(e) => Err(SdkError::Crypto(e)),
        }
    }

    /// The directory of this vault.
    pub fn root_path(&self) -> (path: &str)
        ensures
            path@ == self.root(),
    {
        self.root_path.as_str()
    }

    /// The cipher of this vault.
    pub fn crypto(&self) -> (crypto: &AegisCrypto)
        ensures
            crypto.key() == self.key(),
    {
        &self.crypto
    }

    /// Seals `plaintext` into one record: the frame behind its length.
    /// This is how the header is written. It fails, with an encryption
    /// error, exactly where the frame would be too long for its prefix.
    pub fn seal_record(&self, plaintext: &[u8]) -> (r: Result<Vec<u8>, SdkError>)
        ensures
            r is Ok <==> plaintext@.len() <= MAX_RECORD_PAYLOAD,
            r matches Ok(bytes) ==> record_seals(self.key(), bytes@, plaintext@),
            r matches Ok(bytes) ==> bytes@.len() == plaintext@.len() + LEN_PREFIX_SIZE
                + FRAME_OVERHEAD,
            r matches Err(e) ==> e == SdkError::Crypto(CryptoError::EncryptionError),
    {
        if plaintext.len() > MAX_RECORD_PAYLOAD {
            return Err(SdkError::Crypto(CryptoError::EncryptionError));
        }
        match self.crypto.encrypt(plaintext) {
            Err(e) => Err(SdkError::Crypto(e)),
            Ok(frame) => match encode_record(frame.as_slice()) {
                None => Err(SdkError::Crypto(CryptoError::EncryptionError)),
                Some(bytes) => {
                    proof {
                        lemma_parse_record(frame@, Seq::empty());
                        assert(record(frame@) + Seq::<u8>::empty() =~= record(frame@));
                    }
                    Ok(bytes)
                },
            },
        }
    }

    /// Seals `data` into chunk records: one for each successive
    /// `CHUNK_SIZE` bytes, the last one for what is left. No bytes, no
    /// record.
    pub fn seal_chunks(&self, data: &[u8]) -> (r: Result<Vec<u8>, SdkError>)
        ensures
            r is Ok,
            r matches Ok(bytes) ==> chunk_records(self.key(), bytes@, data@),
    {
        let mut out: Vec<u8> = Vec::new();
        let mut pos: usize = 0;
        while pos < data.len()
            invariant
                pos <= data@.len(),
                pos < data@.len() ==> pos % CHUNK_SIZE == 0,
                chunk_records(self.key(), out@, data@.subrange(0, pos as int)),
            decreases data@.len() - pos,
        {
            let left = data.len() - pos;
            let n = if left < CHUNK_SIZE {
                left
            } else {
                CHUNK_SIZE
            };
            let chunk = slice_subrange(data, pos, pos + n);
            match self.seal_record(chunk) {
                Err(e) => {
                    return Err(e);
                },
                Ok(mut bytes) => {
                    proof {
                        lemma_chunk_records_append(
                            self.key(),
                            out@,
                            data@.subrange(0, pos as int),
                            bytes@,
                            chunk@,
                        );
                        assert(data@.subrange(0, pos as int) + chunk@ =~= data@.subrange(
                            0,
                            pos + n,
                        ));
                    }
                    out.append(&mut bytes);
                },
            }
            pos = pos + n;
        }
        proof {
            assert(data@.subrange(0, pos as int) =~= data@);
        }
        Ok(out)
    }

    /// Stores `data` from memory: draws a fresh name for the container and
    /// builds its image, the record of the serialized `header` and then the
    /// chunk records of `data`. The caller writes the image under the name.
    /// It fails, with an encryption error, exactly where the header is too
    /// long for one record.
    pub fn store_memory(&self, data: &[u8], header: &[u8]) -> (r: Result<
        (String, Vec<u8>),
        SdkError,
    >)
        ensures
            r is Ok <==> header@.len() <= MAX_RECORD_PAYLOAD,
            r matches Ok(stored) ==> is_stored_name(stored.0@),
            r matches Ok(stored) ==> is_container(self.key(), stored.1@, header@, data@),
            r matches Err(e) ==> e == SdkError::Crypto(CryptoError::EncryptionError),
    {
        let name = fresh_stored_name();
        let mut image = match self.seal_record(header) {
            Ok(bytes) => bytes,
            Err(e) => {
                return Err(e);
            },
        };
        let mut chunks = match self.seal_chunks(data) {
            Ok(bytes) => bytes,
            Err(e) => {
                return Err(e);
            },
        };
        proof {
            lemma_parse_record_append(image@, chunks@);
            assert(parse_record(image@)->rest + chunks@ =~= chunks@);
        }
        image.append(&mut chunks);
        Ok((name, image))
    }

    /// Opens the header record at the start of `container` and returns the
    /// serialized header that it seals.
    pub fn read_header(&self, container: &[u8]) -> (r: Result<Vec<u8>, SdkError>)
        ensures
            match r {
                Ok(header) => open_header(self.key(), container@) matches Ok(found) && found.0
                    == header@,
                Err(e) => open_header(self.key(), container@) == Err::<
                    (Seq<u8>, Seq<u8>),
                    SdkError,
                >(e),
            },
    {
        let mut machine = Restorer::new();
        match self.take_header(&mut machine, container) {
            Ok(found) => Ok(found.0),
            Err(e) => Err(e),
        }
    }

    /// Restores the chunk region `records`: the plaintext of its frames in
    /// order. Where `expected_size` is known, the plaintext must have
    /// exactly that many bytes.
    pub fn process_stream(&self, records: &[u8], expected_size: Option<u64>) -> (r: Result<
        Vec<u8>,
        SdkError,
    >)
        ensures
            match r {
                Ok(data) => restore_body(self.key(), records@, expected_size) == Ok::<
                    Seq<u8>,
                    SdkError,
                >(data@),
                Err(e) => restore_body(self.key(), records@, expected_size) == Err::<
                    Seq<u8>,
                    SdkError,
                >(e),
            },
    {
        let mut machine = Restorer::at_chunks(expected_size);
        self.drain(&mut machine, records)
    }

    /// Restores the whole `container` to memory. `header` is what the
    /// caller parsed from the bytes that `read_header` returned for it.
    pub fn load_file_to_memory(&self, container: &[u8], header: &VaultHeader) -> (r: Result<
        Vec<u8>,
        SdkError,
    >)
        ensures
            match r {
                Ok(data) => restore(
                    self.key(),
                    container@,
                    header.version,
                    header.total_size,
                ) == Ok::<Seq<u8>, SdkError>(data@),
                Err(e) => restore(self.key(), container@, header.version, header.total_size)
                    == Err::<Seq<u8>, SdkError>(e),
            },
    {
        let mut machine = Restorer::new();
        let offset = match self.take_header(&mut machine, container) {
            Ok(found) => found.1,
            Err(e) => {
                return Err(e);
            },
        };
        match machine.accept_header(header) {
            Ok(()) => {},
            Err(e) => {
                return Err(e);
            },
        }
        self.drain(&mut machine, slice_subrange(container, offset, container.len()))
    }

    /// Runs a fresh machine over the header record of `container`. Returns
    /// the serialized header and where the chunk region begins.
    fn take_header(&self, machine: &mut Restorer, container: &[u8]) -> (r: Result<
        (Vec<u8>, usize),
        SdkError,
    >)
        requires
            old(machine)@ == start(),
        ensures
            match r {
                Ok(found) => {
                    &&& found.1 <= container@.len()
                    &&& open_header(self.key(), container@) == Ok::<(Seq<u8>, Seq<u8>), SdkError>(
                        (found.0@, container@.subrange(found.1 as int, container@.len() as int)),
                    )
                    &&& final(machine)@ == moved(start(), RestoreState::AwaitHeader)
                },
                Err(e) => open_header(self.key(), container@) == Err::<
                    (Seq<u8>, Seq<u8>),
                    SdkError,
                >(e),
            },
    {
        let n = if container.len() < LEN_PREFIX_SIZE {
            container.len()
        } else {
            LEN_PREFIX_SIZE
        };
        let prefix = slice_subrange(container, 0, n);
        match machine.feed(&self.crypto, prefix) {
            Ok(_) => {},
            Err(e) => {
                return Err(e);
            },
        }
        let want = machine.wanted();
        let left = container.len() - LEN_PREFIX_SIZE;
        let take = if left < want {
            left
        } else {
            want
        };
        let frame = slice_subrange(container, LEN_PREFIX_SIZE, LEN_PREFIX_SIZE + take);
        match machine.feed(&self.crypto, frame) {
            Ok(header) => Ok((header, LEN_PREFIX_SIZE + take)),
            Err(e) => Err(e),
        }
    }

    /// Runs a machine that awaits a chunk over the chunk region `records`,
    /// to the end of it.
    fn drain(&self, machine: &mut Restorer, records: &[u8]) -> (r: Result<Vec<u8>, SdkError>)
        requires
            old(machine)@.state == RestoreState::AwaitChunkLen,
            old(machine)@.written == 0,
        ensures
            match r {
                Ok(data) => restore_body(self.key(), records@, old(machine)@.expected) == Ok::<
                    Seq<u8>,
                    SdkError,
                >(data@) && final(machine)@.state == RestoreState::Done,
                Err(e) => restore_body(self.key(), records@, old(machine)@.expected) == Err::<
                    Seq<u8>,
                    SdkError,
                >(e),
            },
    {
        let ghost expected = machine@.expected;
        let mut out: Vec<u8> = Vec::new();
        let mut pos: usize = 0;
        proof {
            let all = records@.subrange(0, records@.len() as int);
            assert(all =~= records@);
            if let Ok(t) = open_chunks(self.key(), all) {
                assert(out@ + t =~= t);
            }
        }
        loop
            invariant
                pos <= records@.len(),
                expected == old(machine)@.expected,
                machine@ == (Progress {
                    state: RestoreState::AwaitChunkLen,
                    expected,
                    written: out@.len(),
                }),
                open_chunks(self.key(), records@) == after(
                    out@,
                    open_chunks(self.key(), records@.subrange(pos as int, records@.len() as int)),
                ),
            decreases records@.len() - pos,
        {
            let ghost rest = records@.subrange(pos as int, records@.len() as int);
            let left = records.len() - pos;
            let n = if left < LEN_PREFIX_SIZE {
                left
            } else {
                LEN_PREFIX_SIZE
            };
            let prefix = slice_subrange(records, pos, pos + n);
            proof {
                if n == LEN_PREFIX_SIZE {
                    assert(prefix@ =~= rest.subrange(0, LEN_PREFIX_SIZE as int));
                } else if n == 0 {
                    assert(parse_record(rest) is End);
                    assert(out@ + Seq::<u8>::empty() =~= out@);
                } else {
                    assert(parse_record(rest) is Truncated);
                }
            }
            match machine.feed(&self.crypto, prefix) {
                Ok(_) => {},
                Err(e) => {
                    return Err(e);
                },
            }
            if machine.is_done() {
                return Ok(out);
            }
            pos = pos + n;
            let want = machine.wanted();
            let left = records.len() - pos;
            let take = if left < want {
                left
            } else {
                want
            };
            let frame = slice_subrange(records, pos, pos + take);
            let ghost behind = records@.subrange(pos + take, records@.len() as int);
            proof {
                if take == want {
                    assert(frame@ =~= rest.subrange(
                        LEN_PREFIX_SIZE as int,
                        LEN_PREFIX_SIZE + want,
                    ));
                    assert(behind =~= rest.subrange(LEN_PREFIX_SIZE + want, rest.len() as int));
                    assert(parse_record(rest) == (RecordParse::Record {
                        frame: frame@,
                        rest: behind,
                    }));
                } else {
                    assert(parse_record(rest) is Truncated);
                }
            }
            match machine.feed(&self.crypto, frame) {
                Ok(mut chunk) => {
                    proof {
                        if let Ok(t) = open_chunks(self.key(), behind) {
                            assert(out@ + (chunk@ + t) =~= (out@ + chunk@) + t);
                        }
                    }
                    out.append(&mut chunk);
                },
                Err(e) => {
                    return Err(e);
                },
            }
            pos = pos + take;
        }
    }
}

/// What a restore yields as a whole when `done` has been released and
/// `rest` is what the remaining stream yields.
pub open spec fn after(done: Seq<u8>, rest: Result<Seq<u8>, SdkError>) -> Result<Seq<u8>, SdkError> {
    match rest {
        Ok(tail) => Ok(done + tail),
        Err(e) => Err(e),
    }
}

} // verus!
