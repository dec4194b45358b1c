//! Reading one container back, as a state machine that never touches a
//! stream itself: it says how many bytes it wants next, is fed what the
//! caller could read, and answers with the plaintext to pass on.
//!
//! The states run `AwaitHeaderLen`, `AwaitHeaderFrame`, `AwaitHeader`,
//! then `AwaitChunkLen` and `AwaitChunkFrame` in turn for every chunk, and
//! end in `Done` or `Failed`. Only a stream that ends exactly where a
//! length prefix would begin leads to `Done`.

use crate::container::LEN_PREFIX_SIZE;
use crate::crypto::open_frame;
use crate::crypto::AegisCrypto;
use crate::sdk::IoFault;
use crate::sdk::SdkError;
use crate::sdk::VaultHeader;
use crate::sdk::FORMAT_VERSION;
use vstd::bytes::spec_u32_from_le_bytes;
use vstd::bytes::u32_from_le_bytes;
use vstd::prelude::*;

verus! {

#[derive(Clone, Copy, Debug, PartialEq, Eq, Structural)]
pub enum RestoreState {
    /// The four bytes that give the header frame's length come next.
    AwaitHeaderLen,
    /// The header frame of `len` bytes comes next.
    AwaitHeaderFrame { len: u32 },
    /// The decrypted header is with the caller, who parses it and hands
    /// it back.
    AwaitHeader,
    /// The four bytes of a chunk frame's length come next, or the end of
    /// the stream.
    AwaitChunkLen,
    /// A chunk frame of `len` bytes comes next.
    AwaitChunkFrame { len: u32 },
    /// The stream ended where it may, and the size matched.
    Done,
    /// An error was returned. Nothing more is accepted.
    Failed,
}

/// Where a restore stands: its state, the size that the header announced,
/// and how many plaintext bytes it has released.
pub struct Progress {
    pub state: RestoreState,
    pub expected: Option<u64>,
    pub written: nat,
}

/// The start of every restore.
pub open spec fn start() -> Progress {
    Progress { state: RestoreState::AwaitHeaderLen, expected: None, written: 0 }
}

/// The start of a chunk region that is read on its own.
pub open spec fn start_chunks(expected: Option<u64>) -> Progress {
    Progress { state: RestoreState::AwaitChunkLen, expected, written: 0 }
}

/// How many bytes the machine asks for next.
pub open spec fn wanted(p: Progress) -> nat {
    match p.state {
        RestoreState::AwaitHeaderLen => LEN_PREFIX_SIZE as nat,
        RestoreState::AwaitHeaderFrame { len } => len as nat,
        RestoreState::AwaitChunkLen => LEN_PREFIX_SIZE as nat,
        RestoreState::AwaitChunkFrame { len } => len as nat,
        _ => 0,
    }
}

/// `p` after an error.
pub open spec fn failed(p: Progress) -> Progress {
    Progress { state: RestoreState::Failed, ..p }
}

/// `p` in another state.
pub open spec fn moved(p: Progress, state: RestoreState) -> Progress {
    Progress { state, ..p }
}

/// One transition. `input` is what the caller got when it tried to read
/// `wanted(p)` bytes: fewer only where the stream ended. The result is the
/// next progress, and the plaintext that this step releases or the error
/// that ends the restore.
///
/// A short input is an early end of the stream, but for one case: no bytes
/// at all while a chunk's length is awaited is the regular end, and then
/// the released bytes must be as many as the header announced. More bytes
/// than asked for, and any input in `AwaitHeader`, `Done` or `Failed`, is
/// a caller's mistake.
pub open spec fn step(key: Seq<u8>, p: Progress, input: Seq<u8>) -> (
    Progress,
    Result<Seq<u8>, SdkError>,
) {
    if p.state == RestoreState::AwaitHeader || p.state == RestoreState::Done || p.state
        == RestoreState::Failed || input.len() > wanted(p) {
        (failed(p), Err(SdkError::InvalidState))
    } else if input.len() == 0 && p.state == RestoreState::AwaitChunkLen {
        if p.expected matches Some(n) && n != p.written {
            (failed(p), Err(SdkError::TruncationError))
        } else {
            (moved(p, RestoreState::Done), Ok(Seq::empty()))
        }
    } else if input.len() < wanted(p) {
        (failed(p), Err(SdkError::Io(IoFault::UnexpectedEof)))
    } else {
        match p.state {
            RestoreState::AwaitHeaderLen => (
                moved(p, RestoreState::AwaitHeaderFrame { len: spec_u32_from_le_bytes(input) }),
                Ok(Seq::empty()),
            ),
            RestoreState::AwaitChunkLen => (
                moved(p, RestoreState::AwaitChunkFrame { len: spec_u32_from_le_bytes(input) }),
                Ok(Seq::empty()),
            ),
            RestoreState::AwaitHeaderFrame { len } => match open_frame(key, input) {
                Ok(header) => (moved(p, RestoreState::AwaitHeader), Ok(header)),
                Err(e) => (failed(p), Err(SdkError::Crypto(e))),
            },
            _ => match open_frame(key, input) {
                Ok(chunk) => (
                    Progress {
                        state: RestoreState::AwaitChunkLen,
                        written: p.written + chunk.len(),
                        ..p
                    },
                    Ok(chunk),
                ),
                Err(e) => (failed(p), Err(SdkError::Crypto(e))),
            },
        }
    }
}

/// The transition on the parsed header: a version other than
/// `FORMAT_VERSION` is refused, and the announced size is kept for the
/// end of the stream.
pub open spec fn accept(p: Progress, version: u8, total_size: Option<u64>) -> (
    Progress,
    Result<(), SdkError>,
) {
    if p.state != RestoreState::AwaitHeader {
        (failed(p), Err(SdkError::InvalidState))
    } else if version != FORMAT_VERSION {
        (failed(p), Err(SdkError::UnsupportedVersion(version)))
    } else {
        (start_chunks(total_size), Ok(()))
    }
}

/// The state machine of one restore.
pub struct Restorer {
    state: RestoreState,
    expected: Option<u64>,
    /// Bytes still owed to reach `expected`, unless `overrun`.
    left: u64,
    /// More bytes were released than `expected`.
    overrun: bool,
    written: Ghost<nat>,
}

impl View for Restorer {
    type V = Progress;

    closed spec fn view(&self) -> Progress {
        Progress { state: self.state, expected: self.expected, written: self.written@ }
    }
}

impl Restorer {
    #[verifier::type_invariant]
    spec fn well_formed(self) -> bool {
        self.expected matches Some(e) ==> if self.overrun {
            self.written@ > e
        } else {
            self.written@ + self.left == e
        }
    }

    /// A machine at the start of a container.
    pub fn new() -> (machine: Self)
        ensures
            machine@ == start(),
    {
        Restorer {
            state: RestoreState::AwaitHeaderLen,
            expected: None,
            left: 0,
            overrun: false,
            written: Ghost(0),
        }
    }

    /// A machine at the start of a chunk region, for a header that was
    /// accepted elsewhere.
    pub fn at_chunks(expected_size: Option<u64>) -> (machine: Self)
        ensures
            machine@ == start_chunks(expected_size),
    {
        let left = match expected_size {
            Some(size) => size,
            None => 0,
        };
        Restorer {
            state: RestoreState::AwaitChunkLen,
            expected: expected_size,
            left,
            overrun: false,
            written: Ghost(0),
        }
    }

    /// The state that the machine is in.
    pub fn state(&self) -> (state: RestoreState)
        ensures
            state == self@.state,
    {
        self.state
    }

    /// Whether the restore has ended well.
    pub fn is_done(&self) -> (done: bool)
        ensures
            done <==> self@.state == RestoreState::Done,
    {
        match self.state {
            RestoreState::Done => true,
            _ => false,
        }
    }

    /// How many bytes to read next and feed.
    pub fn wanted(&self) -> (n: usize)
        ensures
            n == wanted(self@),
    {
        match self.state {
            RestoreState::AwaitHeaderLen => LEN_PREFIX_SIZE,
            RestoreState::AwaitHeaderFrame { len } => len as usize,
            RestoreState::AwaitChunkLen => LEN_PREFIX_SIZE,
            RestoreState::AwaitChunkFrame { len } => len as usize,
            _ => 0,
        }
    }

    fn fail(&mut self, e: SdkError) -> (r: Result<Vec<u8>, SdkError>)
        ensures
            final(self)@ == failed(old(self)@),
            r == Err::<Vec<u8>, SdkError>(e),
    {
        proof {
            use_type_invariant(&*self);
        }
        self.state = RestoreState::Failed;
        Err(e)
    }

    /// Feeds the machine what could be read of the `wanted` bytes and
    /// returns the plaintext that this step releases: the serialized header
    /// after the header frame, a chunk after a chunk frame, nothing after
    /// a length prefix or at the end.
    pub fn feed(&mut self, crypto: &AegisCrypto, input: &[u8]) -> (r: Result<Vec<u8>, SdkError>)
        ensures
            final(self)@ == step(crypto.key(), old(self)@, input@).0,
            match r {
                Ok(out) => step(crypto.key(), old(self)@, input@).1 == Ok::<Seq<u8>, SdkError>(
                    out@,
                ),
                Err(e) => step(crypto.key(), old(self)@, input@).1 == Err::<Seq<u8>, SdkError>(e),
            },
    {
        proof {
            use_type_invariant(&*self);
        }
        let want = self.wanted();
        match self.state {
            RestoreState::AwaitHeader | RestoreState::Done | RestoreState::Failed => {
                return self.fail(SdkError::InvalidState);
            },
            _ => {},
        }
        if input.len() > want {
            return self.fail(SdkError::InvalidState);
        }
        match self.state {
            RestoreState::AwaitHeaderLen => {
                if input.len() < want {
                    return self.fail(SdkError::Io(IoFault::UnexpectedEof));
                }
                let len = u32_from_le_bytes(input);
                self.state = RestoreState::AwaitHeaderFrame { len };
                Ok(Vec::new())
            },
            RestoreState::AwaitHeaderFrame { len } => {
                if input.len() < want {
                    return self.fail(SdkError::Io(IoFault::UnexpectedEof));
                }
                match crypto.decrypt(input) {
                    Ok(header) => {
                        self.state = RestoreState::AwaitHeader;
                        Ok(header)
                    },
                    Err(e) => self.fail(SdkError::Crypto(e)),
                }
            },
            RestoreState::AwaitChunkLen => {
                if input.len() == 0 {
                    let short = match self.expected {
                        Some(_) => self.overrun || self.left != 0,
                        None => false,
                    };
                    if short {
                        return self.fail(SdkError::TruncationError);
                    }
                    self.state = RestoreState::Done;
                    return Ok(Vec::new());
                }
                if input.len() < want {
                    return self.fail(SdkError::Io(IoFault::UnexpectedEof));
                }
                let len = u32_from_le_bytes(input);
                self.state = RestoreState::AwaitChunkFrame { len };
                Ok(Vec::new())
            },
            RestoreState::AwaitChunkFrame { len } => {
                if input.len() < want {
                    return self.fail(SdkError::Io(IoFault::UnexpectedEof));
                }
                match crypto.decrypt(input) {
                    Ok(chunk) => {
                        self.release(chunk.len());
                        Ok(chunk)
                    },
                    Err(e) => self.fail(SdkError::Crypto(e)),
                }
            },
            _ => self.fail(SdkError::InvalidState),
        }
    }

    /// Counts `n` released bytes against the announced size and waits for
    /// the next chunk.
    fn release(&mut self, n: usize)
        ensures
            final(self)@ == (Progress {
                state: RestoreState::AwaitChunkLen,
                written: (old(self)@.written + n) as nat,
                ..old(self)@
            }),
    {
        proof {
            use_type_invariant(&*self);
        }
        let fits = !self.overrun && n as u64 <= self.left;
        let left = if fits {
            self.left - n as u64
        } else {
            0
        };
        *self = Restorer {
            state: RestoreState::AwaitChunkLen,
            expected: self.expected,
            left,
            overrun: !fits,
            written: Ghost((self.written@ + n) as nat),
        };
    }

    /// Hands the machine the header that the caller parsed from the bytes
    /// which the header frame released.
    pub fn accept_header(&mut self, header: &VaultHeader) -> (r: Result<(), SdkError>)
        ensures
            final(self)@ == accept(old(self)@, header.version, header.total_size).0,
            r == accept(old(self)@, header.version, header.total_size).1,
    {
        proof {
            use_type_invariant(&*self);
        }
        match self.state {
            RestoreState::AwaitHeader => {},
            _ => {
                self.state = RestoreState::Failed;
                return Err(SdkError::InvalidState);
            },
        }
        if header.version != FORMAT_VERSION {
            self.state = RestoreState::Failed;
            return Err(SdkError::UnsupportedVersion(header.version));
        }
        *self = Restorer::at_chunks(header.total_size);
        Ok(())
    }
}

} // verus!
