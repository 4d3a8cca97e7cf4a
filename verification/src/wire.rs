//! What goes over a connection: messages in frames, and files in chunks.
use crate::crypto;
use crate::crypto::{CryptoError, CryptoState};
use crate::tables::{bytes_of, copy_bytes};
use crate::text;
use crate::text::{from_utf8, from_utf8_lossy, same_bytes};
use vstd::prelude::*;
use vstd::slice::slice_subrange;
use vstd::utf8::*;

verus! {

broadcast use vstd::seq_lib::group_seq_properties;

/// A longer message is not read.
pub const MAX_MESSAGE: u32 = 52_428_800;

/// A longer chunk is not read.
pub const MAX_CHUNK: u32 = 10_485_760;

/// A file is sent in chunks of this many bytes.
pub const CHUNK: usize = 65_536;

// ---------------------------------------------------------------------------
// Numbers
// ---------------------------------------------------------------------------

/// A number in four bytes, the highest first. Of a larger number only the lower
/// four bytes are kept.
pub open spec fn be32(n: int) -> Seq<u8> {
    seq![(n / 16777216 % 256) as u8, (n / 65536 % 256) as u8, (n / 256 % 256) as u8, (n % 256) as u8]
}

/// The number in four bytes.
pub open spec fn from_be32(b: Seq<u8>) -> int {
    16777216 * (b[0] as int) + 65536 * (b[1] as int) + 256 * (b[2] as int) + (b[3] as int)
}

/// A number that fits is read back.
pub proof fn be32_reads_back(n: int)
    requires
        0 <= n < 4294967296,
    ensures
        be32(n).len() == 4,
        from_be32(be32(n)) == n,
{
}

fn append_be32(out: &mut Vec<u8>, n: usize)
    ensures
        final(out)@ == old(out)@ + be32(n as int),
{
    let n = n as u64;
    out.push((n / 16777216 % 256) as u8);
    out.push((n / 65536 % 256) as u8);
    out.push((n / 256 % 256) as u8);
    out.push((n % 256) as u8);
    assert(out@ =~= old(out)@ + be32(n as int));
}

fn read_be32(b: &Vec<u8>) -> (r: u32)
    requires
        b@.len() == 4,
    ensures
        r == from_be32(b@),
{
    16777216 * (b[0] as u32) + 65536 * (b[1] as u32) + 256 * (b[2] as u32) + (b[3] as u32)
}

// ---------------------------------------------------------------------------
// Messages
// ---------------------------------------------------------------------------

/// A message: the length of its kind, its kind, the length of its payload, its
/// payload.
pub open spec fn framed(kind: Seq<u8>, payload: Seq<u8>) -> Seq<u8> {
    seq![kind.len() as u8] + kind + be32(payload.len() as int) + payload
}

/// A message as it is sent.
pub fn frame(kind: &[u8], payload: &[u8]) -> (r: Vec<u8>)
    requires
        kind@.len() < 256,
    ensures
        r@ == framed(kind@, payload@),
{
    let mut out: Vec<u8> = Vec::new();
    out.push(kind.len() as u8);
    out.extend_from_slice(kind);
    append_be32(&mut out, payload.len());
    out.extend_from_slice(payload);
    assert(out@ =~= framed(kind@, payload@));
    out
}

/// The kinds of messages.
pub open spec fn kind_bytes(kind: MessageKind) -> Seq<u8> {
    match kind {
        MessageKind::FileRequest => encode_utf8("BIN_REQ"@),
        MessageKind::File => encode_utf8("BIN_RES"@),
        MessageKind::SyncRequest => encode_utf8("SYNC_REQ"@),
        MessageKind::SyncResponse => encode_utf8("SYNC_RES"@),
    }
}

/// The kinds of messages.
#[derive(Debug, Clone, Copy, PartialEq, Eq, Structural)]
pub enum MessageKind {
    FileRequest,
    File,
    SyncRequest,
    SyncResponse,
}

proof fn kinds_are_short(kind: MessageKind)
    ensures
        kind_bytes(kind).len() < 256,
{
    reveal_strlit("BIN_REQ");
    reveal_strlit("BIN_RES");
    reveal_strlit("SYNC_REQ");
    reveal_strlit("SYNC_RES");
    assert(is_ascii_chars("BIN_REQ"@));
    assert(is_ascii_chars("BIN_RES"@));
    assert(is_ascii_chars("SYNC_REQ"@));
    assert(is_ascii_chars("SYNC_RES"@));
    is_ascii_chars_encode_utf8("BIN_REQ"@);
    is_ascii_chars_encode_utf8("BIN_RES"@);
    is_ascii_chars_encode_utf8("SYNC_REQ"@);
    is_ascii_chars_encode_utf8("SYNC_RES"@);
}

fn kind_slice(kind: MessageKind) -> (r: &'static [u8])
    ensures
        r@ == kind_bytes(kind),
        r@.len() < 256,
{
    proof {
        kinds_are_short(kind);
    }
    match kind {
        MessageKind::FileRequest => "BIN_REQ".as_bytes(),
        MessageKind::File => "BIN_RES".as_bytes(),
        MessageKind::SyncRequest => "SYNC_REQ".as_bytes(),
        MessageKind::SyncResponse => "SYNC_RES".as_bytes(),
    }
}

/// Whether a message holds a body that this key opens: sealed, the body is 40
/// bytes longer.
pub open spec fn opens_to(key: Seq<u8>, kind: Seq<u8>, message: Seq<u8>, body: Seq<u8>) -> bool {
    exists|sealed: Seq<u8>| sealed.len() == body.len() + 40 && #[trigger] carries(key, kind, message, sealed, body)
}

/// Whether a message holds a sealed body that this key opens.
pub open spec fn carries(key: Seq<u8>, kind: Seq<u8>, message: Seq<u8>, sealed: Seq<u8>, body: Seq<u8>) -> bool {
    message == framed(kind, sealed) && crypto::decrypted(key, sealed) == Ok::<Seq<u8>, CryptoError>(body)
}

/// A message with a sealed body. Nothing comes back only where the machine
/// gives no random bytes, or the body is too long to be sealed.
pub fn sealed_message(crypto: &CryptoState, kind: MessageKind, body: &[u8]) -> (r: Result<Vec<u8>, CryptoError>)
    requires
        crypto.wf(),
    ensures
        match r {
            Ok(m) => opens_to(crypto@, kind_bytes(kind), m@, body@),
            Err(CryptoError::Cipher) => body@.len() > crypto::MAX_PLAIN,
            Err(e) => e == CryptoError::NoRandomness,
        },
{
    match crypto.encrypt(body) {
        Ok(sealed) => {
            let m = frame(kind_slice(kind), sealed.as_slice());
            assert(carries(crypto@, kind_bytes(kind), m@, sealed@, body@));
            Ok(m)
        },
        Err(e) => Err(e),
    }
}

/// What a received message asks for.
pub enum Received {
    /// The attachment with this name is wanted.
    FileWanted(String),
    /// A peer wants to exchange events; the words of its request, if they are
    /// text.
    SyncWanted(Option<String>),
    /// A peer hands over events; its words, if they are text.
    Events(Option<String>),
    /// A clip of this type; the sealed payload is the clip.
    Clip(String),
    /// Nothing.
    Nothing,
}

/// What a received message stands for.
pub enum ReceivedView {
    FileWanted(Seq<char>),
    SyncWanted(Option<Seq<char>>),
    Events(Option<Seq<char>>),
    Clip(Seq<char>),
    Nothing,
}

impl View for Received {
    type V = ReceivedView;

    open spec fn view(&self) -> ReceivedView {
        match self {
            Received::FileWanted(s) => ReceivedView::FileWanted(s@),
            Received::SyncWanted(o) => ReceivedView::SyncWanted(crate::tables::opt_text(*o)),
            Received::Events(o) => ReceivedView::Events(crate::tables::opt_text(*o)),
            Received::Clip(s) => ReceivedView::Clip(s@),
            Received::Nothing => ReceivedView::Nothing,
        }
    }
}

/// The text that bytes encode, if they do.
pub open spec fn as_text(bytes: Seq<u8>) -> Option<Seq<char>> {
    if valid_utf8(bytes) {
        Some(decode_utf8(bytes))
    } else {
        None
    }
}

/// What a message asks for, given what its payload holds. What cannot be opened
/// asks for nothing, nor does a message of the old event protocol. A message of
/// any other kind is a clip of that type.
pub open spec fn asked(kind: Seq<u8>, body: Result<Seq<u8>, CryptoError>) -> ReceivedView {
    match body {
        Err(_) => ReceivedView::Nothing,
        Ok(data) => if kind == kind_bytes(MessageKind::FileRequest) {
            match as_text(data) {
                Some(name) => ReceivedView::FileWanted(name),
                None => ReceivedView::Nothing,
            }
        } else if kind == kind_bytes(MessageKind::SyncRequest) {
            ReceivedView::SyncWanted(as_text(data))
        } else if kind == kind_bytes(MessageKind::SyncResponse) {
            ReceivedView::Events(as_text(data))
        } else if kind == encode_utf8("EVENT"@) {
            ReceivedView::Nothing
        } else {
            ReceivedView::Clip(text::utf8_lossy(kind))
        },
    }
}

/// What a message asks for, given what its payload holds.
pub fn asks_for(kind: &[u8], body: Result<Vec<u8>, CryptoError>) -> (r: Received)
    ensures
        r@ == asked(kind@, crypto::bytes_result(body)),
{
    match body {
        Err(_) => Received::Nothing,
        Ok(data) => if same_bytes(kind, kind_slice(MessageKind::FileRequest)) {
            match from_utf8(data) {
                Some(name) => Received::FileWanted(name),
                None => Received::Nothing,
            }
        } else if same_bytes(kind, kind_slice(MessageKind::SyncRequest)) {
            Received::SyncWanted(from_utf8(data))
        } else if same_bytes(kind, kind_slice(MessageKind::SyncResponse)) {
            Received::Events(from_utf8(data))
        } else if same_bytes(kind, "EVENT".as_bytes()) {
            Received::Nothing
        } else {
            Received::Clip(from_utf8_lossy(kind))
        },
    }
}

/// What a received message asks for.
pub fn on_message(crypto: &CryptoState, kind: &[u8], payload: &[u8]) -> (r: Received)
    requires
        crypto.wf(),
    ensures
        r@ == asked(kind@, crypto::decrypted(crypto@, payload@)),
{
    asks_for(kind, crypto.decrypt(payload))
}

// ---------------------------------------------------------------------------
// Reading
// ---------------------------------------------------------------------------

/// Who reads from a connection.
#[derive(Debug, Clone, Copy, PartialEq, Eq, Structural)]
pub enum Role {
    /// The device that was connected to. It reads messages and files.
    Server,
    /// A device that asked for a file.
    Download,
    /// A device that asked for events.
    SyncClient,
}

/// What is to be read next.
#[derive(Debug, Clone, Copy, PartialEq, Eq, Structural)]
pub enum Phase {
    KindLength,
    Kind { length: usize },
    Length,
    Payload { length: usize },
    NameLength,
    Name { length: usize },
    ChunkLength,
    Chunk { length: usize },
    Done,
}

/// How far the reading of a connection is.
#[verifier::ext_equal]
pub struct ReaderView {
    pub role: Role,
    pub phase: Phase,
    pub kind: Seq<u8>,
    /// The chunks of the file that is being read.
    pub chunks: int,
    /// Those that have been read.
    pub read: int,
}

/// What came of a piece that was read.
pub enum StepView {
    /// There is more to read.
    More,
    /// A message is complete.
    Message { kind: Seq<u8>, payload: Seq<u8> },
    /// The file with this name follows.
    FileStart { name: Seq<u8> },
    /// A chunk of the file, by its number.
    FileChunk { index: int, sealed: Seq<u8> },
    /// The reading ends here.
    Stop,
}

/// What came of a piece that was read.
pub enum Step {
    More,
    Message { kind: Vec<u8>, payload: Vec<u8> },
    FileStart { name: Vec<u8> },
    FileChunk { index: u32, sealed: Vec<u8> },
    Stop,
}

impl View for Step {
    type V = StepView;

    open spec fn view(&self) -> StepView {
        match self {
            Step::More => StepView::More,
            Step::Message { kind, payload } => StepView::Message { kind: kind@, payload: payload@ },
            Step::FileStart { name } => StepView::FileStart { name: name@ },
            Step::FileChunk { index, sealed } => StepView::FileChunk { index: *index as int, sealed: sealed@ },
            Step::Stop => StepView::Stop,
        }
    }
}

/// How many bytes a phase takes.
pub open spec fn wanted_in(phase: Phase) -> int {
    match phase {
        Phase::KindLength => 1,
        Phase::Kind { length } => length as int,
        Phase::Length => 4,
        Phase::Payload { length } => length as int,
        Phase::NameLength => 4,
        Phase::Name { length } => length as int,
        Phase::ChunkLength => 4,
        Phase::Chunk { length } => length as int,
        Phase::Done => 0,
    }
}

impl ReaderView {
    /// The beginning of a connection.
    pub open spec fn start(role: Role) -> ReaderView {
        ReaderView { role, phase: Phase::KindLength, kind: Seq::empty(), chunks: 0, read: 0 }
    }

    /// Whether a reader goes on with a message of a kind.
    pub open spec fn accepts(role: Role, kind: Seq<u8>) -> bool {
        match role {
            Role::Server => true,
            Role::Download => kind == kind_bytes(MessageKind::File),
            Role::SyncClient => kind == kind_bytes(MessageKind::SyncResponse),
        }
    }

    /// Whether a reader goes on with a payload of a length.
    pub open spec fn admits(role: Role, length: int) -> bool {
        match role {
            Role::SyncClient => length < MAX_MESSAGE,
            _ => length <= MAX_MESSAGE,
        }
    }

    /// The reader at another phase.
    pub open spec fn at(self, phase: Phase) -> ReaderView {
        ReaderView { phase, ..self }
    }

    /// What comes of the next piece, which has the wanted length.
    pub open spec fn fed(self, bytes: Seq<u8>) -> (ReaderView, StepView) {
        match self.phase {
            Phase::KindLength => (self.at(Phase::Kind { length: bytes[0] as usize }), StepView::More),
            Phase::Kind { length } => {
                let next = ReaderView { kind: bytes, ..self };
                if Self::accepts(self.role, bytes) {
                    (next.at(Phase::Length), StepView::More)
                } else {
                    (next.at(Phase::Done), StepView::Stop)
                }
            },
            Phase::Length => {
                let n = from_be32(bytes);
                if self.kind == kind_bytes(MessageKind::File) {
                    (ReaderView { chunks: n, ..self }.at(Phase::NameLength), StepView::More)
                } else if Self::admits(self.role, n) {
                    (self.at(Phase::Payload { length: n as usize }), StepView::More)
                } else {
                    (self.at(Phase::Done), StepView::Stop)
                }
            },
            Phase::Payload { length } => (
                self.at(Phase::Done),
                StepView::Message { kind: self.kind, payload: bytes },
            ),
            Phase::NameLength => (self.at(Phase::Name { length: from_be32(bytes) as usize }), StepView::More),
            Phase::Name { length } => (
                if self.chunks == 0 {
                    self.at(Phase::Done)
                } else {
                    self.at(Phase::ChunkLength)
                },
                StepView::FileStart { name: bytes },
            ),
            Phase::ChunkLength => {
                let n = from_be32(bytes);
                if n <= MAX_CHUNK {
                    (self.at(Phase::Chunk { length: n as usize }), StepView::More)
                } else {
                    (self.at(Phase::Done), StepView::Stop)
                }
            },
            Phase::Chunk { length } => {
                let next = ReaderView { read: self.read + 1, ..self };
                (
                    if next.read == self.chunks {
                        next.at(Phase::Done)
                    } else {
                        next.at(Phase::ChunkLength)
                    },
                    StepView::FileChunk { index: self.read, sealed: bytes },
                )
            },
            Phase::Done => (self, StepView::Stop),
        }
    }
}

/// A reader of a connection: it says how many bytes it wants next, and is fed
/// with them.
pub struct FrameReader {
    role: Role,
    phase: Phase,
    kind: Vec<u8>,
    chunks: u32,
    read: u32,
}

impl View for FrameReader {
    type V = ReaderView;

    closed spec fn view(&self) -> ReaderView {
        ReaderView {
            role: self.role,
            phase: self.phase,
            kind: self.kind@,
            chunks: self.chunks as int,
            read: self.read as int,
        }
    }
}

impl FrameReader {
    /// While chunks are read there is one left to read.
    pub open spec fn wf(&self) -> bool {
        &&& 0 <= self@.read <= self@.chunks
        &&& self@.phase is Name ==> self@.read == 0
        &&& self@.phase is KindLength || self@.phase is Kind || self@.phase is Length || self@.phase is NameLength ==> self@.read
            == 0
        &&& self@.phase is ChunkLength || self@.phase is Chunk ==> self@.read < self@.chunks
    }

    /// A reader at the beginning of a connection.
    pub fn new(role: Role) -> (r: FrameReader)
        ensures
            r.wf(),
            r@ == ReaderView::start(role),
    {
        let r = FrameReader { role, phase: Phase::KindLength, kind: Vec::new(), chunks: 0, read: 0 };
        assert(r@.kind =~= Seq::empty());
        r
    }

    /// How many bytes are wanted next.
    pub fn wanted(&self) -> (r: usize)
        ensures
            r == wanted_in(self@.phase),
    {
        match self.phase {
            Phase::KindLength => 1,
            Phase::Kind { length } => length,
            Phase::Length => 4,
            Phase::Payload { length } => length,
            Phase::NameLength => 4,
            Phase::Name { length } => length,
            Phase::ChunkLength => 4,
            Phase::Chunk { length } => length,
            Phase::Done => 0,
        }
    }

    /// Whether nothing more is to be read.
    pub fn is_done(&self) -> (r: bool)
        ensures
            r == (self@.phase == Phase::Done),
    {
        match self.phase {
            Phase::Done => true,
            _ => false,
        }
    }

    /// How many chunks the file that is being read has.
    pub fn chunks(&self) -> (r: u32)
        ensures
            r == self@.chunks,
    {
        self.chunks
    }

    /// Takes the wanted bytes.
    pub fn feed(&mut self, bytes: Vec<u8>) -> (r: Step)
        requires
            old(self).wf(),
            bytes@.len() == wanted_in(old(self)@.phase),
        ensures
            final(self).wf(),
            (final(self)@, r@) == old(self)@.fed(bytes@),
    {
        match self.phase {
            Phase::KindLength => {
                self.phase = Phase::Kind { length: bytes[0] as usize };
                Step::More
            },
            Phase::Kind { .. } => {
                let accepted = match self.role {
                    Role::Server => true,
                    Role::Download => same_bytes(bytes.as_slice(), kind_slice(MessageKind::File)),
                    Role::SyncClient => same_bytes(bytes.as_slice(), kind_slice(MessageKind::SyncResponse)),
                };
                self.kind = bytes;
                if accepted {
                    self.phase = Phase::Length;
                    Step::More
                } else {
                    self.phase = Phase::Done;
                    Step::Stop
                }
            },
            Phase::Length => {
                let n = read_be32(&bytes);
                if same_bytes(self.kind.as_slice(), kind_slice(MessageKind::File)) {
                    self.chunks = n;
                    self.phase = Phase::NameLength;
                    return Step::More;
                }
                let admitted = match self.role {
                    Role::SyncClient => n < MAX_MESSAGE,
                    _ => n <= MAX_MESSAGE,
                };
                if admitted {
                    self.phase = Phase::Payload { length: n as usize };
                    Step::More
                } else {
                    self.phase = Phase::Done;
                    Step::Stop
                }
            },
            Phase::Payload { .. } => {
                self.phase = Phase::Done;
                Step::Message { kind: copy_bytes(&self.kind), payload: bytes }
            },
            Phase::NameLength => {
                let n = read_be32(&bytes);
                self.phase = Phase::Name { length: n as usize };
                Step::More
            },
            Phase::Name { .. } => {
                self.phase = if self.chunks == 0 {
                    Phase::Done
                } else {
                    Phase::ChunkLength
                };
                Step::FileStart { name: bytes }
            },
            Phase::ChunkLength => {
                let n = read_be32(&bytes);
                if n <= MAX_CHUNK {
                    self.phase = Phase::Chunk { length: n as usize };
                    Step::More
                } else {
                    self.phase = Phase::Done;
                    Step::Stop
                }
            },
            Phase::Chunk { .. } => {
                let index = self.read;
                self.read = self.read + 1;
                self.phase = if self.read == self.chunks {
                    Phase::Done
                } else {
                    Phase::ChunkLength
                };
                Step::FileChunk { index, sealed: bytes }
            },
            Phase::Done => Step::Stop,
        }
    }
}

// ---------------------------------------------------------------------------
// Files
// ---------------------------------------------------------------------------

/// How many chunks a file of a size has.
pub open spec fn chunk_count(size: int) -> int {
    (size + CHUNK - 1) / (CHUNK as int)
}

/// A chunk of a file, by its number.
pub open spec fn chunk_of(data: Seq<u8>, i: int) -> Seq<u8> {
    let from = i * CHUNK;
    let to = if from + CHUNK <= data.len() {
        from + CHUNK
    } else {
        data.len() as int
    };
    data.subrange(from, to)
}

/// The first chunks of a file put together.
pub open spec fn chunks_joined(data: Seq<u8>, n: int) -> Seq<u8>
    decreases n,
{
    if n <= 0 {
        Seq::empty()
    } else {
        chunks_joined(data, n - 1) + chunk_of(data, n - 1)
    }
}

/// The chunks of a file put together are the file; none is empty, and none is
/// longer than a chunk may be.
pub proof fn chunks_make_up_the_file(data: Seq<u8>)
    ensures
        chunks_joined(data, chunk_count(data.len() as int)) == data,
        forall|i: int| 0 <= i < chunk_count(data.len() as int) ==> 0 < (#[trigger] chunk_of(data, i)).len() <= CHUNK,
{
    let n = chunk_count(data.len() as int);
    assert forall|i: int| 0 <= i < n implies 0 < (#[trigger] chunk_of(data, i)).len() <= CHUNK by {
        assert(i * CHUNK < data.len());
    }
    first_chunks(data, n);
    assert(data.take(data.len() as int) =~= data);
}

proof fn first_chunks(data: Seq<u8>, n: int)
    requires
        0 <= n <= chunk_count(data.len() as int),
    ensures
        chunks_joined(data, n) == data.take(
            if n * CHUNK <= data.len() {
                n * CHUNK
            } else {
                data.len() as int
            },
        ),
    decreases n,
{
    if n > 0 {
        first_chunks(data, n - 1);
        assert((n - 1) * CHUNK < data.len());
        assert(chunks_joined(data, n) =~= data.take(
            if n * CHUNK <= data.len() {
                n * CHUNK
            } else {
                data.len() as int
            },
        ));
    } else {
        assert(data.take(0) =~= Seq::empty());
    }
}

/// How many chunks a file of a size has.
pub fn count_chunks(size: usize) -> (r: usize)
    ensures
        r == chunk_count(size as int),
{
    if size % CHUNK == 0 {
        size / CHUNK
    } else {
        size / CHUNK + 1
    }
}

/// A chunk of a file, by its number.
pub fn chunk(data: &Vec<u8>, i: usize) -> (r: Vec<u8>)
    requires
        i < chunk_count(data@.len() as int),
    ensures
        r@ == chunk_of(data@, i as int),
{
    let size = data.len();
    assert(i * CHUNK < size);
    let from: usize = i * CHUNK;
    let to: usize = if size - from >= CHUNK {
        from + CHUNK
    } else {
        size
    };
    bytes_of(slice_subrange(data.as_slice(), from, to))
}

/// What precedes the chunks of a file: the kind of the message, how many chunks
/// there are, and the name of the file.
pub open spec fn file_head(name: Seq<char>, size: int) -> Seq<u8> {
    seq![kind_bytes(MessageKind::File).len() as u8] + kind_bytes(MessageKind::File) + be32(chunk_count(size)) + be32(
        encode_utf8(name).len() as int,
    ) + encode_utf8(name)
}

/// What precedes the chunks of a file.
pub fn file_header(name: &str, size: usize) -> (r: Vec<u8>)
    ensures
        r@ == file_head(name@, size as int),
{
    let kind = kind_slice(MessageKind::File);
    let bytes = name.as_bytes();
    let mut out: Vec<u8> = Vec::new();
    out.push(kind.len() as u8);
    out.extend_from_slice(kind);
    append_be32(&mut out, count_chunks(size));
    append_be32(&mut out, bytes.len());
    out.extend_from_slice(bytes);
    assert(out@ =~= file_head(name@, size as int));
    out
}

/// Whether a packet holds data that this key opens: sealed, they are 40 bytes
/// longer.
pub open spec fn packet_of(key: Seq<u8>, packet: Seq<u8>, data: Seq<u8>) -> bool {
    exists|sealed: Seq<u8>| sealed.len() == data.len() + 40 && #[trigger] packs(key, packet, sealed, data)
}

/// Whether a packet holds sealed data that this key opens.
pub open spec fn packs(key: Seq<u8>, packet: Seq<u8>, sealed: Seq<u8>, data: Seq<u8>) -> bool {
    packet == be32(sealed.len() as int) + sealed && crypto::decrypted(key, sealed) == Ok::<Seq<u8>, CryptoError>(data)
}

/// Sealed data as they are sent, with their length before them.
pub fn packet(sealed: &[u8]) -> (r: Vec<u8>)
    ensures
        r@ == be32(sealed@.len() as int) + sealed@,
{
    let mut out: Vec<u8> = Vec::new();
    append_be32(&mut out, sealed.len());
    out.extend_from_slice(sealed);
    assert(out@ =~= be32(sealed@.len() as int) + sealed@);
    out
}

/// A chunk of a file as it is sent: sealed, with its length before it.
pub fn chunk_packet(crypto: &CryptoState, data: &Vec<u8>, i: usize) -> (r: Result<Vec<u8>, CryptoError>)
    requires
        crypto.wf(),
        i < chunk_count(data@.len() as int),
    ensures
        match r {
            Ok(p) => packet_of(crypto@, p@, chunk_of(data@, i as int)),
            Err(e) => e == CryptoError::NoRandomness,
        },
{
    let part = chunk(data, i);
    proof {
        chunks_make_up_the_file(data@);
        assert(0 < chunk_of(data@, i as int).len() <= CHUNK);
    }
    match crypto.encrypt(part.as_slice()) {
        Ok(sealed) => {
            let out = packet(sealed.as_slice());
            assert(packs(crypto@, out@, sealed@, part@));
            Ok(out)
        },
        Err(e) => Err(e),
    }
}

// ---------------------------------------------------------------------------
// Laws
// ---------------------------------------------------------------------------

/// A message is read back by the device that was connected to: the reader wants
/// the four pieces of the frame one after the other, and then has the kind and
/// the payload.
pub proof fn message_is_read_back(kind: Seq<u8>, payload: Seq<u8>)
    requires
        kind.len() < 256,
        kind != kind_bytes(MessageKind::File),
        payload.len() <= MAX_MESSAGE,
    ensures
        ({
            let f = framed(kind, payload);
            let k = kind.len() as int;
            let r0 = ReaderView::start(Role::Server);
            let (r1, s1) = r0.fed(f.subrange(0, 1));
            let (r2, s2) = r1.fed(f.subrange(1, k + 1));
            let (r3, s3) = r2.fed(f.subrange(k + 1, k + 5));
            let (r4, s4) = r3.fed(f.subrange(k + 5, f.len() as int));
            &&& wanted_in(r0.phase) == 1 && wanted_in(r1.phase) == k && wanted_in(r2.phase) == 4
            &&& wanted_in(r3.phase) == f.len() - k - 5
            &&& s1 is More && s2 is More && s3 is More
            &&& s4 == (StepView::Message { kind, payload })
            &&& r4.phase == Phase::Done
        }),
{
    let f = framed(kind, payload);
    let k = kind.len() as int;
    assert(f.subrange(0, 1) =~= seq![kind.len() as u8]);
    assert(f.subrange(1, k + 1) =~= kind);
    assert(f.subrange(k + 1, k + 5) =~= be32(payload.len() as int));
    assert(f.subrange(k + 5, f.len() as int) =~= payload);
    be32_reads_back(payload.len() as int);
}

/// The answer to a request for events is read back by the device that asked, if
/// it is shorter than the longest message.
pub proof fn response_is_read_back(payload: Seq<u8>)
    requires
        payload.len() < MAX_MESSAGE,
    ensures
        ({
            let kind = kind_bytes(MessageKind::SyncResponse);
            let f = framed(kind, payload);
            let k = kind.len() as int;
            let r1 = ReaderView::start(Role::SyncClient).fed(f.subrange(0, 1)).0;
            let r2 = r1.fed(f.subrange(1, k + 1)).0;
            let r3 = r2.fed(f.subrange(k + 1, k + 5)).0;
            r3.fed(f.subrange(k + 5, f.len() as int)).1 == (StepView::Message { kind, payload })
        }),
{
    let kind = kind_bytes(MessageKind::SyncResponse);
    let f = framed(kind, payload);
    let k = kind.len() as int;
    kinds_are_short(MessageKind::SyncResponse);
    assert(f.subrange(0, 1) =~= seq![kind.len() as u8]);
    assert(f.subrange(1, k + 1) =~= kind);
    assert(f.subrange(k + 1, k + 5) =~= be32(payload.len() as int));
    assert(f.subrange(k + 5, f.len() as int) =~= payload);
    be32_reads_back(payload.len() as int);
    reveal_strlit("SYNC_RES");
    reveal_strlit("BIN_RES");
    assert(is_ascii_chars("SYNC_RES"@));
    assert(is_ascii_chars("BIN_RES"@));
    is_ascii_chars_encode_utf8("SYNC_RES"@);
    is_ascii_chars_encode_utf8("BIN_RES"@);
    assert(kind.len() != kind_bytes(MessageKind::File).len());
}

/// What precedes a file is read back by the device that asked for it, and by
/// one that was connected to: the name, and how many chunks follow.
pub proof fn file_header_is_read_back(role: Role, name: Seq<char>, size: int)
    requires
        role != Role::SyncClient,
        0 <= size,
        chunk_count(size) < 4294967296,
        encode_utf8(name).len() < 4294967296,
        encode_utf8(name).len() <= usize::MAX,
    ensures
        ({
            let h = file_head(name, size);
            let k = kind_bytes(MessageKind::File).len() as int;
            let r1 = ReaderView::start(role).fed(h.subrange(0, 1)).0;
            let r2 = r1.fed(h.subrange(1, k + 1)).0;
            let r3 = r2.fed(h.subrange(k + 1, k + 5)).0;
            let r4 = r3.fed(h.subrange(k + 5, k + 9)).0;
            let (r5, s5) = r4.fed(h.subrange(k + 9, h.len() as int));
            &&& wanted_in(r4.phase) == h.len() - k - 9
            &&& s5 == (StepView::FileStart { name: encode_utf8(name) })
            &&& r5.chunks == chunk_count(size)
            &&& r5.phase == (if size == 0 {
                Phase::Done
            } else {
                Phase::ChunkLength
            })
        }),
{
    let h = file_head(name, size);
    let kind = kind_bytes(MessageKind::File);
    let k = kind.len() as int;
    kinds_are_short(MessageKind::File);
    assert(h.subrange(0, 1) =~= seq![kind.len() as u8]);
    assert(h.subrange(1, k + 1) =~= kind);
    assert(h.subrange(k + 1, k + 5) =~= be32(chunk_count(size)));
    assert(h.subrange(k + 5, k + 9) =~= be32(encode_utf8(name).len() as int));
    assert(h.subrange(k + 9, h.len() as int) =~= encode_utf8(name));
    be32_reads_back(chunk_count(size));
    be32_reads_back(encode_utf8(name).len() as int);
}

/// A chunk that was sent is read back, and opens to the chunk of the file.
pub proof fn chunk_is_read_back(r: ReaderView, key: Seq<u8>, packet: Seq<u8>, data: Seq<u8>, i: int)
    requires
        r.phase == Phase::ChunkLength,
        0 <= i < chunk_count(data.len() as int),
        packet_of(key, packet, chunk_of(data, i)),
    ensures
        ({
            let (r1, s1) = r.fed(packet.subrange(0, 4));
            let (r2, s2) = r1.fed(packet.subrange(4, packet.len() as int));
            &&& s1 is More
            &&& wanted_in(r1.phase) == packet.len() - 4
            &&& s2 matches StepView::FileChunk { index, sealed }
            &&& index == r.read
            &&& crypto::decrypted(key, sealed) == Ok::<Seq<u8>, CryptoError>(chunk_of(data, i))
            &&& r2.read == r.read + 1
        }),
{
    let sealed = choose|sealed: Seq<u8>|
        sealed.len() == chunk_of(data, i).len() + 40 && #[trigger] packs(key, packet, sealed, chunk_of(data, i));
    chunks_make_up_the_file(data);
    assert(chunk_of(data, i).len() <= CHUNK);
    be32_reads_back(sealed.len() as int);
    assert(packet.subrange(0, 4) =~= be32(sealed.len() as int));
    assert(packet.subrange(4, packet.len() as int) =~= sealed);
}

/// The number that four bytes at a place stand for, the highest byte first.
pub open spec fn number_at(bytes: Seq<u8>, at: int) -> int {
    ((bytes[at] * 256 + bytes[at + 1]) * 256 + bytes[at + 2]) * 256 + bytes[at + 3]
}

/// A number below 2^32 stands in its four bytes.
proof fn numbers_stand_in_four_bytes(n: int)
    requires
        0 <= n < 4294967296,
    ensures
        be32(n).len() == 4,
        number_at(be32(n), 0) == n,
{
}

/// The names of the kinds of messages.
pub open spec fn kind_text(kind: MessageKind) -> Seq<char> {
    match kind {
        MessageKind::FileRequest => "BIN_REQ"@,
        MessageKind::File => "BIN_RES"@,
        MessageKind::SyncRequest => "SYNC_REQ"@,
        MessageKind::SyncResponse => "SYNC_RES"@,
    }
}

/// No two kinds of messages have one name, nor is one called as the messages of
/// the old event protocol were.
pub proof fn kinds_are_told_apart(a: MessageKind, b: MessageKind)
    ensures
        kind_bytes(a) == encode_utf8(kind_text(a)),
        encode_utf8(kind_text(a)).len() == kind_text(a).len() < 256,
        a != b ==> encode_utf8(kind_text(a)) != encode_utf8(kind_text(b)),
        encode_utf8(kind_text(a)) != encode_utf8("EVENT"@),
{
    reveal_strlit("BIN_REQ");
    reveal_strlit("BIN_RES");
    reveal_strlit("SYNC_REQ");
    reveal_strlit("SYNC_RES");
    reveal_strlit("EVENT");
    assert(is_ascii_chars("BIN_REQ"@) && is_ascii_chars("BIN_RES"@) && is_ascii_chars("SYNC_REQ"@) && is_ascii_chars(
        "SYNC_RES"@,
    ) && is_ascii_chars("EVENT"@));
    is_ascii_chars_encode_utf8("BIN_REQ"@);
    is_ascii_chars_encode_utf8("BIN_RES"@);
    is_ascii_chars_encode_utf8("SYNC_REQ"@);
    is_ascii_chars_encode_utf8("SYNC_RES"@);
    is_ascii_chars_encode_utf8("EVENT"@);
    assert(encode_utf8("BIN_REQ"@)[4] != encode_utf8("BIN_RES"@)[4] || encode_utf8("BIN_REQ"@)[6] != encode_utf8(
        "BIN_RES"@,
    )[6]);
    assert(encode_utf8("SYNC_REQ"@)[7] != encode_utf8("SYNC_RES"@)[7]);
}

/// A message starts with the length of its kind in one byte, then the kind, then
/// the length of the payload in four, then the payload, whole.
pub proof fn frames_hold_kind_and_payload(kind: &[u8], payload: &[u8], r: Vec<u8>)
    requires
        kind@.len() < 256,
        call_ensures(frame, (kind, payload), r),
    ensures
        r@.len() == kind@.len() + payload@.len() + 5,
        r@[0] == kind@.len(),
        r@.subrange(1, kind@.len() as int + 1) == kind@,
        payload@.len() < 4294967296 ==> number_at(r@, kind@.len() as int + 1) == payload@.len(),
        r@.skip(kind@.len() as int + 5) == payload@,
{
    let k = kind@.len() as int;
    let n = payload@.len() as int;
    assert(be32(n).len() == 4);
    assert(r@.subrange(1, k + 1) =~= kind@);
    assert(r@.subrange(k + 1, k + 5) =~= be32(n));
    assert(r@.skip(k + 5) =~= payload@);
    if n < 4294967296 {
        numbers_stand_in_four_bytes(n);
        assert(r@[k + 1] == be32(n)[0] && r@[k + 2] == be32(n)[1] && r@[k + 3] == be32(n)[2] && r@[k + 4] == be32(n)[3]);
    }
}

/// A sealed message has the name of its kind in front, and what follows its head
/// opens to the body. Only a body of more than 274877906816 bytes, or a machine
/// without random bytes, keeps it from being made.
pub proof fn sealed_messages_open_to_their_body(
    crypto: CryptoState,
    kind: MessageKind,
    body: &[u8],
    r: Result<Vec<u8>, CryptoError>,
)
    requires
        crypto.wf(),
        call_ensures(sealed_message, (&crypto, kind, body), r),
    ensures
        r matches Ok(m) ==> {
            let k = kind_text(kind).len() as int;
            &&& m@.len() == body@.len() + k + 45
            &&& m@[0] == k
            &&& m@.subrange(1, k + 1) == encode_utf8(kind_text(kind))
            &&& body@.len() + 40 < 4294967296 ==> number_at(m@, k + 1) == body@.len() + 40
            &&& crypto::decrypted(crypto@, m@.skip(k + 5)) == Ok::<Seq<u8>, CryptoError>(body@)
        },
        r matches Err(e) ==> e == CryptoError::NoRandomness || e == CryptoError::Cipher && body@.len()
            > 274_877_906_816,
{
    kinds_are_told_apart(kind, kind);
    if r is Ok {
        let m = r->Ok_0@;
        let name = encode_utf8(kind_text(kind));
        let k = name.len() as int;
        let sealed = choose|sealed: Seq<u8>|
            sealed.len() == body@.len() + 40 && #[trigger] carries(crypto@, kind_bytes(kind), m, sealed, body@);
        let n = sealed.len() as int;
        assert(be32(n).len() == 4);
        assert(m == seq![k as u8] + name + be32(n) + sealed);
        assert(m.subrange(1, k + 1) =~= name);
        assert(m.skip(k + 5) =~= sealed);
        if n < 4294967296 {
            numbers_stand_in_four_bytes(n);
            assert(m[k + 1] == be32(n)[0] && m[k + 2] == be32(n)[1] && m[k + 3] == be32(n)[2] && m[k + 4] == be32(n)[3]);
        }
    }
}

/// A received message asks for what the device that sent it wrote: a file by its
/// name, an exchange or the events by their words. One that cannot be opened asks
/// for nothing, nor does one of the old event protocol, and any other kind is the
/// type of a clip.
pub proof fn messages_are_understood(crypto: CryptoState, kind: &[u8], payload: &[u8], body: Seq<u8>, words: Seq<char>, r: Received)
    requires
        crypto.wf(),
        call_ensures(on_message, (&crypto, kind, payload), r),
        crypto::decrypted(crypto@, payload@) is Ok ==> crypto::decrypted(crypto@, payload@)->Ok_0 == body,
    ensures
        crypto::decrypted(crypto@, payload@) is Err ==> r is Nothing,
        crypto::decrypted(crypto@, payload@) is Ok ==> {
            &&& kind@ == encode_utf8("BIN_REQ"@) && body == encode_utf8(words) ==> (r matches Received::FileWanted(s) && s@
                == words)
            &&& kind@ == encode_utf8("BIN_REQ"@) && !valid_utf8(body) ==> r is Nothing
            &&& kind@ == encode_utf8("SYNC_REQ"@) && body == encode_utf8(words) ==> (r matches Received::SyncWanted(o)
                && o is Some && o->0@ == words)
            &&& kind@ == encode_utf8("SYNC_REQ"@) && !valid_utf8(body) ==> (r matches Received::SyncWanted(o) && o is None)
            &&& kind@ == encode_utf8("SYNC_RES"@) && body == encode_utf8(words) ==> (r matches Received::Events(o) && o is Some
                && o->0@ == words)
            &&& kind@ == encode_utf8("SYNC_RES"@) && !valid_utf8(body) ==> (r matches Received::Events(o) && o is None)
            &&& kind@ == encode_utf8("EVENT"@) ==> r is Nothing
            &&& kind@ != encode_utf8("BIN_REQ"@) && kind@ != encode_utf8("SYNC_REQ"@) && kind@ != encode_utf8("SYNC_RES"@)
                && kind@ != encode_utf8("EVENT"@) ==> (r matches Received::Clip(s) && s@ == text::utf8_lossy(kind@))
        },
{
    kinds_are_told_apart(MessageKind::FileRequest, MessageKind::SyncRequest);
    kinds_are_told_apart(MessageKind::SyncRequest, MessageKind::SyncResponse);
    kinds_are_told_apart(MessageKind::SyncResponse, MessageKind::FileRequest);
    encode_utf8_valid_utf8(words);
    encode_utf8_decode_utf8(words);
}

/// A message asks for the same whether its payload is opened on the way or was
/// opened before.
pub proof fn opened_messages_are_understood(
    crypto: CryptoState,
    kind: &[u8],
    payload: &[u8],
    body: Result<Vec<u8>, CryptoError>,
    r: Received,
    q: Received,
)
    requires
        crypto.wf(),
        call_ensures(CryptoState::decrypt, (&crypto, payload), body),
        call_ensures(on_message, (&crypto, kind, payload), r),
        call_ensures(asks_for, (kind, body), q),
    ensures
        r@ == q@,
{
}

/// A reader starts with the length of a kind, in one byte, and wants as many
/// bytes next. The device that was connected to goes on with every kind, one that
/// asked for a file only with a file, one that asked for events only with events.
pub proof fn readers_know_what_they_asked_for(role: Role, r: FrameReader, length: Seq<u8>, kind: Seq<u8>)
    requires
        call_ensures(FrameReader::new, (role,), r),
        length.len() == 1,
        kind.len() == length[0],
    ensures
        ({
            let (r1, s1) = r@.fed(length);
            let (r2, s2) = r1.fed(kind);
            let goes_on = match role {
                Role::Server => true,
                Role::Download => kind == encode_utf8("BIN_RES"@),
                Role::SyncClient => kind == encode_utf8("SYNC_RES"@),
            };
            &&& wanted_in(r@.phase) == 1 && s1 is More && wanted_in(r1.phase) == kind.len()
            &&& goes_on ==> s2 is More && wanted_in(r2.phase) == 4 && r2.phase == Phase::Length
            &&& !goes_on ==> s2 is Stop && r2.phase == Phase::Done
            &&& r2.kind == kind && r2.role == role && r2.chunks == 0 && r2.read == 0
        }),
{
}

/// The four bytes behind a kind are the length of the payload. A payload of up
/// to 52428800 bytes is read whole, by the device that asked for events only a
/// shorter one; a longer one ends the reading. After the payload the message is
/// complete.
pub proof fn long_messages_are_not_read(r: ReaderView, length: Seq<u8>, payload: Seq<u8>)
    requires
        r.phase == Phase::Length,
        r.kind != encode_utf8("BIN_RES"@),
        length.len() == 4,
        payload.len() == number_at(length, 0),
        number_at(length, 0) <= usize::MAX,
    ensures
        ({
            let n = number_at(length, 0);
            let (r1, s1) = r.fed(length);
            let (r2, s2) = r1.fed(payload);
            let read = n < 52_428_800 || n == 52_428_800 && r.role != Role::SyncClient;
            &&& read ==> s1 is More && wanted_in(r1.phase) == n && s2 == (StepView::Message { kind: r.kind, payload })
            &&& read ==> r2.phase == Phase::Done
            &&& !read ==> s1 is Stop && r1.phase == Phase::Done
        }),
{
}

/// Behind the kind of a file stand how many chunks it has, the length of its
/// name and its name. The name comes out as it is, and a file without chunks is
/// complete then.
pub proof fn files_start_with_their_name(r: ReaderView, chunks: Seq<u8>, length: Seq<u8>, name: Seq<u8>)
    requires
        r.phase == Phase::Length,
        r.kind == encode_utf8("BIN_RES"@),
        chunks.len() == 4,
        length.len() == 4,
        name.len() == number_at(length, 0),
        number_at(length, 0) <= usize::MAX,
    ensures
        ({
            let (r1, s1) = r.fed(chunks);
            let (r2, s2) = r1.fed(length);
            let (r3, s3) = r2.fed(name);
            &&& s1 is More && wanted_in(r1.phase) == 4
            &&& s2 is More && wanted_in(r2.phase) == name.len()
            &&& s3 == (StepView::FileStart { name })
            &&& r3.chunks == number_at(chunks, 0) && r3.read == r.read
            &&& number_at(chunks, 0) == 0 ==> r3.phase == Phase::Done
            &&& number_at(chunks, 0) != 0 ==> r3.phase == Phase::ChunkLength && wanted_in(r3.phase) == 4
        }),
{
}

/// A chunk of up to 10485760 bytes is read whole and comes out under its number,
/// counted from the first; a longer one ends the reading. The last chunk completes
/// the file, and no other does.
pub proof fn long_chunks_are_not_read(r: ReaderView, length: Seq<u8>, sealed: Seq<u8>)
    requires
        r.phase == Phase::ChunkLength,
        length.len() == 4,
        sealed.len() == number_at(length, 0),
        number_at(length, 0) <= usize::MAX,
    ensures
        ({
            let n = number_at(length, 0);
            let (r1, s1) = r.fed(length);
            let (r2, s2) = r1.fed(sealed);
            &&& n > 10_485_760 ==> s1 is Stop && r1.phase == Phase::Done
            &&& n <= 10_485_760 ==> {
                &&& s1 is More && wanted_in(r1.phase) == n
                &&& s2 == (StepView::FileChunk { index: r.read, sealed })
                &&& r2.read == r.read + 1 && r2.chunks == r.chunks && r2.kind == r.kind && r2.role == r.role
                &&& r.read + 1 == r.chunks ==> r2.phase == Phase::Done
                &&& r.read + 1 != r.chunks ==> r2.phase == Phase::ChunkLength
            }
        }),
{
}

/// A reader that is done wants nothing and stays so; one that is not says how
/// many bytes it wants, and how many chunks the file has.
pub proof fn done_readers_want_nothing(r: FrameReader, bytes: Seq<u8>, wanted: usize, done: bool, chunks: u32)
    requires
        call_ensures(FrameReader::wanted, (&r,), wanted),
        call_ensures(FrameReader::is_done, (&r,), done),
        call_ensures(FrameReader::chunks, (&r,), chunks),
    ensures
        done <==> r@.phase == Phase::Done,
        done ==> wanted == 0 && r@.fed(bytes) == (r@, StepView::Stop),
        chunks == r@.chunks,
        wanted == wanted_in(r@.phase),
        r@.phase is KindLength ==> wanted == 1,
        r@.phase is Length || r@.phase is NameLength || r@.phase is ChunkLength ==> wanted == 4,
        r@.phase matches Phase::Kind { length } ==> wanted == length,
        r@.phase matches Phase::Name { length } ==> wanted == length,
        r@.phase matches Phase::Payload { length } ==> wanted == length,
        r@.phase matches Phase::Chunk { length } ==> wanted == length,
{
}

/// A file has as few chunks of 65536 bytes as hold it.
pub proof fn files_have_as_few_chunks_as_hold_them(size: usize, r: usize)
    requires
        call_ensures(count_chunks, (size,), r),
    ensures
        size <= 65_536 * r,
        r > 0 ==> 65_536 * (r - 1) < size,
{
}

/// A chunk holds the bytes of the file from 65536 times its number on: 65536 of
/// them, or as many as are left.
pub proof fn chunks_hold_the_bytes_in_order(data: Vec<u8>, count: usize, i: usize, r: Vec<u8>, k: int)
    requires
        call_ensures(count_chunks, (data.len(),), count),
        i < count,
        call_ensures(chunk, (&data, i), r),
    ensures
        i + 1 < count ==> r@.len() == 65_536,
        i + 1 == count ==> r@.len() == data@.len() - 65_536 * i,
        0 < r@.len() <= 65_536,
        0 <= k < r@.len() ==> r@[k] == data@[65_536 * i + k],
{
}

/// The head of a file holds the name of its kind, how many chunks of 65536 bytes
/// follow, and the name of the file with its length.
pub proof fn file_heads_hold_count_and_name(name: &str, size: usize, count: usize, r: Vec<u8>)
    requires
        call_ensures(file_header, (name, size), r),
        call_ensures(count_chunks, (size,), count),
    ensures
        r@.len() == 16 + encode_utf8(name@).len(),
        r@[0] == 7,
        r@.subrange(1, 8) == encode_utf8("BIN_RES"@),
        count < 4294967296 ==> number_at(r@, 8) == count,
        encode_utf8(name@).len() < 4294967296 ==> number_at(r@, 12) == encode_utf8(name@).len(),
        r@.skip(16) == encode_utf8(name@),
{
    kinds_are_told_apart(MessageKind::File, MessageKind::File);
    reveal_strlit("BIN_RES");
    let kind = encode_utf8("BIN_RES"@);
    let written = encode_utf8(name@);
    let a = be32(count as int);
    let b = be32(written.len() as int);
    assert(kind.len() == 7 && a.len() == 4 && b.len() == 4);
    assert(r@ == seq![7u8] + kind + a + b + written);
    assert(r@.subrange(1, 8) =~= kind);
    assert(r@.skip(16) =~= written);
    if count < 4294967296 {
        numbers_stand_in_four_bytes(count as int);
        assert(r@[8] == a[0] && r@[9] == a[1] && r@[10] == a[2] && r@[11] == a[3]);
    }
    if written.len() < 4294967296 {
        numbers_stand_in_four_bytes(written.len() as int);
        assert(r@[12] == b[0] && r@[13] == b[1] && r@[14] == b[2] && r@[15] == b[3]);
    }
}

/// Sealed data go with their length in four bytes in front, and are whole.
pub proof fn packets_hold_sealed_data(sealed: &[u8], r: Vec<u8>)
    requires
        call_ensures(packet, (sealed,), r),
    ensures
        r@.len() == sealed@.len() + 4,
        sealed@.len() < 4294967296 ==> number_at(r@, 0) == sealed@.len(),
        r@.skip(4) == sealed@,
{
    let n = sealed@.len() as int;
    assert(be32(n).len() == 4);
    assert(r@.skip(4) =~= sealed@);
    if n < 4294967296 {
        numbers_stand_in_four_bytes(n);
        assert(r@[0] == be32(n)[0] && r@[1] == be32(n)[1] && r@[2] == be32(n)[2] && r@[3] == be32(n)[3]);
    }
}

/// A chunk goes sealed, forty bytes longer, with its length in front, and what
/// follows opens to the chunk. Only a machine without random bytes keeps it from
/// being sent.
pub proof fn chunk_packets_open_to_their_chunk(
    crypto: CryptoState,
    data: Vec<u8>,
    count: usize,
    i: usize,
    part: Vec<u8>,
    r: Result<Vec<u8>, CryptoError>,
)
    requires
        crypto.wf(),
        call_ensures(count_chunks, (data.len(),), count),
        i < count,
        call_ensures(chunk, (&data, i), part),
        call_ensures(chunk_packet, (&crypto, &data, i), r),
    ensures
        r matches Ok(p) ==> {
            &&& p@.len() == part@.len() + 44
            &&& number_at(p@, 0) == part@.len() + 40
            &&& crypto::decrypted(crypto@, p@.skip(4)) == Ok::<Seq<u8>, CryptoError>(part@)
        },
        r matches Err(e) ==> e == CryptoError::NoRandomness,
{
    if r is Ok {
        let p = r->Ok_0@;
        let sealed = choose|sealed: Seq<u8>|
            sealed.len() == part@.len() + 40 && #[trigger] packs(crypto@, p, sealed, part@);
        let n = sealed.len() as int;
        chunks_hold_the_bytes_in_order(data, count, i, part, 0);
        numbers_stand_in_four_bytes(n);
        assert(p.skip(4) =~= sealed);
        assert(p[0] == be32(n)[0] && p[1] == be32(n)[1] && p[2] == be32(n)[2] && p[3] == be32(n)[3]);
    }
}

} // verus!
