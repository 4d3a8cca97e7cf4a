//! How an attachment is fetched from another device.
use crate::crypto;
use crate::crypto::{fresh_nonce, CryptoError, CryptoState};
use crate::storage::{FilePath, FilePathView, StorageManager};
use crate::tables::copy_bytes;
use crate::text;
use crate::text::from_utf8_lossy;
use crate::wire;
use crate::wire::{sealed_message, MessageKind, Received};
use vstd::prelude::*;
use vstd::utf8::*;

verus! {

broadcast use vstd::seq_lib::group_seq_properties;

/// The message that asks for an attachment. Nothing comes back only where the
/// machine gives no random bytes, or the name is too long to be sealed.
pub fn file_request(crypto: &CryptoState, name: &str) -> (r: Result<Vec<u8>, CryptoError>)
    requires
        crypto.wf(),
    ensures
        match r {
            Ok(m) => wire::opens_to(
                crypto@,
                wire::kind_bytes(MessageKind::FileRequest),
                m@,
                encode_utf8(name@),
            ),
            Err(CryptoError::Cipher) => encode_utf8(name@).len() > crypto::MAX_PLAIN,
            Err(e) => e == CryptoError::NoRandomness,
        },
{
    sealed_message(crypto, MessageKind::FileRequest, name.as_bytes())
}

/// The name of the attachment that is being sent.
pub fn file_name(name: &[u8]) -> (r: String)
    ensures
        r@ == text::utf8_lossy(name@),
{
    from_utf8_lossy(name)
}

/// What sealed chunks open to, up to the first that does not open.
pub open spec fn received(key: Seq<u8>, chunks: Seq<Seq<u8>>) -> Seq<u8>
    decreases chunks.len(),
{
    if chunks.len() == 0 {
        Seq::empty()
    } else {
        match crypto::decrypted(key, chunks[0]) {
            Ok(data) => data + received(key, chunks.skip(1)),
            Err(_) => Seq::empty(),
        }
    }
}

/// The attachment as far as it has been received.
pub struct FileBuffer {
    data: Vec<u8>,
}

impl View for FileBuffer {
    type V = Seq<u8>;

    closed spec fn view(&self) -> Seq<u8> {
        self.data@
    }
}

/// What has been received after a chunk was opened or not, and whether it was.
pub open spec fn extended(so_far: Seq<u8>, opened: Result<Seq<u8>, CryptoError>) -> (Seq<u8>, bool) {
    match opened {
        Ok(data) => (so_far + data, true),
        Err(_) => (so_far, false),
    }
}

impl FileBuffer {
    /// Nothing has been received yet.
    pub fn new() -> (r: FileBuffer)
        ensures
            r@ == Seq::<u8>::empty(),
    {
        let r = FileBuffer { data: Vec::new() };
        assert(r@ =~= Seq::<u8>::empty());
        r
    }

    /// Takes what a chunk opened to. Says whether it did; the rest of the file
    /// is given up otherwise.
    pub fn take(&mut self, opened: Result<Vec<u8>, CryptoError>) -> (r: bool)
        ensures
            r == (opened is Ok),
            final(self)@ == match crypto::bytes_result(opened) {
                Ok(data) => old(self)@ + data,
                Err(_) => old(self)@,
            },
            (final(self)@, r) == extended(old(self)@, crypto::bytes_result(opened)),
    {
        match opened {
            Ok(data) => {
                self.data.extend_from_slice(data.as_slice());
                assert(self@ =~= old(self)@ + data@);
                true
            },
            Err(_) => false,
        }
    }

    /// Takes a sealed chunk. Says whether it could be opened.
    pub fn add_chunk(&mut self, crypto: &CryptoState, sealed: &[u8]) -> (r: bool)
        requires
            crypto.wf(),
        ensures
            r == (crypto::decrypted(crypto@, sealed@) is Ok),
            final(self)@ == match crypto::decrypted(crypto@, sealed@) {
                Ok(data) => old(self)@ + data,
                Err(_) => old(self)@,
            },
            (final(self)@, r) == extended(old(self)@, crypto::decrypted(crypto@, sealed@)),
    {
        self.take(crypto.decrypt(sealed))
    }

    /// How many bytes have been received.
    pub fn len(&self) -> (r: usize)
        ensures
            r == self@.len(),
    {
        self.data.len()
    }

    /// What has been received.
    pub fn bytes(&self) -> (r: &Vec<u8>)
        ensures
            r@ == self@,
    {
        &self.data
    }
}

/// A file to be written.
pub struct FileToWrite {
    pub path: FilePath,
    pub bytes: Vec<u8>,
}

/// The files to be written when an attachment has been received: the attachment
/// as it is, and sealed under a nonce. The sealed one is left out without a
/// nonce, or where the attachment is too long to be sealed.
pub fn files_of_download_with(
    crypto: &CryptoState,
    storage: &StorageManager,
    name: &str,
    data: &Vec<u8>,
    nonce: Option<Vec<u8>>,
) -> (r: Vec<FileToWrite>)
    requires
        crypto.wf(),
        nonce matches Some(n) ==> n@.len() == crypto::NONCE_LEN,
    ensures
        r@.len() == (if nonce is Some && data@.len() <= crypto::MAX_PLAIN {
            2int
        } else {
            1int
        }),
        r@[0].path@ == (FilePathView { dir: storage.attachments_dir@, name: name@ + ".png"@ }),
        r@[0].bytes@ == data@,
        r@.len() == 2 ==> r@[1].path@ == (FilePathView { dir: storage.attachments_dir@, name: name@ + ".enc"@ })
            && r@[1].bytes@ == crypto::sealed_with(crypto@, nonce->0@, data@) && crypto::decrypted(
            crypto@,
            r@[1].bytes@,
        ) == Ok::<Seq<u8>, CryptoError>(data@),
{
    let mut out: Vec<FileToWrite> = Vec::new();
    out.push(FileToWrite { path: storage.get_attachment_path(name), bytes: copy_bytes(data) });
    match nonce {
        Some(nonce) => match crypto.encrypt_with(nonce.as_slice(), data.as_slice()) {
            Ok(sealed) => {
                out.push(FileToWrite { path: storage.get_encrypted_attachment_path(name), bytes: sealed });
            },
            Err(_) => {},
        },
        None => {},
    }
    out
}

/// The files to be written when an attachment has been received: the attachment
/// as it is, and sealed. The sealed one is left out where the machine gives no
/// random bytes, or the attachment is too long to be sealed.
pub fn files_of_download(crypto: &CryptoState, storage: &StorageManager, name: &str, data: &Vec<u8>) -> (r: Vec<
    FileToWrite,
>)
    requires
        crypto.wf(),
    ensures
        1 <= r@.len() <= 2,
        r@[0].path@ == (FilePathView { dir: storage.attachments_dir@, name: name@ + ".png"@ }),
        r@[0].bytes@ == data@,
        r@.len() == 2 ==> r@[1].path@ == (FilePathView { dir: storage.attachments_dir@, name: name@ + ".enc"@ })
            && crypto::decrypted(crypto@, r@[1].bytes@) == Ok::<Seq<u8>, CryptoError>(data@),
        data@.len() > crypto::MAX_PLAIN ==> r@.len() == 1,
{
    files_of_download_with(crypto, storage, name, data, fresh_nonce())
}

// ---------------------------------------------------------------------------
// Laws
// ---------------------------------------------------------------------------

/// What has been received after a chunk more.
proof fn received_step(key: Seq<u8>, chunks: Seq<Seq<u8>>, sealed: Seq<u8>, data: Seq<u8>)
    requires
        forall|i: int| 0 <= i < chunks.len() ==> crypto::decrypted(key, #[trigger] chunks[i]) is Ok,
        crypto::decrypted(key, sealed) == Ok::<Seq<u8>, CryptoError>(data),
    ensures
        received(key, chunks.push(sealed)) == received(key, chunks) + data,
    decreases chunks.len(),
{
    let all = chunks.push(sealed);
    if chunks.len() == 0 {
        let none = Seq::<Seq<u8>>::empty();
        assert(all.skip(1) =~= none);
        assert(received(key, none) =~= Seq::<u8>::empty());
        assert(all[0] == sealed);
        assert(received(key, all) == data + received(key, all.skip(1)));
        assert(received(key, all) =~= data);
        assert(received(key, chunks) + data =~= data);
    } else {
        let rest = chunks.skip(1);
        assert forall|i: int| 0 <= i < rest.len() implies crypto::decrypted(key, #[trigger] rest[i]) is Ok by {
            assert(rest[i] == chunks[i + 1]);
        }
        received_step(key, rest, sealed, data);
        assert(all.skip(1) =~= rest.push(sealed));
        assert(crypto::decrypted(key, chunks[0]) is Ok);
        assert(received(key, all) =~= received(key, chunks) + data);
    }
}

/// A file whose chunks were sent and opened, each in its place, has been
/// received as it was.
pub proof fn sent_file_is_received(key: Seq<u8>, chunks: Seq<Seq<u8>>, data: Seq<u8>)
    requires
        chunks.len() == wire::chunk_count(data.len() as int),
        forall|i: int|
            0 <= i < chunks.len() ==> crypto::decrypted(key, #[trigger] chunks[i]) == Ok::<Seq<u8>, CryptoError>(
                wire::chunk_of(data, i),
            ),
    ensures
        received(key, chunks) == data,
{
    first_chunks_received(key, chunks, data, chunks.len() as int);
    assert(chunks.take(chunks.len() as int) =~= chunks);
    wire::chunks_make_up_the_file(data);
}

proof fn first_chunks_received(key: Seq<u8>, chunks: Seq<Seq<u8>>, data: Seq<u8>, n: int)
    requires
        0 <= n <= chunks.len(),
        forall|i: int|
            0 <= i < chunks.len() ==> crypto::decrypted(key, #[trigger] chunks[i]) == Ok::<Seq<u8>, CryptoError>(
                wire::chunk_of(data, i),
            ),
    ensures
        received(key, chunks.take(n)) == wire::chunks_joined(data, n),
    decreases n,
{
    if n > 0 {
        first_chunks_received(key, chunks, data, n - 1);
        let front = chunks.take(n - 1);
        assert forall|i: int| 0 <= i < front.len() implies crypto::decrypted(key, #[trigger] front[i]) is Ok by {
            assert(front[i] == chunks[i]);
        }
        received_step(key, front, chunks[n - 1], wire::chunk_of(data, n - 1));
        assert(chunks.take(n) =~= front.push(chunks[n - 1]));
    }
}

/// What sealed chunks open to ends with the first that does not open: those
/// behind it have no part in it.
pub proof fn receiving_ends_with_the_first_failure(key: Seq<u8>, chunks: Seq<Seq<u8>>, i: int)
    requires
        0 <= i < chunks.len(),
        crypto::decrypted(key, chunks[i]) is Err,
    ensures
        received(key, chunks) == received(key, chunks.take(i)),
    decreases i,
{
    if i == 0 {
        assert(chunks.take(0).len() == 0);
    } else {
        receiving_ends_with_the_first_failure(key, chunks.skip(1), i - 1);
        assert(chunks.skip(1).take(i - 1) =~= chunks.take(i).skip(1));
        assert(chunks.take(i)[0] == chunks[0]);
    }
}

/// A chunk that opens goes behind what has been received, whole, and says so; one
/// that does not leaves everything as it was.
pub proof fn opened_chunks_go_behind(so_far: Seq<u8>, opened: Result<Seq<u8>, CryptoError>)
    ensures
        opened matches Ok(data) ==> {
            &&& extended(so_far, opened).1
            &&& extended(so_far, opened).0.len() == so_far.len() + data.len()
            &&& extended(so_far, opened).0.take(so_far.len() as int) == so_far
            &&& extended(so_far, opened).0.skip(so_far.len() as int) == data
        },
        opened is Err ==> extended(so_far, opened) == (so_far, false),
{
    if opened is Ok {
        let after = extended(so_far, opened).0;
        assert(after.take(so_far.len() as int) =~= so_far);
        assert(after.skip(so_far.len() as int) =~= opened->Ok_0);
    }
}

/// A buffer that took chunks that all open, one after the other, holds what they
/// open to together after each of them.
pub proof fn buffers_hold_what_was_received(key: Seq<u8>, chunks: Seq<Seq<u8>>, sealed: Seq<u8>)
    requires
        forall|i: int| 0 <= i < chunks.len() ==> crypto::decrypted(key, #[trigger] chunks[i]) is Ok,
    ensures
        extended(received(key, chunks), crypto::decrypted(key, sealed)).0 == received(key, chunks.push(sealed)),
{
    match crypto::decrypted(key, sealed) {
        Ok(data) => {
            received_step(key, chunks, sealed, data);
        },
        Err(_) => {
            let all = chunks.push(sealed);
            receiving_ends_with_the_first_failure(key, all, chunks.len() as int);
            assert(all.take(chunks.len() as int) =~= chunks);
        },
    }
}

/// A new buffer is empty, and what a buffer holds can be counted and read.
pub proof fn buffers_show_what_they_hold(new: FileBuffer, b: FileBuffer, n: usize, bytes: Vec<u8>)
    requires
        call_ensures(FileBuffer::new, (), new),
        call_ensures(FileBuffer::len, (&b,), n),
        call_ensures(FileBuffer::bytes, (&b,), &bytes),
    ensures
        new@.len() == 0,
        n == b@.len(),
        bytes@ == b@,
{
}

/// A device that is asked for an attachment learns its name: the message is one
/// for a file, and its body opens to the name.
pub proof fn requests_name_the_attachment(
    asking: CryptoState,
    asked: CryptoState,
    name: &str,
    r: Result<Vec<u8>, CryptoError>,
    kind: &[u8],
    payload: &[u8],
    understood: Received,
)
    requires
        asking.wf(),
        asking@ == asked@,
        call_ensures(file_request, (&asking, name), r),
        r is Ok ==> r->Ok_0@.len() >= 12 && kind@ == r->Ok_0@.subrange(1, 8) && payload@ == r->Ok_0@.skip(12),
        call_ensures(wire::on_message, (&asked, kind, payload), understood),
    ensures
        r matches Ok(m) ==> m@[0] == 7,
        r is Ok ==> (understood matches Received::FileWanted(s) && s@ == name@),
        r matches Err(e) ==> e == CryptoError::NoRandomness || e == CryptoError::Cipher && encode_utf8(name@).len()
            > 274_877_906_816,
{
    if r is Ok {
        let m = r->Ok_0@;
        let body = encode_utf8(name@);
        wire::kinds_are_told_apart(MessageKind::FileRequest, MessageKind::FileRequest);
        reveal_strlit("BIN_REQ");
        let name_bytes = encode_utf8("BIN_REQ"@);
        let sealed = choose|sealed: Seq<u8>|
            sealed.len() == body.len() + 40 && #[trigger] wire::carries(
                asking@,
                wire::kind_bytes(MessageKind::FileRequest),
                m,
                sealed,
                body,
            );
        assert(m == seq![7u8] + name_bytes + wire::be32(sealed.len() as int) + sealed);
        assert(m.subrange(1, 8) =~= name_bytes);
        assert(m.skip(12) =~= sealed);
        wire::messages_are_understood(asked, kind, payload, body, name@, understood);
    }
}

/// A received attachment is written as it is, under its name and the ending of
/// a plain file. With a nonce it is written sealed too, as the sealed file, which
/// opens to it, unless it has more than 274877906816 bytes.
pub proof fn received_attachment_is_written(
    crypto: CryptoState,
    storage: StorageManager,
    name: &str,
    data: Vec<u8>,
    nonce: Option<Vec<u8>>,
    plain: FilePath,
    sealed: FilePath,
    r: Vec<FileToWrite>,
)
    requires
        crypto.wf(),
        nonce matches Some(n) ==> n@.len() == 24,
        call_ensures(StorageManager::get_attachment_path, (&storage, name), plain),
        call_ensures(StorageManager::get_encrypted_attachment_path, (&storage, name), sealed),
        call_ensures(files_of_download_with, (&crypto, &storage, name, &data, nonce), r),
    ensures
        r@.len() == 1 || r@.len() == 2,
        r@.len() == 2 <==> nonce is Some && data@.len() <= 274_877_906_816,
        r@[0].path@ == plain@,
        r@[0].bytes@ == data@,
        r@.len() == 2 ==> r@[1].path@ == sealed@,
        r@.len() == 2 ==> crypto::decrypted(crypto@, r@[1].bytes@) == Ok::<Seq<u8>, CryptoError>(data@),
        r@.len() == 2 ==> r@[1].bytes@.take(24) == nonce->0@,
{
    if r@.len() == 2 {
        assert(r@[1].bytes@.take(24) =~= nonce->0@);
    }
}

/// A received attachment is written as it is, and a second file, if there is
/// one, is the sealed one and opens to it.
pub proof fn received_attachment_is_written_somehow(
    crypto: CryptoState,
    storage: StorageManager,
    name: &str,
    data: Vec<u8>,
    plain: FilePath,
    sealed: FilePath,
    r: Vec<FileToWrite>,
)
    requires
        crypto.wf(),
        call_ensures(StorageManager::get_attachment_path, (&storage, name), plain),
        call_ensures(StorageManager::get_encrypted_attachment_path, (&storage, name), sealed),
        call_ensures(files_of_download, (&crypto, &storage, name, &data), r),
    ensures
        r@.len() == 1 || r@.len() == 2 && data@.len() <= 274_877_906_816,
        r@[0].path@ == plain@,
        r@[0].bytes@ == data@,
        r@.len() == 2 ==> r@[1].path@ == sealed@,
        r@.len() == 2 ==> crypto::decrypted(crypto@, r@[1].bytes@) == Ok::<Seq<u8>, CryptoError>(data@),
{
}

} // verus!
