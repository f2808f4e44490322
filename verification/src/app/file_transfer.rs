//! File metadata exchanged before a transfer, its binary form, and the integrity check of a
//! received file.
//!
//! Wire form of the metadata: the name's UTF-8 length (4 bytes, big-endian), the name, the
//! size (8 bytes, big-endian) and the SHA-256 digest (32 bytes).
use crate::config::FileTransferConfig;
use crate::crypto::{sha256, sha256_of};
use crate::encoding::{hex_decode, hex_decoded};
use crate::protocols::message::{field_value, Message};
use crate::text::{decimal, parse_unsigned, parse_unsigned_range, push_str, str_chars, string_from_utf8, u64_to_decimal};
use std::collections::HashMap;
use crate::wire::{be32, be64, get_be32, get_be64, lemma_be32_roundtrip, lemma_be64_roundtrip, push_all, push_be32, push_be64, read_be32, read_be64};
use vstd::prelude::*;
use vstd::utf8::{decode_utf8, encode_utf8, encode_utf8_decode_utf8, encode_utf8_valid_utf8, valid_utf8};

verus! {

/// What the peer learns of a file before it is sent.
#[derive(Debug, Clone, PartialEq)]
pub struct FileMetadata {
    pub name: String,
    pub size: u64,
    pub sha256: [u8; 32],
}

/// A file received completely.
#[derive(Debug, Clone)]
pub struct ReceivedFile {
    pub metadata: FileMetadata,
    pub data: Vec<u8>,
}

/// What happens to a transfer, as reported to the application.
#[derive(Debug)]
pub enum FileTransferEvent {
    /// The peer offers a file.
    IncomingOffer { stream_id: u16, metadata: FileMetadata },
    /// A download has started.
    Downloading { stream_id: u16, metadata: FileMetadata },
    /// A file has been received completely.
    Completed { stream_id: u16, file: ReceivedFile },
    /// The transfer was refused.
    Rejected { stream_id: u16, reason: String },
}

/// The wire form of metadata with the given name, size and digest. The name's length field
/// holds the low 32 bits of its UTF-8 length.
pub open spec fn metadata_bytes(name: Seq<char>, size: u64, digest: Seq<u8>) -> Seq<u8> {
    let nb = encode_utf8(name);
    be32(nb.len() as u32) + nb + be64(size) + digest
}

/// The name, size and digest that `buf` holds, or `None` when it is too short for the fixed
/// fields, too short for the announced name, or the name is not valid UTF-8.
pub open spec fn metadata_parse(buf: Seq<u8>) -> Option<(Seq<char>, u64, Seq<u8>)> {
    if buf.len() < 44 {
        None
    } else {
        let nl = get_be32(buf, 0) as int;
        if buf.len() < 44 + nl {
            None
        } else if !valid_utf8(buf.subrange(4, 4 + nl)) {
            None
        } else {
            Some(
                (
                    decode_utf8(buf.subrange(4, 4 + nl)),
                    get_be64(buf, 4 + nl),
                    buf.subrange(12 + nl, 44 + nl),
                ),
            )
        }
    }
}

impl FileMetadata {
    /// Metadata of a file named `file_name` with contents `data`; the name is `None` when it
    /// could not be taken from the file's path.
    pub fn from_file(file_name: Option<&str>, data: &[u8]) -> (r: Result<Self, String>)
        ensures
            file_name is None <==> r is Err,
            r matches Ok(m) ==> {
                &&& m.name@ == file_name->0@
                &&& m.size == data@.len()
                &&& m.sha256@ == sha256_of(data@)
            },
    {
        match file_name {
            None => Err(String::from_str("No se pudo extraer nombre del archivo")),
            Some(n) => {
                let digest = sha256(data);
                Ok(FileMetadata { name: String::from_str(n), size: data.len() as u64, sha256: digest })
            },
        }
    }

    /// The wire form of this metadata.
    pub fn to_bytes(&self) -> (b: Vec<u8>)
        ensures
            b@ == metadata_bytes(self.name@, self.size, self.sha256@),
    {
        let name_bytes = self.name.as_str().as_bytes();
        let name_len = name_bytes.len() as u32;
        let mut buf: Vec<u8> = Vec::new();
        push_be32(&mut buf, name_len);
        push_all(&mut buf, name_bytes);
        push_be64(&mut buf, self.size);
        push_all(&mut buf, &self.sha256);
        buf
    }

    /// Reads metadata from its wire form; bytes after the digest are ignored.
    pub fn from_bytes(buf: &[u8]) -> (r: Result<Self, String>)
        ensures
            metadata_parse(buf@) is None <==> r is Err,
            r matches Ok(m) ==> metadata_parse(buf@) == Some((m.name@, m.size, m.sha256@)),
    {
        let len = buf.len();
        if len < 44 {
            return Err(String::from_str("Buffer too short for metadata"));
        }
        let name_len = read_be32(buf, 0) as usize;
        if len - 44 < name_len {
            return Err(String::from_str("Buffer too short for name"));
        }
        let name = match string_from_utf8(&buf[4..4 + name_len]) {
            Some(s) => s,
            None => {
                return Err(String::from_str("Invalid UTF-8 in name"));
            },
        };
        let size_offset = 4 + name_len;
        let size = read_be64(buf, size_offset);
        let sha_offset = size_offset + 8;
        let mut digest = [0u8; 32];
        let mut i: usize = 0;
        while i < 32
            invariant
                len == buf@.len(),
                sha_offset + 32 <= len,
                i <= 32,
                forall|j: int| 0 <= j < i ==> digest@[j] == buf@[sha_offset + j],
            decreases 32 - i,
        {
            digest[i] = buf[sha_offset + i];
            i += 1;
        }
        assert(digest@ =~= buf@.subrange(sha_offset as int, sha_offset + 32));
        Ok(FileMetadata { name, size, sha256: digest })
    }
}

/// Law: reading the wire form of metadata gives the metadata back, whenever the name's
/// UTF-8 form fits the 32-bit length field.
pub proof fn lemma_metadata_roundtrip(name: Seq<char>, size: u64, digest: Seq<u8>)
    requires
        encode_utf8(name).len() <= u32::MAX,
        digest.len() == 32,
    ensures
        metadata_parse(metadata_bytes(name, size, digest)) == Some((name, size, digest)),
{
    let nb = encode_utf8(name);
    let nl = nb.len() as int;
    let b = metadata_bytes(name, size, digest);
    assert(b.len() == 44 + nl);
    assert(b.subrange(0, 4) =~= be32(nl as u32));
    lemma_be32_roundtrip(nl as u32, b, 0);
    assert(b.subrange(4, 4 + nl) =~= nb);
    assert(b.subrange(4 + nl, 12 + nl) =~= be64(size));
    lemma_be64_roundtrip(size, b, 4 + nl);
    assert(b.subrange(12 + nl, 44 + nl) =~= digest);
    encode_utf8_valid_utf8(name);
    encode_utf8_decode_utf8(name);
}

impl ReceivedFile {
    /// Whether the SHA-256 of the received data matches the digest announced in the metadata.
    pub fn verify_integrity(&self) -> (ok: bool)
        ensures
            ok == (sha256_of(self.data@) == self.metadata.sha256@),
    {
        let computed = sha256(self.data.as_slice());
        let mut i: usize = 0;
        while i < 32
            invariant
                computed@ == sha256_of(self.data@),
                i <= 32,
                forall|j: int| 0 <= j < i ==> computed@[j] == self.metadata.sha256@[j],
            decreases 32 - i,
        {
            if computed[i] != self.metadata.sha256[i] {
                return false;
            }
            i += 1;
        }
        assert(computed@ =~= self.metadata.sha256@);
        true
    }
}

/// The data channel of a file offer: the `stream_id` field read as a 16-bit number.
pub open spec fn offer_stream_id(fv: Seq<(Seq<char>, Seq<char>)>) -> Result<u16, Seq<char>> {
    match field_value(fv, "stream_id"@) {
        None => Err("OFFER_FILE sin stream_id"@),
        Some(sid) => match parse_unsigned(sid, 65535) {
            None => Err("stream_id inválido"@),
            Some(id) => Ok(id as u16),
        },
    }
}

/// The size of an offered file: the `file_size` field read as a 64-bit number.
pub open spec fn offer_size(fv: Seq<(Seq<char>, Seq<char>)>) -> Result<u64, Seq<char>> {
    match field_value(fv, "file_size"@) {
        None => Err("OFFER_FILE sin file_size"@),
        Some(fs) => match parse_unsigned(fs, u64::MAX as nat) {
            None => Err("file_size inválido"@),
            Some(size) => Ok(size as u64),
        },
    }
}

/// The digest of an offered file: the `file_sha256` field read as 32 bytes in hexadecimal.
pub open spec fn offer_digest(fv: Seq<(Seq<char>, Seq<char>)>) -> Result<Seq<u8>, Seq<char>> {
    match field_value(fv, "file_sha256"@) {
        None => Err("OFFER_FILE sin file_sha256"@),
        Some(h) => match hex_decoded(encode_utf8(h)) {
            None => Err("sha256 inválido"@),
            Some(b) => if b.len() != 32 {
                Err("sha256 len inválida"@)
            } else {
                Ok(b)
            },
        },
    }
}

/// The outcome of reading a file offer from the fields of an OFFER_FILE message: the data
/// channel, the name, the size and the digest, or the first problem found, checking in
/// this order the stream id, the name, the size and the digest.
pub open spec fn file_offer(fv: Seq<(Seq<char>, Seq<char>)>) -> Result<
    (u16, Seq<char>, u64, Seq<u8>),
    Seq<char>,
> {
    match offer_stream_id(fv) {
        Err(e) => Err(e),
        Ok(id) => match field_value(fv, "file_name"@) {
            None => Err("OFFER_FILE sin file_name"@),
            Some(name) => match offer_size(fv) {
                Err(e) => Err(e),
                Ok(size) => match offer_digest(fv) {
                    Err(e) => Err(e),
                    Ok(b) => Ok((id, name, size, b)),
                },
            },
        },
    }
}

/// Parses a whole text as an unsigned number of at most `max`.
fn parse_number(s: &String, max: u64) -> (r: Option<u64>)
    ensures
        match parse_unsigned(s@, max as nat) {
            Some(v) => r == Some(v as u64),
            None => r is None,
        },
{
    let cs = str_chars(s.as_str());
    assert(cs@.subrange(0, cs@.len() as int) =~= s@);
    parse_unsigned_range(&cs, 0, cs.len(), max)
}

/// The data channel of an offer.
fn stream_id_field(msg: &Message) -> (r: Result<u16, String>)
    ensures
        match offer_stream_id(msg.field_view()) {
            Ok(v) => r == Ok::<u16, String>(v),
            Err(e) => r matches Err(s) && s@ == e,
        },
{
    let sid = match msg.get("stream_id") {
        Some(s) => s,
        None => {
            return Err(String::from_str("OFFER_FILE sin stream_id"));
        },
    };
    match parse_number(sid, 65535) {
        Some(v) => Ok(v as u16),
        None => Err(String::from_str("stream_id inválido")),
    }
}

/// The size of an offered file.
fn size_field(msg: &Message) -> (r: Result<u64, String>)
    ensures
        match offer_size(msg.field_view()) {
            Ok(v) => r == Ok::<u64, String>(v),
            Err(e) => r matches Err(s) && s@ == e,
        },
{
    let fs = match msg.get("file_size") {
        Some(s) => s,
        None => {
            return Err(String::from_str("OFFER_FILE sin file_size"));
        },
    };
    match parse_number(fs, u64::MAX) {
        Some(v) => Ok(v),
        None => Err(String::from_str("file_size inválido")),
    }
}

/// The digest of an offered file.
fn digest_field(msg: &Message) -> (r: Result<[u8; 32], String>)
    ensures
        match offer_digest(msg.field_view()) {
            Ok(b) => r matches Ok(d) && d@ == b,
            Err(e) => r matches Err(s) && s@ == e,
        },
{
    let h = match msg.get("file_sha256") {
        Some(s) => s,
        None => {
            return Err(String::from_str("OFFER_FILE sin file_sha256"));
        },
    };
    let bytes = match hex_decode(h.as_str()) {
        Some(b) => b,
        None => {
            return Err(String::from_str("sha256 inválido"));
        },
    };
    if bytes.len() != 32 {
        return Err(String::from_str("sha256 len inválida"));
    }
    let mut digest = [0u8; 32];
    let mut i: usize = 0;
    while i < 32
        invariant
            bytes@.len() == 32,
            i <= 32,
            forall|j: int| 0 <= j < i ==> digest@[j] == bytes@[j],
        decreases 32 - i,
    {
        digest[i] = bytes[i];
        i += 1;
    }
    assert(digest@ =~= bytes@);
    Ok(digest)
}

/// Reads the data channel and the metadata of an offered file from an OFFER_FILE message.
pub fn offer_from_message(msg: &Message) -> (r: Result<(u16, FileMetadata), String>)
    ensures
        match file_offer(msg.field_view()) {
            Ok((id, name, size, digest)) => r matches Ok((i, m)) && i == id && m.name@ == name
                && m.size == size && m.sha256@ == digest,
            Err(e) => r matches Err(s) && s@ == e,
        },
{
    let stream_id = match stream_id_field(msg) {
        Ok(v) => v,
        Err(e) => {
            return Err(e);
        },
    };
    let name = match msg.get("file_name") {
        Some(s) => s.clone(),
        None => {
            return Err(String::from_str("OFFER_FILE sin file_name"));
        },
    };
    let size = match size_field(msg) {
        Ok(v) => v,
        Err(e) => {
            return Err(e);
        },
    };
    let sha256 = match digest_field(msg) {
        Ok(d) => d,
        Err(e) => {
            return Err(e);
        },
    };
    Ok((stream_id, FileMetadata { name, size, sha256 }))
}

/// The name, size and digest of a file's metadata.
pub open spec fn meta_view(m: FileMetadata) -> (Seq<char>, u64, Seq<u8>) {
    (m.name@, m.size, m.sha256@)
}

/// A copy of metadata.
fn copy_metadata(m: &FileMetadata) -> (r: FileMetadata)
    ensures
        meta_view(r) == meta_view(*m),
{
    FileMetadata { name: m.name.clone(), size: m.size, sha256: m.sha256 }
}

/// A download under way: the file's metadata and the bytes received so far.
pub struct DownloadState {
    pub metadata: FileMetadata,
    pub received_bytes: Vec<u8>,
}

/// An upload waiting for the peer's answer: the file, and how many of its chunks were sent.
pub struct UploadState {
    pub metadata: FileMetadata,
    pub data: Vec<u8>,
    pub chunks_sent: usize,
    pub total_chunks: usize,
}

/// The transfers a manager keeps track of, by data channel: files offered by the peer and
/// not yet answered, downloads (metadata and bytes so far) and uploads (metadata, data,
/// chunks sent, chunks in all).
#[verifier::ext_equal]
pub struct TransfersView {
    pub offers: Map<u16, (Seq<char>, u64, Seq<u8>)>,
    pub downloads: Map<u16, ((Seq<char>, u64, Seq<u8>), Seq<u8>)>,
    pub uploads: Map<u16, ((Seq<char>, u64, Seq<u8>), Seq<u8>, usize, usize)>,
}

/// The file transfers of a call, over data channels numbered by stream id. Opening,
/// writing and closing the channels is the caller's.
pub struct FileTransferManager {
    pub pending_offers: HashMap<u16, FileMetadata>,
    pub active_downloads: HashMap<u16, DownloadState>,
    pub active_uploads: HashMap<u16, UploadState>,
    pub config: FileTransferConfig,
}

impl View for FileTransferManager {
    type V = TransfersView;

    open spec fn view(&self) -> TransfersView {
        TransfersView {
            offers: self.pending_offers@.map_values(|m: FileMetadata| meta_view(m)),
            downloads: self.active_downloads@.map_values(
                |d: DownloadState| (meta_view(d.metadata), d.received_bytes@),
            ),
            uploads: self.active_uploads@.map_values(
                |u: UploadState| (meta_view(u.metadata), u.data@, u.chunks_sent, u.total_chunks),
            ),
        }
    }
}

/// The chunks of `d` from `off` on, `n` bytes each but the last.
pub open spec fn chunks_from(d: Seq<u8>, off: int, n: int) -> Seq<Seq<u8>>
    decreases d.len() - off,
{
    if n <= 0 || off < 0 || off >= d.len() {
        Seq::empty()
    } else {
        let end = if off + n < d.len() {
            off + n
        } else {
            d.len() as int
        };
        seq![d.subrange(off, end)] + chunks_from(d, end, n)
    }
}

/// Whether no download holds more bytes than its file's size.
pub open spec fn downloads_fit(v: TransfersView) -> bool {
    forall|id: u16|
        v.downloads.contains_key(id) ==> (#[trigger] v.downloads[id]).1.len() <= v.downloads[id].0.1 as usize
}

/// What a chunk `data` of file data on data channel `id` does, with chunks of at most
/// `limit` bytes taken and `check` telling whether received files are checked: without a
/// download there, nothing. Otherwise the download takes as much of the chunk as the file
/// still lacks (and `limit` allows); once it has the whole file it ends, and the file is
/// received, or, when checked and its digest differs, everything on that channel is
/// dropped (the third result).
pub open spec fn poll_step(v: TransfersView, id: u16, data: Seq<u8>, limit: int, check: bool) -> (
    TransfersView,
    Option<((Seq<char>, u64, Seq<u8>), Seq<u8>)>,
    bool,
) {
    if v.downloads.contains_key(id) {
        let d = v.downloads[id];
        let size = d.0.1 as usize as int;
        let remaining = size - d.1.len();
        let t0 = if data.len() < remaining {
            data.len() as int
        } else {
            remaining
        };
        let take = if limit < t0 {
            limit
        } else {
            t0
        };
        let got = d.1 + data.take(take);
        if got.len() >= size {
            if check && sha256_of(got) != d.0.2 {
                (
                    TransfersView {
                        offers: v.offers.remove(id),
                        downloads: v.downloads.remove(id),
                        uploads: v.uploads.remove(id),
                    },
                    None,
                    true,
                )
            } else {
                (TransfersView { downloads: v.downloads.remove(id), ..v }, Some((d.0, got)), false)
            }
        } else {
            (TransfersView { downloads: v.downloads.insert(id, (d.0, got)), ..v }, None, false)
        }
    } else {
        (v, None, false)
    }
}

/// The chunks of file data taken in order (see `poll_step`): the transfers after them,
/// the files received (channel, metadata, data) and the channels dropped.
pub open spec fn poll_fold(v: TransfersView, chunks: Seq<(u16, Seq<u8>)>, limit: int, check: bool) -> (
    TransfersView,
    Seq<(u16, (Seq<char>, u64, Seq<u8>), Seq<u8>)>,
    Seq<u16>,
)
    decreases chunks.len(),
{
    if chunks.len() == 0 {
        (v, Seq::empty(), Seq::empty())
    } else {
        let prev = poll_fold(v, chunks.drop_last(), limit, check);
        let id = chunks.last().0;
        let step = poll_step(prev.0, id, chunks.last().1, limit, check);
        (
            step.0,
            match step.1 {
                Some((m, got)) => prev.1.push((id, m, got)),
                None => prev.1,
            },
            if step.2 {
                prev.2.push(id)
            } else {
                prev.2
            },
        )
    }
}

/// Every file that the transfers report as received has exactly its announced size (as a
/// machine-size count), and, when files are checked, the SHA-256 digest announced in its
/// metadata; the downloads left never hold more than their file's size.
pub proof fn lemma_received_files_are_whole(v: TransfersView, chunks: Seq<(u16, Seq<u8>)>, limit: int, check: bool)
    requires
        downloads_fit(v),
        limit >= 0,
    ensures
        ({
            let f = poll_fold(v, chunks, limit, check);
            &&& downloads_fit(f.0)
            &&& forall|i: int|
                0 <= i < f.1.len() ==> {
                    &&& (#[trigger] f.1[i]).2.len() == f.1[i].1.1 as usize
                    &&& check ==> sha256_of(f.1[i].2) == f.1[i].1.2
                }
        }),
    decreases chunks.len(),
{
    if chunks.len() > 0 {
        lemma_received_files_are_whole(v, chunks.drop_last(), limit, check);
        let prev = poll_fold(v, chunks.drop_last(), limit, check);
        let id = chunks.last().0;
        let data = chunks.last().1;
        let step = poll_step(prev.0, id, data, limit, check);
        let f = poll_fold(v, chunks, limit, check);
        if prev.0.downloads.contains_key(id) {
            let d = prev.0.downloads[id];
            assert(d.1.len() <= d.0.1 as usize);
            let size = d.0.1 as usize as int;
            let remaining = size - d.1.len();
            let t0 = if data.len() < remaining {
                data.len() as int
            } else {
                remaining
            };
            let take = if limit < t0 {
                limit
            } else {
                t0
            };
            let got = d.1 + data.take(take);
            assert(got.len() <= size);
            if step.1 is Some {
                assert(step.1 == Some((d.0, got)));
                assert(got.len() == size);
                assert(f.1 == prev.1.push((id, d.0, got)));
                assert forall|i: int| 0 <= i < f.1.len() implies {
                    &&& (#[trigger] f.1[i]).2.len() == f.1[i].1.1 as usize
                    &&& check ==> sha256_of(f.1[i].2) == f.1[i].1.2
                } by {
                    if i < prev.1.len() {
                        assert(f.1[i] == prev.1[i]);
                    }
                }
            } else {
                assert(f.1 == prev.1);
            }
        } else {
            assert(f.1 == prev.1);
        }
        assert(downloads_fit(step.0)) by {
            assert forall|k: u16| step.0.downloads.contains_key(k) implies (#[trigger] step.0.downloads[k]).1.len()
                <= step.0.downloads[k].0.1 as usize by {
                if k != id {
                    assert(prev.0.downloads.contains_key(k));
                }
            }
        }
    }
}

/// The channel, metadata and data of a received file's event.
pub open spec fn completed_view(e: FileTransferEvent) -> (u16, (Seq<char>, u64, Seq<u8>), Seq<u8>) {
    match e {
        FileTransferEvent::Completed { stream_id, file } => (stream_id, meta_view(file.metadata), file.data@),
        _ => (0, (Seq::empty(), 0, Seq::empty()), Seq::empty()),
    }
}

/// The channel and bytes of each chunk of file data.
pub open spec fn chunk_views(chunks: Seq<(u16, Vec<u8>)>) -> Seq<(u16, Seq<u8>)> {
    chunks.map_values(|c: (u16, Vec<u8>)| (c.0, c.1@))
}

/// How many chunks of `n` bytes it takes to hold `len` bytes.
pub open spec fn chunk_count(len: int, n: int) -> usize {
    (len / n + if len % n == 0 {
        0int
    } else {
        1int
    }) as usize
}

/// The message refusing an upload beyond `max` at once.
pub open spec fn too_many_uploads_msg(max: usize) -> Seq<char> {
    "Máximo de uploads concurrentes alcanzado ("@ + decimal(max as nat) + ")"@
}

/// The message refusing a file of `len` bytes over the limit of `max_mb` MiB.
pub open spec fn too_large_msg(len: usize, max_mb: usize) -> Seq<char> {
    "Archivo demasiado grande: "@ + decimal((len as nat) / 1048576) + " MB (máximo: "@
        + decimal(max_mb as nat) + " MB)"@
}

impl FileTransferManager {
    /// No transfer yet, with the given limits.
    pub fn new(config: FileTransferConfig) -> (m: Self)
        ensures
            m@.offers.is_empty(),
            m@.downloads.is_empty(),
            m@.uploads.is_empty(),
            m.config == config,
    {
        let m = FileTransferManager {
            pending_offers: HashMap::new(),
            active_downloads: HashMap::new(),
            active_uploads: HashMap::new(),
            config,
        };
        assert(m@.offers =~= Map::empty());
        assert(m@.downloads =~= Map::empty());
        assert(m@.uploads =~= Map::empty());
        m
    }

    /// No transfer yet, with the default limits.
    pub fn new_with_defaults() -> (m: Self)
        ensures
            m@.offers.is_empty(),
            m@.downloads.is_empty(),
            m@.uploads.is_empty(),
            m.config.chunk_size_kb == 64,
            m.config.max_file_size_mb == 100,
            m.config.max_concurrent_uploads == 5,
            m.config.max_concurrent_downloads == 10,
            m.config.enable_integrity_check,
    {
        Self::new(FileTransferConfig::default())
    }

    /// The limits in force.
    pub fn config(&self) -> (c: &FileTransferConfig)
        ensures
            *c == self.config,
    {
        &self.config
    }

    /// The chunk size, in bytes.
    pub fn chunk_size_bytes(&self) -> (n: usize)
        requires
            self.config.chunk_size_kb * 1024 <= usize::MAX,
        ensures
            n == self.config.chunk_size_kb * 1024,
    {
        self.config.chunk_size_kb * 1024
    }

    /// How many downloads are under way.
    pub fn active_downloads_count(&self) -> (n: usize)
        ensures
            n == self@.downloads.len(),
    {
        assert(self@.downloads.dom() =~= self.active_downloads@.dom());
        self.active_downloads.len()
    }

    /// How many uploads wait for an answer.
    pub fn active_uploads_count(&self) -> (n: usize)
        ensures
            n == self@.uploads.len(),
    {
        assert(self@.uploads.dom() =~= self.active_uploads@.dom());
        self.active_uploads.len()
    }

    /// Why no upload can start now: as many as allowed are waiting for an answer.
    pub fn upload_limit_error(&self) -> (r: Option<String>)
        ensures
            self@.uploads.len() >= self.config.max_concurrent_uploads <==> r is Some,
            r matches Some(e) ==> e@ == too_many_uploads_msg(self.config.max_concurrent_uploads),
    {
        if self.active_uploads_count() >= self.config.max_concurrent_uploads {
            let mut e = String::from_str("Máximo de uploads concurrentes alcanzado (");
            let n = u64_to_decimal(self.config.max_concurrent_uploads as u64);
            push_str(&mut e, n.as_str());
            push_str(&mut e, ")");
            Some(e)
        } else {
            None
        }
    }

    /// The metadata of a file to upload, named `file_name` (none when the path has no
    /// usable name) with contents `data`: refused when it is larger than the limit.
    pub fn prepare_upload(&self, file_name: Option<&str>, data: &[u8]) -> (r: Result<FileMetadata, String>)
        requires
            self.config.max_file_size_mb * 1048576 <= usize::MAX,
        ensures
            data@.len() > self.config.max_file_size_mb * 1048576 ==> (r matches Err(e) && e@
                == too_large_msg(data@.len() as usize, self.config.max_file_size_mb)),
            data@.len() <= self.config.max_file_size_mb * 1048576 ==> {
                &&& file_name is None <==> r is Err
                &&& r matches Ok(m) ==> meta_view(m) == (file_name->0@, data@.len() as u64, sha256_of(data@))
            },
    {
        let max_size_bytes = self.config.max_file_size_mb * 1048576;
        if data.len() > max_size_bytes {
            let mut e = String::from_str("Archivo demasiado grande: ");
            let mb = u64_to_decimal((data.len() / 1048576) as u64);
            push_str(&mut e, mb.as_str());
            push_str(&mut e, " MB (máximo: ");
            let max = u64_to_decimal(self.config.max_file_size_mb as u64);
            push_str(&mut e, max.as_str());
            push_str(&mut e, " MB)");
            return Err(e);
        }
        FileMetadata::from_file(file_name, data)
    }

    /// Records an upload on data channel `stream_id`: none of its chunks sent yet.
    pub fn register_upload(&mut self, stream_id: u16, metadata: FileMetadata, data: Vec<u8>)
        requires
            0 < old(self).config.chunk_size_kb * 1024 <= usize::MAX,
        ensures
            final(self)@.uploads == old(self)@.uploads.insert(
                stream_id,
                (
                    meta_view(metadata),
                    data@,
                    0usize,
                    chunk_count(data@.len() as int, old(self).config.chunk_size_kb * 1024),
                ),
            ),
            final(self)@.offers == old(self)@.offers,
            final(self)@.downloads == old(self)@.downloads,
            final(self).config == old(self).config,
    {
        let chunk_size = self.chunk_size_bytes();
        let len = data.len();
        assert(len % chunk_size != 0 ==> len / chunk_size < usize::MAX) by (nonlinear_arith)
            requires
                chunk_size > 0,
        {
            if len % chunk_size != 0 {
                assert(chunk_size != 1);
                assert(len / chunk_size <= len / 2);
            }
        }
        let total_chunks = data.len() / chunk_size + if data.len() % chunk_size == 0 {
            0
        } else {
            1
        };
        let ghost v = (meta_view(metadata), data@, 0usize, total_chunks);
        self.active_uploads.insert(stream_id, UploadState { metadata, data, chunks_sent: 0, total_chunks });
        assert(self@.uploads =~= old(self)@.uploads.insert(stream_id, v));
        assert(self@.offers =~= old(self)@.offers);
        assert(self@.downloads =~= old(self)@.downloads);
    }

    /// An OFFER_FILE message of the peer: the offer is recorded on its data channel (a
    /// former offer there is replaced) and reported; a malformed one is refused (see
    /// `file_offer`).
    pub fn on_offer_file(&mut self, msg: Message) -> (r: Result<FileTransferEvent, String>)
        ensures
            match file_offer(msg.field_view()) {
                Ok((id, name, size, digest)) => {
                    &&& r matches Ok(FileTransferEvent::IncomingOffer { stream_id, metadata })
                        && stream_id == id && meta_view(metadata) == (name, size, digest)
                    &&& final(self)@.offers == old(self)@.offers.insert(id, (name, size, digest))
                },
                Err(e) => r matches Err(s) && s@ == e && final(self)@.offers == old(self)@.offers,
            },
            final(self)@.downloads == old(self)@.downloads,
            final(self)@.uploads == old(self)@.uploads,
            final(self).config == old(self).config,
    {
        match offer_from_message(&msg) {
            Ok((stream_id, metadata)) => {
                let kept = copy_metadata(&metadata);
                let ghost v = meta_view(metadata);
                self.pending_offers.insert(stream_id, kept);
                assert(self@.offers =~= old(self)@.offers.insert(stream_id, v));
                assert(self@.downloads =~= old(self)@.downloads);
                assert(self@.uploads =~= old(self)@.uploads);
                Ok(FileTransferEvent::IncomingOffer { stream_id, metadata })
            },
            Err(e) => Err(e),
        }
    }

    /// The metadata of the upload on data channel `stream_id`, if there is one.
    pub fn get_upload_metadata(&self, stream_id: u16) -> (r: Option<FileMetadata>)
        ensures
            self@.uploads.contains_key(stream_id) ==> (r matches Some(m) && meta_view(m)
                == self@.uploads[stream_id].0),
            !self@.uploads.contains_key(stream_id) ==> r is None,
    {
        match self.active_uploads.get(&stream_id) {
            Some(u) => Some(copy_metadata(&u.metadata)),
            None => None,
        }
    }

    /// The metadata of the download on data channel `stream_id`, if there is one.
    pub fn get_download_metadata(&self, stream_id: u16) -> (r: Option<FileMetadata>)
        ensures
            self@.downloads.contains_key(stream_id) ==> (r matches Some(m) && meta_view(m)
                == self@.downloads[stream_id].0),
            !self@.downloads.contains_key(stream_id) ==> r is None,
    {
        match self.active_downloads.get(&stream_id) {
            Some(d) => Some(copy_metadata(&d.metadata)),
            None => None,
        }
    }

    /// Accepts the peer's offer on data channel `stream_id`: it becomes a download with no
    /// bytes yet. Without such an offer nothing changes.
    pub fn accept(&mut self, stream_id: u16)
        ensures
            old(self)@.offers.contains_key(stream_id) ==> {
                &&& final(self)@.offers == old(self)@.offers.remove(stream_id)
                &&& final(self)@.downloads == old(self)@.downloads.insert(
                    stream_id,
                    (old(self)@.offers[stream_id], Seq::empty()),
                )
            },
            !old(self)@.offers.contains_key(stream_id) ==> final(self)@.offers == old(self)@.offers
                && final(self)@.downloads == old(self)@.downloads,
            final(self)@.uploads == old(self)@.uploads,
            final(self).config == old(self).config,
    {
        match self.pending_offers.remove(&stream_id) {
            Some(metadata) => {
                let ghost v = (meta_view(metadata), Seq::<u8>::empty());
                self.active_downloads.insert(stream_id, DownloadState { metadata, received_bytes: Vec::new() });
                assert(self@.offers =~= old(self)@.offers.remove(stream_id));
                assert(self@.downloads =~= old(self)@.downloads.insert(stream_id, v));
            },
            None => {
                assert(self@.offers =~= old(self)@.offers);
            },
        }
        assert(self@.uploads =~= old(self)@.uploads);
    }

    /// Drops whatever runs on data channel `stream_id`: the offer, the download and the
    /// upload. Closing the channel is the caller's.
    pub fn reject(&mut self, stream_id: u16)
        ensures
            final(self)@.offers == old(self)@.offers.remove(stream_id),
            final(self)@.downloads == old(self)@.downloads.remove(stream_id),
            final(self)@.uploads == old(self)@.uploads.remove(stream_id),
            final(self).config == old(self).config,
    {
        self.pending_offers.remove(&stream_id);
        self.active_downloads.remove(&stream_id);
        self.active_uploads.remove(&stream_id);
        assert(self@.offers =~= old(self)@.offers.remove(stream_id));
        assert(self@.downloads =~= old(self)@.downloads.remove(stream_id));
        assert(self@.uploads =~= old(self)@.uploads.remove(stream_id));
    }

    /// Drops every transfer. Closing the channels is the caller's.
    pub fn shutdown(&mut self)
        ensures
            final(self)@.offers.is_empty(),
            final(self)@.downloads.is_empty(),
            final(self)@.uploads.is_empty(),
            final(self).config == old(self).config,
    {
        self.pending_offers.clear();
        self.active_downloads.clear();
        self.active_uploads.clear();
        assert(self@.offers =~= Map::empty());
        assert(self@.downloads =~= Map::empty());
        assert(self@.uploads =~= Map::empty());
    }

    /// The peer accepted the upload on data channel `stream_id`: its chunks, in order, to
    /// write on the channel; the upload is no longer tracked. Refused when there is no
    /// such upload.
    pub fn on_accept_file(&mut self, stream_id: u16) -> (r: Result<Vec<Vec<u8>>, String>)
        requires
            0 < old(self).config.chunk_size_kb * 1024 <= usize::MAX,
        ensures
            old(self)@.uploads.contains_key(stream_id) ==> {
                &&& r matches Ok(chunks) && chunks@.map_values(|c: Vec<u8>| c@) == chunks_from(
                    old(self)@.uploads[stream_id].1,
                    0,
                    old(self).config.chunk_size_kb * 1024,
                )
                &&& final(self)@.uploads == old(self)@.uploads.remove(stream_id)
            },
            !old(self)@.uploads.contains_key(stream_id) ==> (r matches Err(e) && e@
                == "Upload no encontrado"@ && final(self)@.uploads == old(self)@.uploads),
            final(self)@.offers == old(self)@.offers,
            final(self)@.downloads == old(self)@.downloads,
            final(self).config == old(self).config,
    {
        let n = self.chunk_size_bytes();
        match self.active_uploads.remove(&stream_id) {
            None => {
                assert(self@.uploads =~= old(self)@.uploads);
                assert(self@.offers =~= old(self)@.offers);
                assert(self@.downloads =~= old(self)@.downloads);
                Err(String::from_str("Upload no encontrado"))
            },
            Some(upload) => {
                assert(self@.uploads =~= old(self)@.uploads.remove(stream_id));
                assert(self@.offers =~= old(self)@.offers);
                assert(self@.downloads =~= old(self)@.downloads);
                let chunks = split_chunks(upload.data.as_slice(), n);
                Ok(chunks)
            },
        }
    }

    /// Takes the chunks of file data read from the data channels, in order (see
    /// `poll_fold`): returns an event for each file received, and the channels whose
    /// transfer was dropped, which the caller closes.
    pub fn poll_events(&mut self, chunks: Vec<(u16, Vec<u8>)>) -> (r: (Vec<FileTransferEvent>, Vec<u16>))
        requires
            old(self).config.chunk_size_kb * 1024 <= usize::MAX,
            downloads_fit(old(self)@),
        ensures
            ({
                let f = poll_fold(
                    old(self)@,
                    chunk_views(chunks@),
                    old(self).config.chunk_size_kb * 1024,
                    old(self).config.enable_integrity_check,
                );
                &&& final(self)@ == f.0
                &&& r.0@.map_values(|e: FileTransferEvent| completed_view(e)) == f.1
                &&& r.1@ == f.2
            }),
            forall|i: int| 0 <= i < r.0@.len() ==> (#[trigger] r.0@[i]) is Completed,
            downloads_fit(final(self)@),
            final(self).config == old(self).config,
    {
        let limit = self.chunk_size_bytes();
        let check = self.config.enable_integrity_check;
        let mut events: Vec<FileTransferEvent> = Vec::new();
        let mut rejected: Vec<u16> = Vec::new();
        let ghost cv = chunk_views(chunks@);
        let mut i: usize = 0;
        proof {
            assert(cv.take(0) =~= Seq::<(u16, Seq<u8>)>::empty());
            assert(events@.map_values(|e: FileTransferEvent| completed_view(e)) =~= Seq::<(u16, (Seq<char>, u64, Seq<u8>), Seq<u8>)>::empty());
        }
        while i < chunks.len()
            invariant
                i <= chunks@.len(),
                cv == chunk_views(chunks@),
                limit == old(self).config.chunk_size_kb * 1024,
                check == old(self).config.enable_integrity_check,
                self.config == old(self).config,
                downloads_fit(self@),
                ({
                    let f = poll_fold(old(self)@, cv.take(i as int), limit as int, check);
                    &&& self@ == f.0
                    &&& events@.map_values(|e: FileTransferEvent| completed_view(e)) == f.1
                    &&& rejected@ == f.2
                }),
                forall|j: int| 0 <= j < events@.len() ==> (#[trigger] events@[j]) is Completed,
            decreases chunks@.len() - i,
        {
            let id = chunks[i].0;
            let data = &chunks[i].1;
            let ghost v0 = self@;
            let ghost ev0 = events@.map_values(|e: FileTransferEvent| completed_view(e));
            let ghost rj0 = rejected@;
            proof {
                assert(cv.take(i + 1).drop_last() =~= cv.take(i as int));
                assert(cv.take(i + 1).last() == (id, data@));
            }
            let ghost step = poll_step(v0, id, data@, limit as int, check);
            let ghost old_downloads = self.active_downloads@;
            match self.active_downloads.remove(&id) {
                None => {
                    assert(self.active_downloads@ =~= old_downloads);
                    assert(self@.downloads =~= v0.downloads);
                    assert(self@ == v0);
                },
                Some(mut d) => {
                    assert(v0.downloads[id] == (meta_view(d.metadata), d.received_bytes@));
                    let size = d.metadata.size as usize;
                    let remaining = size - d.received_bytes.len();
                    let mut take = remaining;
                    if data.len() < take {
                        take = data.len();
                    }
                    if limit < take {
                        take = limit;
                    }
                    push_all(&mut d.received_bytes, vstd::slice::slice_subrange(data.as_slice(), 0, take));
                    assert(d.received_bytes@ =~= v0.downloads[id].1 + data@.take(take as int));
                    if d.received_bytes.len() >= size {
                        let file = ReceivedFile { metadata: d.metadata, data: d.received_bytes };
                        if check && !file.verify_integrity() {
                            self.pending_offers.remove(&id);
                            self.active_uploads.remove(&id);
                            rejected.push(id);
                            assert(self@ =~= step.0);
                        } else {
                            events.push(FileTransferEvent::Completed { stream_id: id, file });
                            assert(self@ =~= step.0);
                            let ghost done = step.1.unwrap();
                            assert(events@.map_values(|e: FileTransferEvent| completed_view(e))
                                =~= ev0.push((id, done.0, done.1)));
                        }
                    } else {
                        let ghost dv = (meta_view(d.metadata), d.received_bytes@);
                        self.active_downloads.insert(id, d);
                        assert(self@.downloads =~= v0.downloads.insert(id, dv));
                        assert(self@.offers =~= v0.offers);
                        assert(self@.uploads =~= v0.uploads);
                        assert(self@ == step.0);
                    }
                },
            }
            assert(events@.map_values(|e: FileTransferEvent| completed_view(e)) =~= (match step.1 {
                Some((m, got)) => ev0.push((id, m, got)),
                None => ev0,
            }));
            i += 1;
        }
        proof {
            assert(cv.take(chunks@.len() as int) =~= cv);
        }
        (events, rejected)
    }

    /// The data channels of the downloads under way, each once, in no particular order.
    pub fn get_active_download_streams(&self) -> (ids: Vec<u16>)
        ensures
            ids@.to_set() == self@.downloads.dom(),
            ids@.no_duplicates(),
    {
        let mut ids: Vec<u16> = Vec::new();
        let ghost keys = vstd::std_specs::iter::IteratorSpec::remaining(
            &vstd::std_specs::hash::spec_keys_iter(&self.active_downloads),
        ).unref();
        proof {
            vstd::std_specs::hash::axiom_spec_keys_iter(&self.active_downloads);
        }
        for k in it: self.active_downloads.keys()
            invariant
                ids@ == it.seq().take(it.index() as int).unref(),
                it.seq().unref() == keys,
        {
            ids.push(*k);
            assert(it.seq().take(it.index() + 1).unref() =~= it.seq().take(it.index() as int).unref().push(*k));
        }
        assert(ids@ =~= keys);
        assert(self@.downloads.dom() =~= self.active_downloads@.dom());
        ids
    }
}

/// `d` cut into chunks of `n` bytes, the last one possibly shorter.
fn split_chunks(d: &[u8], n: usize) -> (r: Vec<Vec<u8>>)
    requires
        n > 0,
    ensures
        r@.map_values(|c: Vec<u8>| c@) == chunks_from(d@, 0, n as int),
{
    let mut r: Vec<Vec<u8>> = Vec::new();
    let mut off: usize = 0;
    while off < d.len()
        invariant
            n > 0,
            off <= d@.len(),
            r@.map_values(|c: Vec<u8>| c@) + chunks_from(d@, off as int, n as int) == chunks_from(d@, 0, n as int),
        decreases d@.len() - off,
    {
        let end = if d.len() - off > n {
            off + n
        } else {
            d.len()
        };
        let mut c: Vec<u8> = Vec::new();
        push_all(&mut c, vstd::slice::slice_subrange(d, off, end));
        let ghost before = r@.map_values(|c: Vec<u8>| c@);
        r.push(c);
        assert(r@.map_values(|c: Vec<u8>| c@) =~= before.push(d@.subrange(off as int, end as int)));
        assert(chunks_from(d@, off as int, n as int) =~= seq![d@.subrange(off as int, end as int)]
            + chunks_from(d@, end as int, n as int));
        off = end;
    }
    assert(chunks_from(d@, off as int, n as int) =~= Seq::<Seq<u8>>::empty());
    assert(r@.map_values(|c: Vec<u8>| c@) =~= r@.map_values(|c: Vec<u8>| c@) + Seq::<Seq<u8>>::empty());
    r
}

} // verus!
