//! Attachments: per-chunk encryption in transit, the at-rest format, and the state of a
//! reassembly. A file travels in chunks of 512 KiB, each sealed with the conversation
//! key, its associated data binding it to the attachment id and chunk index so a chunk
//! cannot be swapped, reordered or replayed into another attachment. At rest a file is
//! a sequence of `[u32 BE length][sealed]` records, each chunk sealed with the vault
//! key. Reading and writing files happens outside; the bytes are framed and checked
//! here.

use vstd::prelude::*;

use super::vault::AttachmentInfo;
use super::{from_crypto, reports, storage_error, CoreError};
use crate::crypto::aead::{open, open_spec, seal};
use crate::crypto::group::generate_group_key;
use crate::crypto::primitives::chacha_plaintext_ok;
use crate::crypto::{CryptoError, SymmetricKey};
use crate::hexcode::{dec, hex_encode, hex_encode_spec, push_decimal};
use crate::text::{path_join, path_join_spec, push_bytes, push_str_bytes, utf8_bytes};

verus! {

/// Plaintext bytes per chunk (a sealed chunk is 28 bytes longer: nonce and tag).
pub const CHUNK_SIZE: usize = 524288;

/// The largest attachment accepted: 1 GiB.
pub const MAX_ATTACHMENT: u64 = 1073741824;

/// `seqr-att-rest|{id}|{index}`: the associated data of an at-rest chunk.
pub open spec fn rest_aad_spec(att_id: Seq<u8>, index: nat) -> Seq<u8> {
    utf8_bytes("seqr-att-rest|"@) + att_id + utf8_bytes("|"@) + dec(index)
}

/// The associated data binding an at-rest chunk to its attachment and index.
pub fn rest_aad(att_id: &str, index: u32) -> (b: Vec<u8>)
    ensures
        b@ == rest_aad_spec(utf8_bytes(att_id@), index as nat),
{
    let mut out: Vec<u8> = Vec::new();
    push_str_bytes(&mut out, "seqr-att-rest|");
    push_str_bytes(&mut out, att_id);
    push_str_bytes(&mut out, "|");
    push_decimal(&mut out, index as u64);
    out
}

/// `seqr-att|{id}|{index}`: the associated data of a chunk in transit.
pub open spec fn chunk_aad_spec(att_id: Seq<u8>, index: nat) -> Seq<u8> {
    utf8_bytes("seqr-att|"@) + att_id + utf8_bytes("|"@) + dec(index)
}

/// The associated data binding a chunk in transit to its attachment and index.
pub fn chunk_aad(att_id: &str, index: u32) -> (b: Vec<u8>)
    ensures
        b@ == chunk_aad_spec(utf8_bytes(att_id@), index as nat),
{
    let mut out: Vec<u8> = Vec::new();
    push_str_bytes(&mut out, "seqr-att|");
    push_str_bytes(&mut out, att_id);
    push_str_bytes(&mut out, "|");
    push_decimal(&mut out, index as u64);
    out
}

/// The number of chunks of a file of `size` bytes: one for an empty file, else
/// `ceil(size / CHUNK_SIZE)`, as the `u32` it is sent as.
pub open spec fn chunk_count_spec(size: nat) -> nat {
    if size == 0 {
        1
    } else {
        ((size - 1) as nat / (CHUNK_SIZE as nat) + 1) as nat
    }
}

/// Number of chunks for a file of `size` bytes.
pub fn chunk_count(size: u64) -> (n: u32)
    requires
        size + CHUNK_SIZE - 1 <= u64::MAX,
    ensures
        n == (chunk_count_spec(size as nat) as u32),
{
    if size == 0 {
        return 1;
    }
    ((size - 1) / 524288 + 1) as u32
}

/// The chunks cover the file exactly: every byte falls in one of them and none is
/// empty but the single chunk of an empty file.
pub proof fn lemma_chunk_count_covers(size: nat)
    ensures
        chunk_count_spec(size) >= 1,
        size > 0 ==> (chunk_count_spec(size) - 1) * CHUNK_SIZE < size <= chunk_count_spec(size) * CHUNK_SIZE,
{
    if size > 0 {
        let c = CHUNK_SIZE as int;
        let q = (size - 1) / c;
        assert(q * c <= size - 1 < q * c + c) by (nonlinear_arith)
            requires
                q == (size - 1) / c,
                c > 0,
                size >= 1,
        ;
        assert((q + 1) * c == q * c + c) by (nonlinear_arith);
    }
}

/// Seal one chunk in transit under the conversation key.
pub fn seal_chunk(key: &SymmetricKey, att_id: &str, index: u32, plaintext: &[u8]) -> (r: Result<Vec<u8>, CryptoError>)
    requires
        chacha_plaintext_ok(plaintext@.len()),
    ensures
        match r {
            Ok(ct) => {
                &&& open_spec(key@, ct@, chunk_aad_spec(utf8_bytes(att_id@), index as nat))
                    == Ok::<Seq<u8>, CryptoError>(plaintext@)
                &&& ct@.len() == plaintext@.len() + 28
            },
            Err(e) => e == CryptoError::Rng,
        },
{
    let aad = chunk_aad(att_id, index);
    seal(key, plaintext, aad.as_slice())
}

/// The plaintext of chunk `index` of a file: its bytes from `index * CHUNK_SIZE` on, at
/// most `CHUNK_SIZE` of them (none past the end of the file).
pub open spec fn chunk_plain(data: Seq<u8>, index: nat) -> Seq<u8> {
    let start = index * (CHUNK_SIZE as nat);
    if start >= data.len() {
        Seq::empty()
    } else if start + CHUNK_SIZE as nat >= data.len() {
        data.subrange(start as int, data.len() as int)
    } else {
        data.subrange(start as int, start + CHUNK_SIZE as int)
    }
}

/// Seal chunk `index` of a file's bytes for sending: the chunk's plaintext sealed under
/// the conversation key, bound to this attachment id and index. It fails, with
/// `CryptoError::Rng`, only when the system random source cannot supply a nonce.
pub fn seal_file_chunk(key: &SymmetricKey, att_id: &str, data: &[u8], index: u32) -> (r: Result<Vec<u8>, CryptoError>)
    ensures
        match r {
            Ok(ct) => {
                &&& open_spec(key@, ct@, chunk_aad_spec(utf8_bytes(att_id@), index as nat))
                    == Ok::<Seq<u8>, CryptoError>(chunk_plain(data@, index as nat))
                &&& ct@.len() == chunk_plain(data@, index as nat).len() + 28
            },
            Err(e) => e == CryptoError::Rng,
        },
{
    let start64: u64 = index as u64 * 524288;
    let len = data.len();
    let chunk: &[u8] = if start64 >= len as u64 {
        let empty: &[u8] = &data[0..0];
        proof {
            assert(empty@ =~= chunk_plain(data@, index as nat));
        }
        empty
    } else {
        let start = start64 as usize;
        let end = if len - start <= CHUNK_SIZE {
            len
        } else {
            start + CHUNK_SIZE
        };
        let c = &data[start..end];
        proof {
            assert(c@ =~= chunk_plain(data@, index as nat));
        }
        c
    };
    seal_chunk(key, att_id, index, chunk)
}

/// Open one chunk in transit; a chunk that does not authenticate under this attachment
/// id and index is refused.
pub fn open_chunk(key: &SymmetricKey, att_id: &str, index: u32, ciphertext: &[u8]) -> (r: Result<Vec<u8>, CoreError>)
    ensures
        match open_spec(key@, ciphertext@, chunk_aad_spec(utf8_bytes(att_id@), index as nat)) {
            Ok(p) => r matches Ok(v) && v@ == p,
            Err(c) => r matches Err(e) && reports(e, c),
        },
{
    let aad = chunk_aad(att_id, index);
    match open(key, ciphertext, aad.as_slice()) {
        Ok(p) => Ok(p),
        Err(e) => Err(from_crypto(e)),
    }
}

/// A fresh attachment id: the hex of 16 random bytes; the error of an unavailable
/// system random source otherwise.
pub fn new_attachment_id() -> (r: Result<String, CoreError>)
    ensures
        match r {
            Ok(id) => exists|b: Seq<u8>| b.len() == 16 && utf8_bytes(id@) == hex_encode_spec(b),
            Err(e) => reports(e, CryptoError::Rng),
        },
{
    let bytes = match generate_group_key() {
        Ok(b) => b,
        Err(e) => return Err(from_crypto(e)),
    };
    let id = hex_encode(&bytes[0..16]);
    proof {
        let b = bytes@.subrange(0, 16);
        assert(utf8_bytes(id@) == hex_encode_spec(b));
    }
    Ok(id)
}

/// `<data_dir>/attachments`.
pub fn attachments_dir(data_dir: &str) -> (p: String)
    ensures
        utf8_bytes(p@) == path_join_spec(utf8_bytes(data_dir@), utf8_bytes("attachments"@)),
{
    path_join(data_dir, "attachments")
}

/// Final on-disk path of a reassembled attachment: `<data_dir>/attachments/<id>`.
pub fn attachment_path(data_dir: &str, att_id: &str) -> (p: String)
    ensures
        utf8_bytes(p@) == path_join_spec(
            path_join_spec(utf8_bytes(data_dir@), utf8_bytes("attachments"@)),
            utf8_bytes(att_id@),
        ),
{
    let dir = attachments_dir(data_dir);
    path_join(dir.as_str(), att_id)
}

/// The bytes after the last `.` (all of them when there is none): `rsplit('.').next()`.
pub open spec fn after_last_dot(b: Seq<u8>) -> Seq<u8>
    decreases b.len(),
{
    if b.len() == 0 {
        b
    } else if b.last() == 46u8 {
        Seq::empty()
    } else {
        after_last_dot(b.drop_last()).push(b.last())
    }
}

/// ASCII letters lowered, other bytes kept: `to_ascii_lowercase`.
pub open spec fn ascii_lower(b: Seq<u8>) -> Seq<u8> {
    b.map_values(|x: u8| if 65 <= x <= 90 { (x + 32) as u8 } else { x })
}

/// The MIME type of a lowered extension.
#[verifier::opaque]
pub open spec fn mime_of(ext: Seq<u8>) -> Seq<char> {
    if ext == utf8_bytes("png"@) {
        "image/png"@
    } else if ext == utf8_bytes("jpg"@) || ext == utf8_bytes("jpeg"@) {
        "image/jpeg"@
    } else if ext == utf8_bytes("gif"@) {
        "image/gif"@
    } else if ext == utf8_bytes("webp"@) {
        "image/webp"@
    } else if ext == utf8_bytes("svg"@) {
        "image/svg+xml"@
    } else if ext == utf8_bytes("mp4"@) {
        "video/mp4"@
    } else if ext == utf8_bytes("webm"@) {
        "video/webm"@
    } else if ext == utf8_bytes("mov"@) {
        "video/quicktime"@
    } else if ext == utf8_bytes("mp3"@) {
        "audio/mpeg"@
    } else if ext == utf8_bytes("wav"@) {
        "audio/wav"@
    } else if ext == utf8_bytes("pdf"@) {
        "application/pdf"@
    } else if ext == utf8_bytes("txt"@) {
        "text/plain"@
    } else if ext == utf8_bytes("zip"@) {
        "application/zip"@
    } else {
        "application/octet-stream"@
    }
}

/// The UTF-8 bytes of an ASCII string literal are its bytes.
proof fn lemma_ascii_literal(s: Seq<char>, b: Seq<u8>)
    requires
        crate::text::all_ascii(b),
        s =~= crate::text::ascii_chars(b),
    ensures
        utf8_bytes(s) == b,
{
    crate::text::lemma_ascii_chars_utf8(b);
}

/// The MIME table: each known extension (lowercase ASCII bytes) gives its type, and
/// every other extension gives `application/octet-stream`.
pub proof fn lemma_mime_table(ext: Seq<u8>)
    ensures
        ext == seq![112u8, 110u8, 103u8] ==> mime_of(ext) == "image/png"@,
        ext == seq![106u8, 112u8, 103u8] ==> mime_of(ext) == "image/jpeg"@,
        ext == seq![106u8, 112u8, 101u8, 103u8] ==> mime_of(ext) == "image/jpeg"@,
        ext == seq![103u8, 105u8, 102u8] ==> mime_of(ext) == "image/gif"@,
        ext == seq![119u8, 101u8, 98u8, 112u8] ==> mime_of(ext) == "image/webp"@,
        ext == seq![115u8, 118u8, 103u8] ==> mime_of(ext) == "image/svg+xml"@,
        ext == seq![109u8, 112u8, 52u8] ==> mime_of(ext) == "video/mp4"@,
        ext == seq![119u8, 101u8, 98u8, 109u8] ==> mime_of(ext) == "video/webm"@,
        ext == seq![109u8, 111u8, 118u8] ==> mime_of(ext) == "video/quicktime"@,
        ext == seq![109u8, 112u8, 51u8] ==> mime_of(ext) == "audio/mpeg"@,
        ext == seq![119u8, 97u8, 118u8] ==> mime_of(ext) == "audio/wav"@,
        ext == seq![112u8, 100u8, 102u8] ==> mime_of(ext) == "application/pdf"@,
        ext == seq![116u8, 120u8, 116u8] ==> mime_of(ext) == "text/plain"@,
        ext == seq![122u8, 105u8, 112u8] ==> mime_of(ext) == "application/zip"@,
        (ext != seq![112u8, 110u8, 103u8] && ext != seq![106u8, 112u8, 103u8] && ext != seq![106u8, 112u8, 101u8, 103u8] && ext != seq![103u8, 105u8, 102u8] && ext != seq![119u8, 101u8, 98u8, 112u8] && ext != seq![115u8, 118u8, 103u8] && ext != seq![109u8, 112u8, 52u8] && ext != seq![119u8, 101u8, 98u8, 109u8] && ext != seq![109u8, 111u8, 118u8] && ext != seq![109u8, 112u8, 51u8] && ext != seq![119u8, 97u8, 118u8] && ext != seq![112u8, 100u8, 102u8] && ext != seq![116u8, 120u8, 116u8] && ext != seq![122u8, 105u8, 112u8]) ==> mime_of(ext) == "application/octet-stream"@,
{
    reveal(mime_of);
    reveal_strlit("png");
    lemma_ascii_literal("png"@, seq![112u8, 110u8, 103u8]);
    reveal_strlit("jpg");
    lemma_ascii_literal("jpg"@, seq![106u8, 112u8, 103u8]);
    reveal_strlit("jpeg");
    lemma_ascii_literal("jpeg"@, seq![106u8, 112u8, 101u8, 103u8]);
    reveal_strlit("gif");
    lemma_ascii_literal("gif"@, seq![103u8, 105u8, 102u8]);
    reveal_strlit("webp");
    lemma_ascii_literal("webp"@, seq![119u8, 101u8, 98u8, 112u8]);
    reveal_strlit("svg");
    lemma_ascii_literal("svg"@, seq![115u8, 118u8, 103u8]);
    reveal_strlit("mp4");
    lemma_ascii_literal("mp4"@, seq![109u8, 112u8, 52u8]);
    reveal_strlit("webm");
    lemma_ascii_literal("webm"@, seq![119u8, 101u8, 98u8, 109u8]);
    reveal_strlit("mov");
    lemma_ascii_literal("mov"@, seq![109u8, 111u8, 118u8]);
    reveal_strlit("mp3");
    lemma_ascii_literal("mp3"@, seq![109u8, 112u8, 51u8]);
    reveal_strlit("wav");
    lemma_ascii_literal("wav"@, seq![119u8, 97u8, 118u8]);
    reveal_strlit("pdf");
    lemma_ascii_literal("pdf"@, seq![112u8, 100u8, 102u8]);
    reveal_strlit("txt");
    lemma_ascii_literal("txt"@, seq![116u8, 120u8, 116u8]);
    reveal_strlit("zip");
    lemma_ascii_literal("zip"@, seq![122u8, 105u8, 112u8]);
}

/// A file name `stem.ext` whose extension holds no `.` is typed by that extension,
/// whatever the stem (which may hold dots) and in any letter case.
pub proof fn lemma_mime_by_extension(stem: Seq<u8>, ext: Seq<u8>)
    requires
        !ext.contains(46u8),
    ensures
        after_last_dot(stem + seq![46u8] + ext) == ext,
        mime_of(ascii_lower(after_last_dot(stem + seq![46u8] + ext))) == mime_of(ascii_lower(ext)),
    decreases ext.len(),
{
    if ext.len() == 0 {
        assert((stem + seq![46u8] + ext).last() == 46u8);
    } else {
        let n = stem + seq![46u8] + ext;
        assert(n.drop_last() =~= stem + seq![46u8] + ext.drop_last());
        assert(n.last() == ext.last());
        assert(!ext.drop_last().contains(46u8)) by {
            if ext.drop_last().contains(46u8) {
                let k = choose|k: int| 0 <= k < ext.drop_last().len() && ext.drop_last()[k] == 46u8;
                assert(ext[k] == 46u8);
            }
        }
        assert(ext.last() != 46u8) by {
            assert(ext[ext.len() - 1] == ext.last());
        }
        lemma_mime_by_extension(stem, ext.drop_last());
        assert(ext.drop_last().push(ext.last()) =~= ext);
    }
}

/// Whether the lowered extension is `name`.
fn ext_is(ext: &Vec<u8>, name: &str) -> (r: bool)
    ensures
        r == (ext@ == utf8_bytes(name@)),
{
    crate::text::bytes_eq(ext.as_slice(), name.as_bytes())
}

/// Best-effort MIME type from a file name's extension (case-insensitive).
pub fn guess_mime(filename: &str) -> (m: String)
    ensures
        m@ == mime_of(ascii_lower(after_last_dot(utf8_bytes(filename@)))),
{
    let b = filename.as_bytes();
    let mut start: usize = b.len();
    proof {
        assert(b@.take(b@.len() as int) =~= b@);
        assert(b@.skip(b@.len() as int) =~= Seq::<u8>::empty());
        assert(after_last_dot(b@) + Seq::<u8>::empty() =~= after_last_dot(b@));
    }
    while start > 0 && b[start - 1] != 46u8
        invariant
            0 <= start <= b@.len(),
            after_last_dot(b@) == after_last_dot(b@.take(start as int)) + b@.skip(start as int),
        decreases start,
    {
        proof {
            let t = b@.take(start as int);
            assert(t.drop_last() =~= b@.take(start - 1));
            assert(t.last() == b@[start - 1]);
            assert(seq![b@[start - 1]] + b@.skip(start as int) =~= b@.skip(start - 1));
            assert(after_last_dot(t) == after_last_dot(b@.take(start - 1)).push(b@[start - 1]));
            assert(after_last_dot(b@.take(start - 1)).push(b@[start - 1]) + b@.skip(start as int)
                =~= after_last_dot(b@.take(start - 1)) + b@.skip(start - 1));
        }
        start = start - 1;
    }
    proof {
        assert(b@.take(0) =~= Seq::<u8>::empty());
        if start > 0 {
            assert(b@.take(start as int).last() == 46u8);
        }
        assert(after_last_dot(b@.take(start as int)) =~= Seq::<u8>::empty());
    }
    let mut ext: Vec<u8> = Vec::new();
    let mut i: usize = start;
    while i < b.len()
        invariant
            start <= i <= b@.len(),
            ext@ == ascii_lower(b@.subrange(start as int, i as int)),
        decreases b@.len() - i,
    {
        let x = b[i];
        let y = if 65 <= x && x <= 90 {
            x + 32
        } else {
            x
        };
        ext.push(y);
        proof {
            assert(ext@ =~= ascii_lower(b@.subrange(start as int, i + 1)));
        }
        i = i + 1;
    }
    proof {
        assert(b@.subrange(start as int, b@.len() as int) =~= b@.skip(start as int));
        assert(Seq::<u8>::empty() + b@.skip(start as int) =~= b@.skip(start as int));
    }
    reveal(mime_of);
    let m = if ext_is(&ext, "png") {
        "image/png"
    } else if ext_is(&ext, "jpg") || ext_is(&ext, "jpeg") {
        "image/jpeg"
    } else if ext_is(&ext, "gif") {
        "image/gif"
    } else if ext_is(&ext, "webp") {
        "image/webp"
    } else if ext_is(&ext, "svg") {
        "image/svg+xml"
    } else if ext_is(&ext, "mp4") {
        "video/mp4"
    } else if ext_is(&ext, "webm") {
        "video/webm"
    } else if ext_is(&ext, "mov") {
        "video/quicktime"
    } else if ext_is(&ext, "mp3") {
        "audio/mpeg"
    } else if ext_is(&ext, "wav") {
        "audio/wav"
    } else if ext_is(&ext, "pdf") {
        "application/pdf"
    } else if ext_is(&ext, "txt") {
        "text/plain"
    } else if ext_is(&ext, "zip") {
        "application/zip"
    } else {
        "application/octet-stream"
    };
    String::from_str(m)
}

/// Why the at-rest records of a file do not decode.
pub enum RestError {
    /// A record is cut short.
    Truncated,
    /// A record does not authenticate.
    Crypto(CryptoError),
}

/// The big-endian `u32` of four bytes.
pub open spec fn be_u32(b: Seq<u8>) -> nat {
    ((b[0] as nat * 256 + b[1] as nat) * 256 + b[2] as nat) * 256 + b[3] as nat
}

/// A decoded prefix followed by the rest of a decoding.
pub open spec fn then(p: Seq<u8>, r: Result<Seq<u8>, RestError>) -> Result<Seq<u8>, RestError> {
    match r {
        Ok(q) => Ok(p + q),
        Err(e) => Err(e),
    }
}

/// The plaintext of at-rest records from record `index` on: records are read while at
/// least four bytes remain (fewer is the end of the file); a record whose length runs
/// past the end is `Truncated`; one that does not open under the vault key and its
/// attachment id and index fails with that error.
pub open spec fn rest_decode(key: Seq<u8>, att_id: Seq<u8>, data: Seq<u8>, index: nat) -> Result<Seq<u8>, RestError>
    decreases data.len(),
{
    if data.len() < 4 {
        Ok(Seq::empty())
    } else {
        let len = be_u32(data.take(4));
        if data.len() - 4 < len {
            Err(RestError::Truncated)
        } else {
            match open_spec(key, data.subrange(4, 4 + len as int), rest_aad_spec(att_id, index)) {
                Err(c) => Err(RestError::Crypto(c)),
                Ok(p) => then(p, rest_decode(key, att_id, data.skip(4 + len as int), index + 1)),
            }
        }
    }
}

proof fn lemma_then_assoc(a: Seq<u8>, b: Seq<u8>, r: Result<Seq<u8>, RestError>)
    ensures
        then(a, then(b, r)) == then(a + b, r),
{
    if let Ok(q) = r {
        assert(a + (b + q) =~= (a + b) + q);
    }
}

/// The four big-endian bytes of a `u32`.
fn be_bytes(n: u32) -> (b: [u8; 4])
    ensures
        be_u32(b@) == n,
{
    let b0 = (n >> 24) as u8;
    let b1 = ((n >> 16) & 0xff) as u8;
    let b2 = ((n >> 8) & 0xff) as u8;
    let b3 = (n & 0xff) as u8;
    assert(((b0 as u32 * 256 + b1 as u32) * 256 + b2 as u32) * 256 + b3 as u32 == n) by (bit_vector)
        requires
            b0 == (n >> 24) as u8,
            b1 == ((n >> 16) & 0xff) as u8,
            b2 == ((n >> 8) & 0xff) as u8,
            b3 == (n & 0xff) as u8,
    ;
    let b = [b0, b1, b2, b3];
    assert(b@[0] == b0 && b@[1] == b1 && b@[2] == b2 && b@[3] == b3);
    b
}

/// One at-rest record of a sealed chunk, followed by any bytes, decodes to the chunk
/// and then to what those bytes decode to.
proof fn lemma_record_then(
    key: Seq<u8>,
    att_id: Seq<u8>,
    head: Seq<u8>,
    sealed: Seq<u8>,
    chunk: Seq<u8>,
    tail: Seq<u8>,
    index: nat,
)
    requires
        head.len() == 4,
        be_u32(head) == sealed.len(),
        open_spec(key, sealed, rest_aad_spec(att_id, index)) == Ok::<Seq<u8>, CryptoError>(chunk),
    ensures
        rest_decode(key, att_id, head + sealed + tail, index) == then(chunk, rest_decode(key, att_id, tail, index + 1)),
{
    let d = head + sealed + tail;
    assert(d.take(4) =~= head);
    assert(d.subrange(4, 4 + sealed.len() as int) =~= sealed);
    assert(d.skip(4 + sealed.len() as int) =~= tail);
}

/// One at-rest record: its four-byte big-endian length, and the chunk `index` of the
/// plaintext sealed under the vault key, bound to the attachment id and index.
pub open spec fn rest_record_ok(
    key: Seq<u8>,
    att_id: Seq<u8>,
    plain: Seq<u8>,
    head: Seq<u8>,
    sealed: Seq<u8>,
    index: nat,
) -> bool {
    &&& head.len() == 4
    &&& be_u32(head) == sealed.len()
    &&& open_spec(key, sealed, rest_aad_spec(att_id, index)) == Ok::<Seq<u8>, CryptoError>(chunk_plain(plain, index))
}

/// The bytes of records made of length heads and sealed bodies, in order.
pub open spec fn records_concat(heads: Seq<Seq<u8>>, bodies: Seq<Seq<u8>>) -> Seq<u8>
    decreases bodies.len(),
{
    if bodies.len() == 0 || heads.len() != bodies.len() {
        Seq::empty()
    } else {
        records_concat(heads.drop_last(), bodies.drop_last()) + heads.last() + bodies.last()
    }
}

/// The at-rest layout of a file: one record per chunk (`chunk_count_spec` of them, so an
/// empty file is one record of an empty chunk), record `i` sealing chunk `i`.
pub open spec fn rest_layout(key: Seq<u8>, att_id: Seq<u8>, plain: Seq<u8>, data: Seq<u8>) -> bool {
    exists|heads: Seq<Seq<u8>>, bodies: Seq<Seq<u8>>|
        {
            &&& heads.len() == chunk_count_spec(plain.len())
            &&& bodies.len() == heads.len()
            &&& data == records_concat(heads, bodies)
            &&& forall|j: int|
                0 <= j < bodies.len() ==> rest_record_ok(key, att_id, plain, #[trigger] heads[j], bodies[j], j as nat)
        }
}

/// A file of `len > 0` bytes that fills `k` chunks, the last one at least partly, has
/// `k` chunks.
proof fn lemma_chunk_count_is(len: nat, k: nat)
    requires
        len > 0,
        k >= 1,
        (k - 1) * CHUNK_SIZE < len <= k * CHUNK_SIZE,
    ensures
        chunk_count_spec(len) == k,
{
    let c = CHUNK_SIZE as int;
    let km = (k - 1) as int;
    assert(km * c <= len - 1 < km * c + c) by (nonlinear_arith)
        requires
            (k - 1) * c < len <= k * c,
            km == k - 1,
    ;
    assert((len - 1) as int / c == km) by (nonlinear_arith)
        requires
            km * c <= len - 1 < km * c + c,
            c > 0,
            km >= 0,
    ;
}

/// The file's plaintext, sealed chunk by chunk with the vault key into at-rest records:
/// chunks of `CHUNK_SIZE` bytes, the last one shorter (an empty file is one empty
/// chunk). Reading the records back with the same key gives the plaintext. It fails,
/// with `CryptoError::Rng`, only when the system random source cannot supply a nonce.
#[verifier::spinoff_prover]
#[verifier::rlimit(40)]
pub fn encrypt_to_rest(vault_key: &SymmetricKey, att_id: &str, plain: &[u8]) -> (r: Result<Vec<u8>, CryptoError>)
    requires
        plain@.len() / (CHUNK_SIZE as nat) + 1 < u32::MAX,
        plain@.len() + 32 * (plain@.len() / (CHUNK_SIZE as nat) + 1) <= usize::MAX,
    ensures
        match r {
            Ok(out) => {
                &&& rest_decode(vault_key@, utf8_bytes(att_id@), out@, 0) == Ok::<Seq<u8>, RestError>(plain@)
                &&& rest_layout(vault_key@, utf8_bytes(att_id@), plain@, out@)
            },
            Err(e) => e == CryptoError::Rng,
        },
{
    let ghost key = vault_key@;
    let ghost id = utf8_bytes(att_id@);
    let n_total = plain.len();
    let mut out: Vec<u8> = Vec::new();
    let mut pos: usize = 0;
    let mut index: u32 = 0;
    let mut done = false;
    let ghost mut heads: Seq<Seq<u8>> = Seq::empty();
    let ghost mut bodies: Seq<Seq<u8>> = Seq::empty();
    while !done
        invariant
            heads.len() == index,
            bodies.len() == index,
            out@ == records_concat(heads, bodies),
            forall|j: int|
                0 <= j < bodies.len() ==> rest_record_ok(key, id, plain@, #[trigger] heads[j], bodies[j], j as nat),
            done ==> index as nat == chunk_count_spec(n_total as nat),
            key == vault_key@,
            id == utf8_bytes(att_id@),
            n_total == plain@.len(),
            0 <= pos <= n_total,
            done ==> pos == n_total,
            index as nat <= pos as nat / (CHUNK_SIZE as nat) + 1,
            !done ==> pos == index as nat * CHUNK_SIZE as nat,
            plain@.len() / (CHUNK_SIZE as nat) + 1 < u32::MAX,
            plain@.len() + 32 * (plain@.len() / (CHUNK_SIZE as nat) + 1) <= usize::MAX,
            out@.len() <= pos + 32 * index,
            forall|tail: Seq<u8>|
                #[trigger] rest_decode(key, id, out@ + tail, 0) == then(
                    plain@.take(pos as int),
                    rest_decode(key, id, tail, index as nat),
                ),
        decreases (n_total - pos) * 2 + (if done { 0int } else { 1int }),
    {
        let n = if n_total - pos < CHUNK_SIZE {
            n_total - pos
        } else {
            CHUNK_SIZE
        };
        if n == 0 && index > 0 {
            proof {
                assert(pos == n_total);
                assert((index - 1) * CHUNK_SIZE < n_total) by (nonlinear_arith)
                    requires
                        pos == index * CHUNK_SIZE,
                        pos == n_total,
                        index > 0,
                ;
                lemma_chunk_count_is(n_total as nat, index as nat);
            }
            done = true;
        } else {
            let chunk = &plain[pos..pos + n];
            let aad = rest_aad(att_id, index);
            let sealed = match seal(vault_key, chunk, aad.as_slice()) {
                Ok(x) => x,
                Err(e) => return Err(e),
            };
            let head = be_bytes(sealed.len() as u32);
            let ghost before = out@;
            push_bytes(&mut out, &head);
            push_bytes(&mut out, sealed.as_slice());
            proof {
                assert(index as nat * CHUNK_SIZE as nat <= n_total);
                assert(chunk@ =~= plain@.subrange(pos as int, pos + n));
                assert(chunk@ =~= chunk_plain(plain@, index as nat));
                let hs2 = heads.push(head@);
                let bs2 = bodies.push(sealed@);
                assert(hs2.drop_last() =~= heads);
                assert(bs2.drop_last() =~= bodies);
                assert(out@ =~= records_concat(hs2, bs2));
                assert forall|j: int| 0 <= j < bs2.len() implies rest_record_ok(
                    key,
                    id,
                    plain@,
                    #[trigger] hs2[j],
                    bs2[j],
                    j as nat,
                ) by {
                    if j < bodies.len() {
                        assert(hs2[j] == heads[j]);
                        assert(bs2[j] == bodies[j]);
                    }
                }
                heads = hs2;
                bodies = bs2;
                if n < CHUNK_SIZE {
                    if n_total == 0 {
                        assert(index == 0) by (nonlinear_arith)
                            requires
                                pos == index * CHUNK_SIZE,
                                pos <= n_total,
                                n_total == 0,
                        ;
                    } else {
                        assert(n > 0);
                        assert(index * CHUNK_SIZE < n_total <= (index + 1) * CHUNK_SIZE) by (nonlinear_arith)
                            requires
                                pos == index * CHUNK_SIZE,
                                n_total == pos + n,
                                0 < n < CHUNK_SIZE,
                        ;
                        lemma_chunk_count_is(n_total as nat, (index + 1) as nat);
                    }
                }
                assert forall|tail: Seq<u8>| #[trigger] rest_decode(key, id, out@ + tail, 0) == then(
                    plain@.take(pos + n),
                    rest_decode(key, id, tail, (index + 1) as nat),
                ) by {
                    let rec_tail = head@ + sealed@ + tail;
                    assert(out@ + tail =~= before + rec_tail);
                    assert(rest_decode(key, id, before + rec_tail, 0) == then(
                        plain@.take(pos as int),
                        rest_decode(key, id, rec_tail, index as nat),
                    ));
                    lemma_record_then(key, id, head@, sealed@, chunk@, tail, index as nat);
                    lemma_then_assoc(plain@.take(pos as int), chunk@, rest_decode(key, id, tail, (index + 1) as nat));
                    assert(plain@.take(pos as int) + chunk@ =~= plain@.take(pos + n));
                }
            }
            pos = pos + n;
            index = index + 1;
            if n < CHUNK_SIZE {
                done = true;
            }
        }
    }
    proof {
        assert(out@ + Seq::<u8>::empty() =~= out@);
        assert(plain@.take(pos as int) =~= plain@);
        assert(rest_decode(key, id, Seq::<u8>::empty(), index as nat) == Ok::<Seq<u8>, RestError>(Seq::empty()));
        assert(plain@ + Seq::<u8>::empty() =~= plain@);
        assert(heads.len() == chunk_count_spec(plain@.len()));
    }
    Ok(out)
}

/// What reading an at-rest file gives, as the library reports it: the plaintext, or a
/// storage error for a cut-short record, or the cryptographic error of a record that
/// does not open.
pub open spec fn read_rest_ok(key: Seq<u8>, att_id: Seq<u8>, data: Seq<u8>, r: Result<Vec<u8>, CoreError>) -> bool {
    match rest_decode(key, att_id, data, 0) {
        Ok(p) => r matches Ok(v) && v@ == p,
        Err(RestError::Truncated) => r matches Err(e) && storage_error(e, "failed to fill whole buffer"@),
        Err(RestError::Crypto(c)) => r matches Err(e) && reports(e, c),
    }
}

/// Decrypt an at-rest file's bytes fully into memory (for inline preview; the caller
/// caps the size).
pub fn read_rest_bytes(vault_key: &SymmetricKey, att_id: &str, data: &[u8]) -> (r: Result<Vec<u8>, CoreError>)
    requires
        data@.len() / 4 < u32::MAX,
    ensures
        read_rest_ok(vault_key@, utf8_bytes(att_id@), data@, r),
{
    let ghost key = vault_key@;
    let ghost id = utf8_bytes(att_id@);
    let mut out: Vec<u8> = Vec::new();
    let mut pos: usize = 0;
    let mut index: u32 = 0;
    proof {
        assert(data@.skip(0) =~= data@);
        assert(Seq::<u8>::empty() + Seq::<u8>::empty() =~= Seq::<u8>::empty());
        lemma_then_nil(rest_decode(key, id, data@, 0));
    }
    while data.len() - pos >= 4
        invariant
            key == vault_key@,
            id == utf8_bytes(att_id@),
            0 <= pos <= data@.len(),
            4 * index as nat <= pos,
            data@.len() / 4 < u32::MAX,
            rest_decode(key, id, data@, 0) == then(out@, rest_decode(key, id, data@.skip(pos as int), index as nat)),
        decreases data@.len() - pos,
    {
        let ghost rest = data@.skip(pos as int);
        let len = ((data[pos] as u32 * 256 + data[pos + 1] as u32) * 256 + data[pos + 2] as u32) * 256
            + data[pos + 3] as u32;
        proof {
            assert(rest.take(4) =~= data@.subrange(pos as int, pos + 4));
            assert(len == be_u32(rest.take(4)));
        }
        if data.len() - pos - 4 < len as usize {
            return Err(CoreError::Storage(String::from_str("failed to fill whole buffer")));
        }
        let start = pos + 4;
        let end = start + len as usize;
        let sealed = &data[start..end];
        let aad = rest_aad(att_id, index);
        proof {
            assert(sealed@ =~= rest.subrange(4, 4 + len as int));
        }
        let plain = match open(vault_key, sealed, aad.as_slice()) {
            Ok(p) => p,
            Err(e) => return Err(from_crypto(e)),
        };
        let ghost before = out@;
        push_bytes(&mut out, plain.as_slice());
        proof {
            assert(rest.skip(4 + len as int) =~= data@.skip(end as int));
            lemma_then_assoc(before, plain@, rest_decode(key, id, data@.skip(end as int), (index + 1) as nat));
        }
        pos = end;
        index = index + 1;
    }
    proof {
        assert(rest_decode(key, id, data@.skip(pos as int), index as nat) == Ok::<Seq<u8>, RestError>(Seq::empty()));
        assert(out@ + Seq::<u8>::empty() =~= out@);
    }
    Ok(out)
}

/// Reading at-rest records one by one, from record `index` on: the plaintexts of the
/// records that open, in order, up to the first that does not, and that record's
/// failure (none when every record opens).
pub open spec fn rest_prefix(key: Seq<u8>, att_id: Seq<u8>, data: Seq<u8>, index: nat) -> (Seq<Seq<u8>>, Option<RestError>)
    decreases data.len(),
{
    if data.len() < 4 {
        (Seq::empty(), None)
    } else {
        let len = be_u32(data.take(4));
        if data.len() - 4 < len {
            (Seq::empty(), Some(RestError::Truncated))
        } else {
            match open_spec(key, data.subrange(4, 4 + len as int), rest_aad_spec(att_id, index)) {
                Err(c) => (Seq::empty(), Some(RestError::Crypto(c))),
                Ok(p) => {
                    let rest = rest_prefix(key, att_id, data.skip(4 + len as int), index + 1);
                    (seq![p] + rest.0, rest.1)
                },
            }
        }
    }
}

/// The contents of a list of byte vectors.
pub open spec fn byte_views(v: Seq<Vec<u8>>) -> Seq<Seq<u8>> {
    v.map_values(|b: Vec<u8>| b@)
}

/// Decrypt an at-rest file's records in order, as a writer receives them: the
/// plaintexts of the records that open, up to the first that does not, and then the
/// error of that record (a storage error for a cut-short record, the cryptographic
/// error of one that does not open), if any.
pub fn read_rest_records(vault_key: &SymmetricKey, att_id: &str, data: &[u8]) -> (r: (Vec<Vec<u8>>, Option<CoreError>))
    requires
        data@.len() / 4 < u32::MAX,
    ensures
        byte_views(r.0@) == rest_prefix(vault_key@, utf8_bytes(att_id@), data@, 0).0,
        match rest_prefix(vault_key@, utf8_bytes(att_id@), data@, 0).1 {
            None => r.1 is None,
            Some(RestError::Truncated) => r.1 matches Some(e) && storage_error(e, "failed to fill whole buffer"@),
            Some(RestError::Crypto(c)) => r.1 matches Some(e) && reports(e, c),
        },
{
    let ghost key = vault_key@;
    let ghost id = utf8_bytes(att_id@);
    let mut outs: Vec<Vec<u8>> = Vec::new();
    let mut pos: usize = 0;
    let mut index: u32 = 0;
    proof {
        assert(data@.skip(0) =~= data@);
        assert(byte_views(outs@) =~= Seq::<Seq<u8>>::empty());
        let rp = rest_prefix(key, id, data@, 0);
        assert(Seq::<Seq<u8>>::empty() + rp.0 =~= rp.0);
    }
    while data.len() - pos >= 4
        invariant
            key == vault_key@,
            id == utf8_bytes(att_id@),
            0 <= pos <= data@.len(),
            4 * index as nat <= pos,
            data@.len() / 4 < u32::MAX,
            rest_prefix(key, id, data@, 0).0 == byte_views(outs@) + rest_prefix(key, id, data@.skip(pos as int), index as nat).0,
            rest_prefix(key, id, data@, 0).1 == rest_prefix(key, id, data@.skip(pos as int), index as nat).1,
        decreases data@.len() - pos,
    {
        let ghost rest = data@.skip(pos as int);
        let len = ((data[pos] as u32 * 256 + data[pos + 1] as u32) * 256 + data[pos + 2] as u32) * 256
            + data[pos + 3] as u32;
        proof {
            assert(rest.take(4) =~= data@.subrange(pos as int, pos + 4));
            assert(len == be_u32(rest.take(4)));
        }
        if data.len() - pos - 4 < len as usize {
            proof {
                assert(byte_views(outs@) + Seq::<Seq<u8>>::empty() =~= byte_views(outs@));
            }
            return (outs, Some(CoreError::Storage(String::from_str("failed to fill whole buffer"))));
        }
        let start = pos + 4;
        let end = start + len as usize;
        let sealed = &data[start..end];
        let aad = rest_aad(att_id, index);
        proof {
            assert(sealed@ =~= rest.subrange(4, 4 + len as int));
        }
        let plain = match open(vault_key, sealed, aad.as_slice()) {
            Ok(p) => p,
            Err(e) => {
                proof {
                    assert(byte_views(outs@) + Seq::<Seq<u8>>::empty() =~= byte_views(outs@));
                }
                return (outs, Some(from_crypto(e)));
            },
        };
        let ghost before = byte_views(outs@);
        outs.push(plain);
        proof {
            assert(rest.skip(4 + len as int) =~= data@.skip(end as int));
            let next = rest_prefix(key, id, data@.skip(end as int), (index + 1) as nat);
            assert(byte_views(outs@) =~= before.push(plain@));
            assert(before + (seq![plain@] + next.0) =~= before.push(plain@) + next.0);
        }
        pos = end;
        index = index + 1;
    }
    proof {
        assert(byte_views(outs@) + Seq::<Seq<u8>>::empty() =~= byte_views(outs@));
    }
    (outs, None)
}

proof fn lemma_then_nil(r: Result<Seq<u8>, RestError>)
    ensures
        then(Seq::empty(), r) == r,
{
    if let Ok(q) = r {
        assert(Seq::<u8>::empty() + q =~= q);
    }
}

/// The at-rest records an attachment is stored as open, with the vault key, to the
/// plaintext they were made from.
pub proof fn lemma_rest_roundtrip(key: Seq<u8>, att_id: Seq<u8>, plain: Seq<u8>, stored: Seq<u8>, r: Result<Vec<u8>, CoreError>)
    requires
        rest_decode(key, att_id, stored, 0) == Ok::<Seq<u8>, RestError>(plain),
        read_rest_ok(key, att_id, stored, r),
    ensures
        r matches Ok(v) && v@ == plain,
{
}

/// Incoming chunks of one attachment: the attachment, where it belongs, the key its
/// chunks are sealed with, how many are expected and which have arrived. The file
/// itself is written outside, at the offsets this hands out.
pub struct Reassembler {
    info: AttachmentInfo,
    conversation_id: String,
    sender: String,
    seq: u64,
    key: SymmetricKey,
    vault_key: SymmetricKey,
    expected: u32,
    received: Vec<u32>,
}

/// What one chunk adds to a reassembly: its plaintext and the offset it goes to, unless
/// it had already arrived; and whether the attachment is now complete.
pub struct ChunkOutcome {
    pub write: Option<(u64, Vec<u8>)>,
    pub complete: bool,
}

impl Reassembler {
    /// The attachment being reassembled.
    pub closed spec fn info_spec(&self) -> AttachmentInfo {
        self.info
    }

    /// The conversation it belongs to.
    pub closed spec fn conversation_spec(&self) -> Seq<char> {
        self.conversation_id@
    }

    /// Its sender's signing key (hex).
    pub closed spec fn sender_spec(&self) -> Seq<char> {
        self.sender@
    }

    /// Its sender's sequence number.
    pub closed spec fn seq_spec(&self) -> u64 {
        self.seq
    }

    /// The attachment being reassembled.
    pub fn info(&self) -> (r: &AttachmentInfo)
        ensures
            *r == self.info_spec(),
    {
        &self.info
    }

    /// The conversation it belongs to.
    pub fn conversation_id(&self) -> (r: &str)
        ensures
            r@ == self.conversation_spec(),
    {
        self.conversation_id.as_str()
    }

    /// Its sender's signing key (hex).
    pub fn sender(&self) -> (r: &str)
        ensures
            r@ == self.sender_spec(),
    {
        self.sender.as_str()
    }

    /// Its sender's sequence number.
    pub fn seq(&self) -> (r: u64)
        ensures
            r == self.seq_spec(),
    {
        self.seq
    }

    /// The indices of the chunks that have arrived.
    pub closed spec fn received_set(&self) -> Set<u32> {
        self.received@.to_set()
    }

    /// How many chunks are expected.
    pub closed spec fn expected_spec(&self) -> u32 {
        self.expected
    }

    /// The conversation key the chunks are sealed with.
    pub closed spec fn key_spec(&self) -> Seq<u8> {
        self.key@
    }

    /// The vault key the finished file is stored under.
    pub closed spec fn vault_key_spec(&self) -> Seq<u8> {
        self.vault_key@
    }

    #[verifier::type_invariant]
    spec fn distinct(&self) -> bool {
        self.received@.no_duplicates()
    }

    /// A reassembly with no chunks yet.
    pub fn new(
        info: AttachmentInfo,
        conversation_id: String,
        sender: String,
        seq: u64,
        key: SymmetricKey,
        vault_key: SymmetricKey,
        expected: u32,
    ) -> (r: Reassembler)
        ensures
            r.info_spec() == info,
            r.conversation_spec() == conversation_id@,
            r.sender_spec() == sender@,
            r.seq_spec() == seq,
            r.key_spec() == key@,
            r.vault_key_spec() == vault_key@,
            r.expected_spec() == expected,
            r.received_set() == Set::<u32>::empty(),
    {
        let r = Reassembler {
            info,
            conversation_id,
            sender,
            seq,
            key,
            vault_key,
            expected,
            received: Vec::new(),
        };
        proof {
            assert(r.received@.to_set() =~= Set::<u32>::empty());
        }
        r
    }

    /// The number of distinct chunks that have arrived.
    pub fn received_count(&self) -> (n: usize)
        ensures
            n == self.received_set().len(),
    {
        proof {
            use_type_invariant(self);
            self.received@.unique_seq_to_set();
        }
        self.received.len()
    }

    /// The vault key the finished file is stored under.
    pub fn vault_key(&self) -> (k: SymmetricKey)
        ensures
            k@ == self.vault_key_spec(),
    {
        self.vault_key
    }

    /// Take one chunk. An index that has arrived before only reports completeness;
    /// otherwise the chunk must open under the conversation key, this attachment's id
    /// and its index, and its plaintext goes to `index * CHUNK_SIZE`. The attachment is
    /// complete when as many distinct chunks have arrived as are expected.
    pub fn add_chunk(&mut self, index: u32, ciphertext: &[u8]) -> (r: Result<ChunkOutcome, CoreError>)
        ensures
            final(self).info_spec() == old(self).info_spec(),
            final(self).conversation_spec() == old(self).conversation_spec(),
            final(self).sender_spec() == old(self).sender_spec(),
            final(self).seq_spec() == old(self).seq_spec(),
            final(self).key_spec() == old(self).key_spec(),
            final(self).vault_key_spec() == old(self).vault_key_spec(),
            final(self).expected_spec() == old(self).expected_spec(),
            old(self).received_set().contains(index) ==> ({
                &&& final(self).received_set() == old(self).received_set()
                &&& r matches Ok(o) && o.write is None && o.complete == (old(self).received_set().len()
                    == old(self).expected_spec() as nat)
            }),
            !old(self).received_set().contains(index) ==> match open_spec(
                old(self).key_spec(),
                ciphertext@,
                chunk_aad_spec(utf8_bytes(old(self).info_spec().id@), index as nat),
            ) {
                Ok(p) => {
                    &&& final(self).received_set() == old(self).received_set().insert(index)
                    &&& r matches Ok(o) && o.write matches Some(w) && w.0 == index as nat * CHUNK_SIZE as nat
                        && w.1@ == p && o.complete == (final(self).received_set().len()
                        == old(self).expected_spec() as nat)
                },
                Err(c) => {
                    &&& final(self).received_set() == old(self).received_set()
                    &&& r matches Err(e) && reports(e, c)
                },
            },
    {
        proof {
            use_type_invariant(&*self);
            self.received@.unique_seq_to_set();
        }
        let mut i: usize = 0;
        while i < self.received.len()
            invariant
                0 <= i <= self.received@.len(),
                self.received@.to_set().len() == self.received@.len(),
                forall|j: int| 0 <= j < i ==> self.received@[j] != index,
            decreases self.received@.len() - i,
        {
            if self.received[i] == index {
                proof {
                    assert(self.received@.contains(index));
                }
                let complete = self.received.len() == self.expected as usize;
                return Ok(ChunkOutcome { write: None, complete });
            }
            i = i + 1;
        }
        proof {
            assert(!self.received@.contains(index));
        }
        let plain = match open_chunk(&self.key, self.info.id.as_str(), index, ciphertext) {
            Ok(p) => p,
            Err(e) => return Err(e),
        };
        let ghost before = self.received@;
        let mut rec: Vec<u32> = Vec::new();
        std::mem::swap(&mut rec, &mut self.received);
        rec.push(index);
        proof {
            before.lemma_push_to_set_commute(index);
            assert(rec@.to_set() =~= before.to_set().insert(index));
            assert(rec@.no_duplicates());
        }
        self.received = rec;
        proof {
            self.received@.unique_seq_to_set();
        }
        let complete = self.received.len() == self.expected as usize;
        let offset = index as u64 * 524288;
        Ok(ChunkOutcome { write: Some((offset, plain)), complete })
    }

    /// What opening chunk `index` from `ciphertext` gives: nothing for a chunk that has
    /// arrived before; else its offset and plaintext, or the failure to open it.
    pub open spec fn take_ok(&self, index: u32, ciphertext: Seq<u8>, r: Result<Option<(u64, Vec<u8>)>, CoreError>) -> bool {
        if self.received_set().contains(index) {
            r matches Ok(None)
        } else {
            match open_spec(self.key_spec(), ciphertext, chunk_aad_spec(utf8_bytes(self.info_spec().id@), index as nat)) {
                Ok(p) => r matches Ok(Some(w)) && w.0 == index as nat * CHUNK_SIZE as nat && w.1@ == p,
                Err(c) => r matches Err(e) && reports(e, c),
            }
        }
    }

    /// Whether the chunk `index` has arrived.
    pub fn has_chunk(&self, index: u32) -> (r: bool)
        ensures
            r == self.received_set().contains(index),
    {
        let mut i: usize = 0;
        while i < self.received.len()
            invariant
                0 <= i <= self.received@.len(),
                forall|j: int| 0 <= j < i ==> self.received@[j] != index,
            decreases self.received@.len() - i,
        {
            if self.received[i] == index {
                proof {
                    assert(self.received@.contains(index));
                }
                return true;
            }
            i = i + 1;
        }
        proof {
            assert(!self.received@.contains(index));
        }
        false
    }

    /// Open one chunk without recording it (the first of two steps; the second,
    /// `commit_chunk`, records it once its plaintext is written): `None` for an index
    /// that has arrived before; otherwise the offset `index * CHUNK_SIZE` and the
    /// plaintext, when the chunk opens under the conversation key, this attachment's id
    /// and its index.
    pub fn take_chunk(&self, index: u32, ciphertext: &[u8]) -> (r: Result<Option<(u64, Vec<u8>)>, CoreError>)
        ensures
            self.take_ok(index, ciphertext@, r),
    {
        if self.has_chunk(index) {
            return Ok(None);
        }
        let plain = match open_chunk(&self.key, self.info.id.as_str(), index, ciphertext) {
            Ok(p) => p,
            Err(e) => return Err(e),
        };
        let offset = index as u64 * 524288;
        Ok(Some((offset, plain)))
    }

    /// Record that the chunk `index` has arrived (and its plaintext is written), and
    /// report whether as many distinct chunks have arrived as are expected.
    pub fn commit_chunk(&mut self, index: u32) -> (complete: bool)
        ensures
            final(self).info_spec() == old(self).info_spec(),
            final(self).conversation_spec() == old(self).conversation_spec(),
            final(self).sender_spec() == old(self).sender_spec(),
            final(self).seq_spec() == old(self).seq_spec(),
            final(self).key_spec() == old(self).key_spec(),
            final(self).vault_key_spec() == old(self).vault_key_spec(),
            final(self).expected_spec() == old(self).expected_spec(),
            final(self).received_set() == old(self).received_set().insert(index),
            complete == (final(self).received_set().len() == old(self).expected_spec() as nat),
    {
        proof {
            use_type_invariant(&*self);
            self.received@.unique_seq_to_set();
        }
        if self.has_chunk(index) {
            proof {
                assert(self.received@.to_set().insert(index) =~= self.received@.to_set());
            }
            return self.received.len() == self.expected as usize;
        }
        let ghost before = self.received@;
        let mut rec: Vec<u32> = Vec::new();
        std::mem::swap(&mut rec, &mut self.received);
        rec.push(index);
        proof {
            assert(!before.contains(index));
            before.lemma_push_to_set_commute(index);
            assert(rec@.to_set() =~= before.to_set().insert(index));
            assert(rec@.no_duplicates());
        }
        self.received = rec;
        proof {
            self.received@.unique_seq_to_set();
        }
        self.received.len() == self.expected as usize
    }
}

} // verus!
