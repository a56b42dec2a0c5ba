//! Chunked authenticated encryption of byte streams.
//!
//! A sealed stream starts with a format marker and then holds one record per
//! chunk of plaintext: the chunk index as 8 little-endian bytes, the length of
//! the sealed chunk as 4 little-endian bytes, and the sealed chunk itself
//! (ChaCha20-Poly1305 ciphertext followed by its 16-byte tag).  The nonce of
//! chunk `i` is `i` in little-endian order in its low 8 bytes, then 4 zero
//! bytes.
use vstd::bytes::{
    lemma_auto_spec_u32_to_from_le_bytes, lemma_auto_spec_u64_to_from_le_bytes,
    spec_u32_from_le_bytes, spec_u32_to_le_bytes, spec_u64_from_le_bytes,
    spec_u64_to_le_bytes, u32_from_le_bytes, u32_to_le_bytes, u64_from_le_bytes,
    u64_to_le_bytes,
};
use vstd::prelude::*;
use vstd::slice::{slice_subrange, slice_to_vec};

verus! {

/// Length in bytes of a ChaCha20-Poly1305 key.
pub const KEY_LEN: usize = 32;

/// Length in bytes of the authentication tag appended to each sealed chunk.
pub const TAG_LEN: usize = 16;

/// Length in bytes of a nonce.
pub const NONCE_LEN: usize = 12;

/// Size of a plaintext chunk: 10 MiB.
pub const CHUNK_SIZE: usize = 10485760;

/// Length of a record's header: chunk index and sealed length.
pub const RECORD_HEADER_LEN: usize = 12;

/// Length of the format marker at the start of a sealed stream.
pub const MARKER_LEN: usize = 4;

/// Errors of the cipher.
#[derive(Debug, Clone, Copy, PartialEq, Eq, Structural)]
pub enum CipherError {
    /// The key is not exactly 32 bytes long.
    InvalidKey,
    /// The framing of the sealed stream is malformed: wrong format marker,
    /// truncated record, or chunk indices out of sequence.
    IntegrityViolation,
    /// A sealed chunk failed authentication.
    DecryptionFailed,
}

/// The ChaCha20-Poly1305 sealing of `plaintext` under `key` and `nonce`
/// (ciphertext followed by tag).
pub uninterp spec fn aead_seal(key: Seq<u8>, nonce: Seq<u8>, plaintext: Seq<u8>) -> Seq<u8>;

/// The ChaCha20-Poly1305 opening of `sealed` under `key` and `nonce`:
/// `None` where authentication fails.
pub uninterp spec fn aead_open(key: Seq<u8>, nonce: Seq<u8>, sealed: Seq<u8>) -> Option<Seq<u8>>;

/// Relies on ring's `UnboundKey::new` with `CHACHA20_POLY1305` (accepts any
/// 32-byte key) and `LessSafeKey::seal_in_place_append_tag` (appends a 16-byte
/// tag, fails only on inputs of hundreds of GiB): sealing, whose result opens
/// again to the plaintext under the same key and nonce.
#[verifier::external_body]
fn seal_chunk(key: &[u8], nonce: &[u8; 12], plaintext: &[u8]) -> (r: Vec<u8>)
    requires
        key@.len() == KEY_LEN,
        plaintext@.len() <= CHUNK_SIZE,
    ensures
        r@ == aead_seal(key@, nonce@, plaintext@),
        r@.len() == plaintext@.len() + TAG_LEN,
        aead_open(key@, nonce@, r@) == Some(plaintext@),
{
    let unbound = ring::aead::UnboundKey::new(&ring::aead::CHACHA20_POLY1305, key).unwrap();
    let sealing = ring::aead::LessSafeKey::new(unbound);
    let mut buf = plaintext.to_vec();
    sealing.seal_in_place_append_tag(
        ring::aead::Nonce::assume_unique_for_key(*nonce),
        ring::aead::Aad::empty(),
        &mut buf,
    ).unwrap();
    buf
}

/// Relies on ring's `UnboundKey::new` with `CHACHA20_POLY1305` (accepts any
/// 32-byte key) and `LessSafeKey::open_in_place`: opening, which fails where
/// the tag does not authenticate the ciphertext.
#[verifier::external_body]
fn open_chunk(key: &[u8], nonce: &[u8; 12], sealed: &[u8]) -> (r: Option<Vec<u8>>)
    requires
        key@.len() == KEY_LEN,
    ensures
        match r {
            Some(v) => aead_open(key@, nonce@, sealed@) == Some(v@),
            None => aead_open(key@, nonce@, sealed@) is None,
        },
{
    let unbound = ring::aead::UnboundKey::new(&ring::aead::CHACHA20_POLY1305, key).unwrap();
    let opening = ring::aead::LessSafeKey::new(unbound);
    let mut buf = sealed.to_vec();
    let nonce = ring::aead::Nonce::assume_unique_for_key(*nonce);
    match opening.open_in_place(nonce, ring::aead::Aad::empty(), &mut buf) {
        Ok(plain) => Some(plain.to_vec()),
        Err(_) => None,
    }
}

/// The format marker that opens every sealed stream: "RBK" and format
/// version 1.
pub open spec fn format_marker() -> Seq<u8> {
    seq![0x52u8, 0x42u8, 0x4bu8, 0x01u8]
}

/// The nonce of chunk `index`.
pub open spec fn nonce_of(index: u64) -> Seq<u8> {
    spec_u64_to_le_bytes(index) + seq![0u8, 0u8, 0u8, 0u8]
}

/// The record that carries sealed chunk `sealed` under index `index`.
pub open spec fn frame(index: u64, sealed: Seq<u8>) -> Seq<u8> {
    spec_u64_to_le_bytes(index) + spec_u32_to_le_bytes(sealed.len() as u32) + sealed
}

/// The format marker, to be written before the first record of a stream.
pub fn marker_bytes() -> (r: Vec<u8>)
    ensures
        r@ == format_marker(),
{
    let r: Vec<u8> = vec![0x52u8, 0x42u8, 0x4bu8, 0x01u8];
    proof {
        assert(r@ =~= format_marker());
    }
    r
}

/// Computes the nonce of chunk `index`.
pub fn nonce_for(index: u64) -> (r: [u8; 12])
    ensures
        r@ == nonce_of(index),
{
    let b = u64_to_le_bytes(index);
    let r: [u8; 12] = [b[0], b[1], b[2], b[3], b[4], b[5], b[6], b[7], 0, 0, 0, 0];
    proof {
        assert(r@ =~= nonce_of(index));
    }
    r
}

/// Distinct chunk indices give distinct nonces: no two chunks sealed in one
/// session share a nonce.
pub proof fn lemma_nonces_distinct(i: u64, j: u64)
    requires
        i != j,
    ensures
        nonce_of(i) != nonce_of(j),
{
    lemma_auto_spec_u64_to_from_le_bytes();
    assert(nonce_of(i).subrange(0, 8) =~= spec_u64_to_le_bytes(i));
    assert(nonce_of(j).subrange(0, 8) =~= spec_u64_to_le_bytes(j));
}


/// Length of the next chunk when `rest` bytes remain and chunks hold `chunk`.
pub open spec fn chunk_len(rest: nat, chunk: nat) -> nat {
    if rest < chunk {
        rest
    } else {
        chunk
    }
}

/// `p` cut into consecutive chunks of `chunk` bytes, the last one shorter.
pub open spec fn chunks_of(p: Seq<u8>, chunk: nat) -> Seq<Seq<u8>>
    decreases p.len(),
{
    if p.len() == 0 || chunk == 0 {
        seq![]
    } else {
        let n = chunk_len(p.len(), chunk);
        seq![p.take(n as int)] + chunks_of(p.skip(n as int), chunk)
    }
}

/// A plaintext of `n` bytes makes one record per started chunk: `n / chunk`
/// rounded up.
pub proof fn lemma_chunk_count(p: Seq<u8>, chunk: nat)
    requires
        chunk > 0,
    ensures
        chunks_of(p, chunk).len() == (p.len() + chunk - 1) / chunk as int,
    decreases p.len(),
{
    let len = p.len() as int;
    let c = chunk as int;
    if len == 0 {
        assert((c - 1) / c == 0) by (nonlinear_arith)
            requires
                c > 0,
        ;
    } else {
        let n = chunk_len(p.len(), chunk);
        lemma_chunk_count(p.skip(n as int), chunk);
        assert(chunks_of(p, chunk).len() == 1 + chunks_of(p.skip(n as int), chunk).len());
        if len <= c {
            assert((len + c - 1) / c == 1) by (nonlinear_arith)
                requires
                    0 < len <= c,
            ;
            assert((0 + c - 1) / c == 0) by (nonlinear_arith)
                requires
                    c > 0,
            ;
        } else {
            assert((len + c - 1) / c == 1 + (len - c + c - 1) / c) by (nonlinear_arith)
                requires
                    len > c > 0,
            ;
        }
    }
}

/// Each chunk, sealed under the nonce of its position, is 16 bytes (the tag)
/// longer than the chunk.
pub open spec fn sealed_lengths_hold(key: Seq<u8>, chunks: Seq<Seq<u8>>) -> bool {
    forall|j: int|
        0 <= j < chunks.len() ==> (#[trigger] aead_seal(key, nonce_of(j as u64), chunks[j])).len()
            == chunks[j].len() + TAG_LEN
}

/// Each chunk sealed under the nonce of its position.
pub open spec fn seal_all(key: Seq<u8>, chunks: Seq<Seq<u8>>) -> Seq<Seq<u8>> {
    Seq::new(chunks.len(), |k: int| aead_seal(key, nonce_of(k as u64), chunks[k]))
}

/// The records of sealed chunks `units`, numbered from `first`.
pub open spec fn records_of(units: Seq<Seq<u8>>, first: nat) -> Seq<u8>
    decreases units.len(),
{
    if units.len() == 0 {
        seq![]
    } else {
        frame(first as u64, units[0]) + records_of(units.drop_first(), first + 1)
    }
}

/// The sealed stream of plaintext `p` under `key`, with chunks of `chunk` bytes.
pub open spec fn sealed_stream(key: Seq<u8>, p: Seq<u8>, chunk: nat) -> Seq<u8> {
    format_marker() + records_of(seal_all(key, chunks_of(p, chunk)), 0)
}

/// `r` with `prefix` put in front of its plaintext; errors pass unchanged.
pub open spec fn prepend(prefix: Seq<u8>, r: Result<Seq<u8>, CipherError>) -> Result<Seq<u8>, CipherError> {
    match r {
        Ok(rest) => Ok(prefix + rest),
        Err(e) => Err(e),
    }
}

/// Parses and opens the records of `s`, the first of which must carry index
/// `index`; each next record must carry the next index.
pub open spec fn open_records(key: Seq<u8>, s: Seq<u8>, index: nat) -> Result<Seq<u8>, CipherError>
    decreases s.len(),
{
    if s.len() == 0 {
        Ok(seq![])
    } else if s.len() < RECORD_HEADER_LEN {
        Err(CipherError::IntegrityViolation)
    } else {
        let idx = spec_u64_from_le_bytes(s.subrange(0, 8));
        let len = spec_u32_from_le_bytes(s.subrange(8, 12)) as int;
        if idx as nat != index || s.len() < RECORD_HEADER_LEN + len {
            Err(CipherError::IntegrityViolation)
        } else {
            match aead_open(key, nonce_of(idx), s.subrange(12, 12 + len)) {
                None => Err(CipherError::DecryptionFailed),
                Some(p) => prepend(p, open_records(key, s.skip(12 + len), index + 1)),
            }
        }
    }
}

/// What decrypting `s` under `key` gives.
pub open spec fn open_stream(key: Seq<u8>, s: Seq<u8>) -> Result<Seq<u8>, CipherError> {
    if key.len() != KEY_LEN {
        Err(CipherError::InvalidKey)
    } else if s.len() < MARKER_LEN || s.take(MARKER_LEN as int) != format_marker() {
        Err(CipherError::IntegrityViolation)
    } else {
        open_records(key, s.skip(MARKER_LEN as int), 0)
    }
}

/// The view of an executable result.
pub open spec fn result_view(r: Result<Vec<u8>, CipherError>) -> Result<Seq<u8>, CipherError> {
    match r {
        Ok(v) => Ok(v@),
        Err(e) => Err(e),
    }
}

/// Appending a sealed chunk appends its record.
proof fn lemma_records_push(units: Seq<Seq<u8>>, u: Seq<u8>, first: nat)
    ensures
        records_of(units.push(u), first) == records_of(units, first) + frame(
            (first + units.len()) as u64,
            u,
        ),
    decreases units.len(),
{
    if units.len() == 0 {
        assert(units.push(u).drop_first() =~= units);
        assert(records_of(units, first + 1) =~= Seq::<u8>::empty());
        assert(records_of(units.push(u), first) =~= frame(first as u64, u));
    } else {
        assert(units.push(u).drop_first() =~= units.drop_first().push(u));
        lemma_records_push(units.drop_first(), u, first + 1);
        assert(records_of(units.push(u), first) =~= records_of(units, first) + frame(
            (first + units.len()) as u64,
            u,
        ));
    }
}

/// The header of a record reads back the index and length it was written with.
proof fn lemma_frame_parts(index: u64, sealed: Seq<u8>, rest: Seq<u8>)
    requires
        sealed.len() <= u32::MAX,
    ensures
        ({
            let s = frame(index, sealed) + rest;
            &&& s.len() >= RECORD_HEADER_LEN + sealed.len()
            &&& spec_u64_from_le_bytes(s.subrange(0, 8)) == index
            &&& spec_u32_from_le_bytes(s.subrange(8, 12)) as int == sealed.len()
            &&& s.subrange(12, 12 + sealed.len() as int) == sealed
            &&& s.skip(12 + sealed.len() as int) == rest
        }),
{
    lemma_auto_spec_u64_to_from_le_bytes();
    lemma_auto_spec_u32_to_from_le_bytes();
    let s = frame(index, sealed) + rest;
    let lb = spec_u64_to_le_bytes(index);
    let ls = spec_u32_to_le_bytes(sealed.len() as u32);
    assert(s.subrange(0, 8) =~= lb);
    assert(s.subrange(8, 12) =~= ls);
    assert(s.subrange(12, 12 + sealed.len() as int) =~= sealed);
    assert(s.skip(12 + sealed.len() as int) =~= rest);
}

/// Records of chunks that all authenticate open to the concatenation of their
/// plaintexts.
proof fn lemma_open_records_of(
    key: Seq<u8>,
    units: Seq<Seq<u8>>,
    plains: Seq<Seq<u8>>,
    first: nat,
)
    requires
        units.len() == plains.len(),
        first + units.len() <= u64::MAX + 1,
        forall|k: int|
            0 <= k < units.len() ==> (#[trigger] units[k]).len() <= u32::MAX && aead_open(
                key,
                nonce_of((first + k) as u64),
                units[k],
            ) == Some(plains[k]),
    ensures
        open_records(key, records_of(units, first), first) == Ok::<Seq<u8>, CipherError>(plains.flatten()),
    decreases units.len(),
{
    if units.len() == 0 {
        assert(records_of(units, first) =~= seq![]);
    } else {
        let rest = records_of(units.drop_first(), first + 1);
        assert(units[0].len() <= u32::MAX && aead_open(key, nonce_of((first + 0) as u64), units[0]) == Some(plains[0]));
        lemma_frame_parts(first as u64, units[0], rest);
        assert forall|k: int| 0 <= k < units.drop_first().len() implies (#[trigger] units.drop_first()[k]).len() <= u32::MAX && aead_open(
                key,
                nonce_of((first + 1 + k) as u64),
                units.drop_first()[k],
            ) == Some(plains.drop_first()[k]) by {
            assert(units.drop_first()[k] == units[k + 1]);
            assert((first + 1 + k) == first + (k + 1));
        }
        lemma_open_records_of(key, units.drop_first(), plains.drop_first(), first + 1);
        assert(first as u64 as nat == first);
    }
}

/// Tamper detection: in a stream of well-formed records whose chunks before
/// chunk `k` authenticate, a chunk `k` that fails authentication makes the
/// whole stream fail with `DecryptionFailed`, and no plaintext comes out.
pub proof fn lemma_tampered_chunk_fails(key: Seq<u8>, units: Seq<Seq<u8>>, k: int)
    requires
        key.len() == KEY_LEN,
        0 <= k < units.len(),
        units.len() <= u64::MAX,
        forall|j: int| 0 <= j < units.len() ==> (#[trigger] units[j]).len() <= u32::MAX,
        forall|j: int|
            0 <= j < k ==> (#[trigger] aead_open(key, nonce_of(j as u64), units[j])) is Some,
        aead_open(key, nonce_of(k as u64), units[k]) is None,
    ensures
        open_stream(key, format_marker() + records_of(units, 0)) == Err::<Seq<u8>, CipherError>(
            CipherError::DecryptionFailed,
        ),
{
    let s = format_marker() + records_of(units, 0);
    assert(s.take(MARKER_LEN as int) =~= format_marker());
    assert(s.skip(MARKER_LEN as int) =~= records_of(units, 0));
    lemma_tampered_records(key, units, k, 0);
}

proof fn lemma_tampered_records(key: Seq<u8>, units: Seq<Seq<u8>>, k: int, first: nat)
    requires
        0 <= k < units.len(),
        first + units.len() <= u64::MAX + 1,
        forall|j: int| 0 <= j < units.len() ==> (#[trigger] units[j]).len() <= u32::MAX,
        forall|j: int|
            0 <= j < k ==> (#[trigger] aead_open(key, nonce_of((first + j) as u64), units[j])) is Some,
        aead_open(key, nonce_of((first + k) as u64), units[k]) is None,
    ensures
        open_records(key, records_of(units, first), first) == Err::<Seq<u8>, CipherError>(
            CipherError::DecryptionFailed,
        ),
    decreases units.len(),
{
    let rest = records_of(units.drop_first(), first + 1);
    assert(units[0].len() <= u32::MAX);
    lemma_frame_parts(first as u64, units[0], rest);
    assert(first as u64 as nat == first);
    if k == 0 {
        assert((first + 0) as u64 == first as u64);
    } else {
        assert(aead_open(key, nonce_of((first + 0) as u64), units[0]) is Some);
        assert forall|j: int| 0 <= j < units.drop_first().len() implies (#[trigger] units.drop_first()[j]).len() <= u32::MAX by {
            assert(units.drop_first()[j] == units[j + 1]);
        }
        assert forall|j: int| 0 <= j < k - 1 implies (#[trigger] aead_open(key, nonce_of((first + 1 + j) as u64), units.drop_first()[j])) is Some by {
            assert(units.drop_first()[j] == units[j + 1]);
            assert((first + 1 + j) == first + (j + 1));
            assert(aead_open(key, nonce_of((first + (j + 1)) as u64), units[j + 1]) is Some);
        }
        assert(units.drop_first()[k - 1] == units[k]);
        assert((first + 1 + (k - 1)) == first + k);
        lemma_tampered_records(key, units.drop_first(), k - 1, first + 1);
    }
}

/// An encryption session: the sole owner of the chunk counter, so that each
/// chunk sealed under the session's key gets the next index, and with it a
/// nonce that no earlier chunk of the session had.
pub struct SealSession {
    key: Vec<u8>,
    next: u64,
}

impl SealSession {
    /// The session's key.
    pub closed spec fn key(&self) -> Seq<u8> {
        self.key@
    }

    /// The index that the next sealed chunk gets.
    pub closed spec fn next_index(&self) -> nat {
        self.next as nat
    }

    /// The session's key has the right length.
    pub closed spec fn wf(&self) -> bool {
        self.key@.len() == KEY_LEN
    }

    /// Starts a session under `key`, at chunk index 0.
    pub fn new(key: &[u8]) -> (r: Result<SealSession, CipherError>)
        ensures
            key@.len() != KEY_LEN ==> r == Err::<SealSession, CipherError>(CipherError::InvalidKey),
            key@.len() == KEY_LEN ==> (r matches Ok(session) && session.wf() && session.key() == key@
                && session.next_index() == 0),
    {
        if key.len() != KEY_LEN {
            return Err(CipherError::InvalidKey);
        }
        Ok(SealSession { key: slice_to_vec(key), next: 0 })
    }

    /// The number of chunks sealed so far, which is the index of the next one.
    pub fn chunks_sealed(&self) -> (r: u64)
        ensures
            r as nat == self.next_index(),
    {
        self.next
    }

    /// Seals `chunk` as the next chunk of the session and returns its record.
    pub fn seal_next(&mut self, chunk: &[u8]) -> (r: Vec<u8>)
        requires
            old(self).wf(),
            chunk@.len() <= CHUNK_SIZE,
            old(self).next_index() < u64::MAX,
        ensures
            final(self).wf(),
            final(self).key() == old(self).key(),
            final(self).next_index() == old(self).next_index() + 1,
            r@ == frame(
                old(self).next_index() as u64,
                aead_seal(old(self).key(), nonce_of(old(self).next_index() as u64), chunk@),
            ),
            aead_open(
                old(self).key(),
                nonce_of(old(self).next_index() as u64),
                aead_seal(old(self).key(), nonce_of(old(self).next_index() as u64), chunk@),
            ) == Some(chunk@),
            aead_seal(old(self).key(), nonce_of(old(self).next_index() as u64), chunk@).len()
                == chunk@.len() + TAG_LEN,
    {
        let index = self.next;
        let nonce = nonce_for(index);
        let mut sealed = seal_chunk(self.key.as_slice(), &nonce, chunk);
        let mut record = u64_to_le_bytes(index);
        let mut len_bytes = u32_to_le_bytes(sealed.len() as u32);
        record.append(&mut len_bytes);
        record.append(&mut sealed);
        self.next = index + 1;
        record
    }
}

/// Encrypts `plaintext` under `key` in chunks of `chunk_size` bytes.
pub fn encrypt_chunked(plaintext: &[u8], key: &[u8], chunk_size: usize) -> (r: Result<Vec<u8>, CipherError>)
    requires
        0 < chunk_size <= CHUNK_SIZE,
    ensures
        key@.len() != KEY_LEN ==> r == Err::<Vec<u8>, CipherError>(CipherError::InvalidKey),
        key@.len() == KEY_LEN ==> (r matches Ok(s) && s@ == sealed_stream(key@, plaintext@, chunk_size as nat)),
        key@.len() == KEY_LEN ==> (r matches Ok(s) && open_stream(key@, s@) == Ok::<Seq<u8>, CipherError>(plaintext@)),
        key@.len() == KEY_LEN ==> sealed_lengths_hold(key@, chunks_of(plaintext@, chunk_size as nat)),
{
    let mut session = match SealSession::new(key) {
        Ok(session) => session,
        Err(e) => return Err(e),
    };
    let mut out: Vec<u8> = marker_bytes();
    let mut pos: usize = 0;
    let ghost c = chunk_size as nat;
    let ghost mut done: Seq<Seq<u8>> = seq![];
    proof {
        assert(out@ =~= format_marker() + records_of(seal_all(key@, done), 0));
        assert(plaintext@.skip(0) =~= plaintext@);
        assert(done + chunks_of(plaintext@, c) =~= chunks_of(plaintext@, c));
        assert(done.flatten() =~= plaintext@.take(0));
    }
    while pos < plaintext.len()
        invariant
            0 < chunk_size <= CHUNK_SIZE,
            c == chunk_size as nat,
            key@.len() == KEY_LEN,
            session.wf(),
            session.key() == key@,
            session.next_index() == done.len(),
            pos <= plaintext@.len(),
            done.len() <= pos,
            done + chunks_of(plaintext@.skip(pos as int), c) == chunks_of(plaintext@, c),
            out@ == format_marker() + records_of(seal_all(key@, done), 0),
            done.flatten() == plaintext@.take(pos as int),
            forall|k: int|
                0 <= k < done.len() ==> (#[trigger] done[k]).len() <= CHUNK_SIZE && aead_open(
                    key@,
                    nonce_of(k as u64),
                    aead_seal(key@, nonce_of(k as u64), done[k]),
                ) == Some(done[k]) && aead_seal(key@, nonce_of(k as u64), done[k]).len()
                    == done[k].len() + TAG_LEN,
        decreases plaintext.len() - pos,
    {
        let n: usize = if plaintext.len() - pos < chunk_size {
            plaintext.len() - pos
        } else {
            chunk_size
        };
        let piece = slice_subrange(plaintext, pos, pos + n);
        let ghost before = done;
        let ghost rest = plaintext@.skip(pos as int);
        let mut record = session.seal_next(piece);
        out.append(&mut record);
        proof {
            done = done.push(piece@);
            assert(n as nat == chunk_len(rest.len(), c));
            assert(rest.take(n as int) =~= piece@);
            assert(rest.skip(n as int) =~= plaintext@.skip(pos + n));
            assert(chunks_of(rest, c) == seq![piece@] + chunks_of(plaintext@.skip(pos + n), c));
            assert(done + chunks_of(plaintext@.skip(pos + n), c) =~= before + chunks_of(rest, c));
            assert(seal_all(key@, done) =~= seal_all(key@, before).push(
                aead_seal(key@, nonce_of(before.len() as u64), piece@),
            ));
            lemma_records_push(seal_all(key@, before), aead_seal(key@, nonce_of(before.len() as u64), piece@), 0);
            assert(out@ =~= format_marker() + records_of(seal_all(key@, done), 0));
            before.lemma_flatten_push(piece@);
            assert(done.flatten() =~= plaintext@.take(pos + n));
            assert forall|k: int|
                0 <= k < done.len() implies (#[trigger] done[k]).len() <= CHUNK_SIZE && aead_open(
                    key@,
                    nonce_of(k as u64),
                    aead_seal(key@, nonce_of(k as u64), done[k]),
                ) == Some(done[k]) && aead_seal(key@, nonce_of(k as u64), done[k]).len()
                    == done[k].len() + TAG_LEN by {
                if k < before.len() {
                    assert(done[k] == before[k]);
                }
            }
        }
        pos = pos + n;
    }
    proof {
        assert(plaintext@.skip(pos as int) =~= Seq::<u8>::empty());
        assert(done =~= chunks_of(plaintext@, c));
        assert(plaintext@.take(pos as int) =~= plaintext@);
        let units = seal_all(key@, done);
        assert forall|k: int| 0 <= k < units.len() implies (#[trigger] units[k]).len() <= u32::MAX && aead_open(
                key@,
                nonce_of((0 + k) as u64),
                units[k],
            ) == Some(done[k]) by {
            assert((0 + k) as u64 == k as u64);
            assert(done[k].len() <= CHUNK_SIZE);
        }
        lemma_open_records_of(key@, units, done, 0);
        assert forall|j: int| 0 <= j < done.len() implies (#[trigger] aead_seal(key@, nonce_of(j as u64), done[j])).len()
            == done[j].len() + TAG_LEN by {
            assert(done[j].len() <= CHUNK_SIZE);
        }
        assert(out@.take(MARKER_LEN as int) =~= format_marker());
        assert(out@.skip(MARKER_LEN as int) =~= records_of(units, 0));
    }
    Ok(out)
}

/// Encrypts `plaintext` under `key` in chunks of 10 MiB.
pub fn encrypt_data(plaintext: &[u8], key: &[u8]) -> (r: Result<Vec<u8>, CipherError>)
    ensures
        key@.len() != KEY_LEN ==> r == Err::<Vec<u8>, CipherError>(CipherError::InvalidKey),
        key@.len() == KEY_LEN ==> (r matches Ok(s) && s@ == sealed_stream(key@, plaintext@, CHUNK_SIZE as nat)),
        key@.len() == KEY_LEN ==> (r matches Ok(s) && open_stream(key@, s@) == Ok::<Seq<u8>, CipherError>(plaintext@)),
        key@.len() == KEY_LEN ==> sealed_lengths_hold(key@, chunks_of(plaintext@, CHUNK_SIZE as nat)),
{
    encrypt_chunked(plaintext, key, CHUNK_SIZE)
}

/// Decrypts sealed stream `sealed` under `key`.  Fails on the first problem
/// found; on failure no plaintext is returned, not even that of the chunks
/// that opened before it.
pub fn decrypt_data(sealed: &[u8], key: &[u8]) -> (r: Result<Vec<u8>, CipherError>)
    ensures
        result_view(r) == open_stream(key@, sealed@),
{
    if key.len() != KEY_LEN {
        return Err(CipherError::InvalidKey);
    }
    if sealed.len() < MARKER_LEN || sealed[0] != 0x52u8 || sealed[1] != 0x42u8 || sealed[2] != 0x4bu8
        || sealed[3] != 0x01u8 {
        proof {
            if sealed@.len() >= MARKER_LEN {
                assert(sealed@.take(MARKER_LEN as int) != format_marker()) by {
                    if sealed@.take(MARKER_LEN as int) == format_marker() {
                        assert(sealed@.take(MARKER_LEN as int)[0] == sealed@[0]);
                        assert(sealed@.take(MARKER_LEN as int)[1] == sealed@[1]);
                        assert(sealed@.take(MARKER_LEN as int)[2] == sealed@[2]);
                        assert(sealed@.take(MARKER_LEN as int)[3] == sealed@[3]);
                    }
                }
            }
        }
        return Err(CipherError::IntegrityViolation);
    }
    proof {
        assert(sealed@.take(MARKER_LEN as int) =~= format_marker());
    }
    let mut out: Vec<u8> = Vec::new();
    let mut pos: usize = MARKER_LEN;
    let mut index: u64 = 0;
    proof {
        assert(out@ + sealed@.skip(MARKER_LEN as int) =~= sealed@.skip(MARKER_LEN as int));
        assert(open_stream(key@, sealed@) =~~= prepend(out@, open_records(key@, sealed@.skip(pos as int), 0)))
            by {
            match open_records(key@, sealed@.skip(pos as int), 0) {
                Ok(x) => {
                    assert(out@ + x =~= x);
                },
                Err(_) => {},
            }
        }
    }
    while pos < sealed.len()
        invariant
            key@.len() == KEY_LEN,
            MARKER_LEN <= pos <= sealed@.len(),
            index as int <= pos as int,
            open_stream(key@, sealed@) == prepend(out@, open_records(key@, sealed@.skip(pos as int), index as nat)),
        decreases sealed.len() - pos,
    {
        let ghost s = sealed@.skip(pos as int);
        if sealed.len() - pos < RECORD_HEADER_LEN {
            return Err(CipherError::IntegrityViolation);
        }
        let idx = u64_from_le_bytes(slice_subrange(sealed, pos, pos + 8));
        let len = u32_from_le_bytes(slice_subrange(sealed, pos + 8, pos + 12));
        proof {
            assert(sealed@.subrange(pos as int, pos + 8) =~= s.subrange(0, 8));
            assert(sealed@.subrange(pos + 8, pos + 12) =~= s.subrange(8, 12));
        }
        if idx != index {
            return Err(CipherError::IntegrityViolation);
        }
        if sealed.len() - pos - RECORD_HEADER_LEN < len as usize {
            return Err(CipherError::IntegrityViolation);
        }
        let start = pos + RECORD_HEADER_LEN;
        let end = start + len as usize;
        let nonce = nonce_for(idx);
        let body = slice_subrange(sealed, start, end);
        proof {
            assert(body@ =~= s.subrange(12, 12 + len as int));
        }
        match open_chunk(key, &nonce, body) {
            None => {
                return Err(CipherError::DecryptionFailed);
            },
            Some(mut plain) => {
                let ghost before = out@;
                let ghost p = plain@;
                out.append(&mut plain);
                proof {
                    assert(s.skip(12 + len as int) =~= sealed@.skip(end as int));
                    match open_records(key@, sealed@.skip(end as int), (index + 1) as nat) {
                        Ok(x) => {
                            assert(before + (p + x) =~= out@ + x);
                        },
                        Err(_) => {},
                    }
                }
                pos = end;
                index = index + 1;
            },
        }
    }
    proof {
        assert(sealed@.skip(pos as int) =~= Seq::<u8>::empty());
        assert(out@ + Seq::<u8>::empty() =~= out@);
    }
    Ok(out)
}

/// Relies on rand's `random::<u8>`, which draws from the thread-local
/// cryptographically secure generator.
#[verifier::external_body]
fn random_byte() -> (r: u8) {
    rand::random::<u8>()
}

/// Draws a fresh 32-byte key from a cryptographically secure generator.
pub fn generate_key() -> (r: Vec<u8>)
    ensures
        r@.len() == KEY_LEN,
{
    let mut key: Vec<u8> = Vec::new();
    while key.len() < KEY_LEN
        invariant
            key@.len() <= KEY_LEN,
        decreases KEY_LEN - key@.len(),
    {
        key.push(random_byte());
    }
    key
}

} // verus!
