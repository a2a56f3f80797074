//! Comparing a copy with its source by their SHA-256 digests.

use crate::fields::texts;
use crate::path::same_bytes;
use crate::text::{decimal, decimal_text};
use sha2::Digest;
use vstd::prelude::*;

verus! {

/// Larger files are not verified.
pub const VERIFICATION_SIZE_LIMIT: u64 = 10485760;

/// A SHA-256 computation of sha2.
#[verifier::external_type_specification]
#[verifier::external_body]
pub struct ExSha256(sha2::Sha256);

/// The bytes that a computation has taken in.
pub uninterp spec fn absorbed(h: sha2::Sha256) -> Seq<u8>;

/// The SHA-256 digest of some bytes.
pub uninterp spec fn sha256(bytes: Seq<u8>) -> Seq<u8>;

/// Starts a computation: `Sha256::new` of sha2. It has taken in nothing.
#[verifier::external_body]
pub(crate) fn sha_start() -> (h: sha2::Sha256)
    ensures
        absorbed(h) == Seq::<u8>::empty(),
{
    sha2::Sha256::new()
}

/// Takes in more bytes: `Sha256::update` of sha2. Where the cut between two
/// calls falls makes no difference.
#[verifier::external_body]
pub(crate) fn sha_update(h: &mut sha2::Sha256, bytes: &Vec<u8>)
    ensures
        absorbed(*final(h)) == absorbed(*old(h)) + bytes@,
{
    h.update(bytes.as_slice());
}

/// Ends a computation: `Sha256::finalize` of sha2. The digest is a function of
/// the bytes that were taken in, and 32 bytes long.
#[verifier::external_body]
pub(crate) fn sha_finish(h: sha2::Sha256) -> (r: Vec<u8>)
    ensures
        r@ == sha256(absorbed(h)),
        r@.len() == 32,
{
    h.finalize().to_vec()
}

/// Why a file cannot be hashed.
#[derive(Debug, Clone, Copy, PartialEq, Eq, Structural)]
pub struct TooLarge {
    /// The size of the file in bytes.
    pub file_size: u64,
}

impl TooLarge {
    /// The message of the error.
    pub open spec fn text(self) -> Seq<char> {
        "File too large for verification ("@ + decimal((self.file_size / 1048576) as nat)
            + "MB > 10MB limit)"@
    }

    /// The message of the error.
    pub fn message(&self) -> (r: String)
        ensures
            r@ == self.text(),
    {
        let mut r = "File too large for verification (".to_owned();
        r.append(decimal_text((self.file_size / 1_048_576) as u128).as_str());
        r.append("MB > 10MB limit)");
        r
    }
}

/// The bytes of some chunks one after the other.
pub open spec fn contents(chunks: Seq<Seq<u8>>) -> Seq<u8>
    decreases chunks.len(),
{
    if chunks.len() == 0 {
        Seq::empty()
    } else {
        contents(chunks.drop_last()) + chunks.last()
    }
}

/// The digest of a file that was read in chunks, unless its size is over the
/// limit.
pub fn hash_file(chunks: &Vec<Vec<u8>>, file_size: u64) -> (r: Result<Vec<u8>, TooLarge>)
    ensures
        match r {
            Ok(digest) => {
                &&& file_size <= VERIFICATION_SIZE_LIMIT
                &&& digest@ == sha256(contents(texts(chunks@)))
                &&& digest@.len() == 32
            },
            Err(e) => file_size > VERIFICATION_SIZE_LIMIT && e.file_size == file_size,
        },
{
    if file_size > VERIFICATION_SIZE_LIMIT {
        return Err(TooLarge { file_size });
    }
    let mut h = sha_start();
    let mut i: usize = 0;
    let ghost all = texts(chunks@);
    while i < chunks.len()
        invariant
            i <= chunks@.len(),
            all == texts(chunks@),
            absorbed(h) == contents(all.take(i as int)),
        decreases chunks@.len() - i,
    {
        sha_update(&mut h, &chunks[i]);
        i = i + 1;
        assert(all.take(i as int).drop_last() =~= all.take(i - 1));
        assert(all.take(i as int).last() == chunks@[i - 1]@);
    }
    assert(all.take(all.len() as int) =~= all);
    Ok(sha_finish(h))
}

/// Whether a copy passes: it has the digest of its source, or the file is over
/// the limit.
pub open spec fn passes(source: Seq<Seq<u8>>, dest: Seq<Seq<u8>>, file_size: u64) -> bool {
    file_size > VERIFICATION_SIZE_LIMIT || sha256(contents(source)) == sha256(contents(dest))
}

/// Whether a copy passes. A file over the limit passes unread.
pub fn verify_transfer(
    source: &Vec<Vec<u8>>,
    dest: &Vec<Vec<u8>>,
    file_size: u64,
) -> (r: Result<bool, TooLarge>)
    ensures
        r == Ok::<bool, TooLarge>(passes(texts(source@), texts(dest@), file_size)),
        file_size <= VERIFICATION_SIZE_LIMIT ==> (r == Ok::<bool, TooLarge>(true) <==> sha256(
            contents(texts(source@)),
        ) == sha256(contents(texts(dest@)))),
        file_size > VERIFICATION_SIZE_LIMIT ==> r == Ok::<bool, TooLarge>(true),
{
    if file_size > VERIFICATION_SIZE_LIMIT {
        return Ok(true);
    }
    let source_hash = match hash_file(source, file_size) {
        Ok(hash) => hash,
        Err(e) => {
            return Err(e);
        },
    };
    let dest_hash = match hash_file(dest, file_size) {
        Ok(hash) => hash,
        Err(e) => {
            return Err(e);
        },
    };
    Ok(same_bytes(&source_hash, &dest_hash))
}

/// Where a reading is cut makes no difference: the bytes of two lists of chunks
/// are those of the one and then of the other.
pub proof fn lemma_contents_add(a: Seq<Seq<u8>>, b: Seq<Seq<u8>>)
    ensures
        contents(a + b) == contents(a) + contents(b),
    decreases b.len(),
{
    if b.len() == 0 {
        assert(a + b =~= a);
        assert(contents(a) + contents(b) =~= contents(a));
    } else {
        lemma_contents_add(a, b.drop_last());
        assert((a + b).drop_last() =~= a + b.drop_last());
        assert(contents(a) + contents(b) =~= contents(a) + contents(b.drop_last()) + b.last());
    }
}

/// A copy with the bytes of its source passes, however the two were read.
pub proof fn lemma_equal_bytes_pass(source: Seq<Seq<u8>>, dest: Seq<Seq<u8>>, file_size: u64)
    requires
        contents(source) == contents(dest),
    ensures
        passes(source, dest, file_size),
{
}

/// All that was read counts: a chunk alone is its bytes, and with every chunk the
/// bytes grow by just those of the chunk.
pub proof fn lemma_every_chunk_counts(chunks: Seq<Seq<u8>>, chunk: Seq<u8>)
    ensures
        contents(Seq::<Seq<u8>>::empty()) == Seq::<u8>::empty(),
        contents(seq![chunk]) == chunk,
        contents(chunks.push(chunk)) == contents(chunks) + chunk,
        contents(chunks.push(chunk)).len() == contents(chunks).len() + chunk.len(),
{
    assert(chunks.push(chunk).drop_last() =~= chunks);
    assert(seq![chunk].drop_last() =~= Seq::<Seq<u8>>::empty());
    assert(Seq::<u8>::empty() + chunk =~= chunk);
    assert(contents(seq![chunk]) == contents(Seq::<Seq<u8>>::empty()) + chunk);
}

/// A copy of up to ten megabytes passes exactly where the digest of all its bytes
/// is that of all the bytes of its source; a larger one passes unread. In
/// particular no part of the two that is equal makes up for the rest.
pub proof fn lemma_digests_decide(source: Seq<Seq<u8>>, dest: Seq<Seq<u8>>, file_size: u64)
    ensures
        file_size <= 10 * 1024 * 1024 && sha256(contents(source)) != sha256(contents(dest))
            ==> !passes(source, dest, file_size),
        file_size <= 10 * 1024 * 1024 && passes(source, dest, file_size) ==> sha256(
            contents(source),
        ) == sha256(contents(dest)),
        sha256(contents(source)) == sha256(contents(dest)) ==> passes(source, dest, file_size),
        file_size > 10 * 1024 * 1024 ==> passes(source, dest, file_size),
{
}

/// What is told of a file that is too large to be verified is its size, in units of
/// 1048576 bytes.
pub proof fn lemma_too_large_told(why: TooLarge, units: u64)
    ensures
        1048576 * units <= why.file_size < 1048576 * (units + 1) ==> why.text()
            == "File too large for verification ("@ + decimal(units as nat) + "MB > 10MB limit)"@,
{
}

} // verus!
