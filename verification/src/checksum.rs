use vstd::prelude::*;

use crate::error::Error;

verus! {

/// The BLAKE3 hash of a content.
pub uninterp spec fn blake3_of(content: Seq<u8>) -> Seq<u8>;

/// `blake3::hash`, as its 32 raw bytes. What it gives is named `blake3_of`.
#[verifier::external_body]
fn blake3_hash(content: &[u8]) -> (r: [u8; 32])
    ensures
        r@ == blake3_of(content@),
{
    *blake3::hash(content).as_bytes()
}

/// `blake3::Hasher`, which takes a content in pieces.
#[verifier::external_type_specification]
#[verifier::external_body]
pub struct ExHasher(blake3::Hasher);

/// The bytes that a hasher has taken so far.
pub uninterp spec fn absorbed(hasher: blake3::Hasher) -> Seq<u8>;

/// `blake3::Hasher::new`: a hasher that has taken nothing yet.
#[verifier::external_body]
fn hasher_new() -> (r: blake3::Hasher)
    ensures
        absorbed(r) == Seq::<u8>::empty(),
{
    blake3::Hasher::new()
}

/// `blake3::Hasher::update`: the hasher takes `piece` behind what it has.
#[verifier::external_body]
fn hasher_update(hasher: &mut blake3::Hasher, piece: &[u8])
    ensures
        absorbed(*final(hasher)) == absorbed(*old(hasher)) + piece@,
{
    hasher.update(piece);
}

/// `blake3::Hasher::finalize`, as its 32 raw bytes: the hash of all that the hasher
/// has taken, the same as `blake3::hash` gives of it at once.
#[verifier::external_body]
fn hasher_finalize(hasher: &blake3::Hasher) -> (r: [u8; 32])
    ensures
        r@ == blake3_of(absorbed(*hasher)),
{
    *hasher.finalize().as_bytes()
}

/// The hash of `content`.
pub fn content_hash(content: &[u8]) -> (r: [u8; 32])
    ensures
        r@ == blake3_of(content@),
{
    blake3_hash(content)
}

/// Hashes a content that comes in pieces.
pub struct ContentHasher {
    inner: blake3::Hasher,
}

impl View for ContentHasher {
    type V = Seq<u8>;

    closed spec fn view(&self) -> Seq<u8> {
        absorbed(self.inner)
    }
}

impl ContentHasher {
    /// A hasher that has seen nothing.
    pub fn new() -> (r: ContentHasher)
        ensures
            r@ == Seq::<u8>::empty(),
    {
        ContentHasher { inner: hasher_new() }
    }

    /// Takes the next piece.
    pub fn update(&mut self, piece: &[u8])
        ensures
            final(self)@ == old(self)@ + piece@,
    {
        hasher_update(&mut self.inner, piece);
    }

    /// The hash of all pieces together: how the content was cut does not matter.
    pub fn finish(&self) -> (r: [u8; 32])
        ensures
            r@ == blake3_of(self@),
    {
        hasher_finalize(&self.inner)
    }
}

/// Whether two hashes are equal.
pub fn same_hash(a: &[u8; 32], b: &[u8; 32]) -> (r: bool)
    ensures
        r == (a@ == b@),
{
    let mut i: usize = 0;
    while i < 32
        invariant
            i <= 32,
            forall|j: int| 0 <= j < i ==> a@[j] == b@[j],
        decreases 32 - i,
    {
        if a[i] != b[i] {
            return false;
        }
        i = i + 1;
    }
    assert(a@ =~= b@);
    true
}

/// What the comparison of two files with those sizes and hashes comes to.
pub open spec fn compared(
    a_size: u64,
    b_size: u64,
    a_hash: Result<[u8; 32], Error>,
    b_hash: Result<[u8; 32], Error>,
) -> Result<bool, Error> {
    if a_size != b_size {
        Ok(false)
    } else {
        match (a_hash, b_hash) {
            (Err(error), _) => Err(error),
            (Ok(_), Err(error)) => Err(error),
            (Ok(a), Ok(b)) => Ok(a@ == b@),
        }
    }
}

/// Whether two files have the same content: their sizes are equal and so are their
/// hashes. The hashes are only asked for where the sizes are equal; where one of them
/// could not be had, its error is handed on, that of `a` first.
pub fn files_identical(
    a_size: u64,
    b_size: u64,
    a_hash: Result<[u8; 32], Error>,
    b_hash: Result<[u8; 32], Error>,
) -> (r: Result<bool, Error>)
    ensures
        r == compared(a_size, b_size, a_hash, b_hash),
{
    if a_size != b_size {
        return Ok(false);
    }
    match a_hash {
        Err(error) => Err(error),
        Ok(a) => match b_hash {
            Err(error) => Err(error),
            Ok(b) => Ok(same_hash(&a, &b)),
        },
    }
}

/// Two files are taken for identical only where their sizes are equal and so are their
/// hashes; files of different sizes are different, though a hash could not be had. No error
/// is taken for an answer.
pub proof fn lemma_identical_means_size_and_hash(
    a_size: u64,
    b_size: u64,
    a_hash: Result<[u8; 32], Error>,
    b_hash: Result<[u8; 32], Error>,
)
    ensures
        compared(a_size, b_size, a_hash, b_hash) == Ok::<bool, Error>(true) <==> a_size == b_size
            && a_hash is Ok && b_hash is Ok && a_hash->Ok_0@ == b_hash->Ok_0@,
        a_size != b_size ==> compared(a_size, b_size, a_hash, b_hash) == Ok::<bool, Error>(false),
        a_size == b_size && a_hash is Err ==> compared(a_size, b_size, a_hash, b_hash) == Err::<
            bool,
            Error,
        >(a_hash->Err_0),
        a_size == b_size && a_hash is Ok && b_hash is Err ==> compared(
            a_size,
            b_size,
            a_hash,
            b_hash,
        ) == Err::<bool, Error>(b_hash->Err_0),
        a_size == b_size && a_hash is Ok && b_hash is Ok ==> compared(
            a_size,
            b_size,
            a_hash,
            b_hash,
        ) is Ok,
{
}

/// Which of two files comes first makes no difference where both hashes are known.
pub proof fn lemma_comparison_is_symmetric(
    a_size: u64,
    b_size: u64,
    a_hash: [u8; 32],
    b_hash: [u8; 32],
)
    ensures
        compared(a_size, b_size, Ok(a_hash), Ok(b_hash)) == compared(
            b_size,
            a_size,
            Ok(b_hash),
            Ok(a_hash),
        ),
        compared(a_size, a_size, Ok(a_hash), Ok(a_hash)) == Ok::<bool, Error>(true),
{
}

} // verus!
