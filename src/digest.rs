use sha3::Digest;
use vstd::prelude::*;
use vstd::slice::slice_subrange;

verus! {

/// The SHA3-256 digest of a byte sequence.
pub uninterp spec fn sha3_256_of(data: Seq<u8>) -> Seq<u8>;

/// The bytes that a hasher has absorbed since it was made.
pub uninterp spec fn hasher_input(h: ContentHasher) -> Seq<u8>;

/// A SHA3-256 hasher of the sha3 crate.
#[verifier::external_body]
pub struct ContentHasher {
    inner: sha3::Sha3_256,
}

impl ContentHasher {
    /// Relies on sha3's `Sha3_256::new`: a fresh hasher has absorbed nothing.
    #[verifier::external_body]
    fn start() -> (r: ContentHasher)
        ensures
            hasher_input(r) == Seq::<u8>::empty(),
    {
        ContentHasher { inner: sha3::Sha3_256::new() }
    }

    /// Relies on sha3's `Digest::update`: the chunk is appended to what the
    /// hasher has absorbed.
    #[verifier::external_body]
    fn absorb(&mut self, chunk: &[u8])
        ensures
            hasher_input(*final(self)) == hasher_input(*old(self)) + chunk@,
    {
        self.inner.update(chunk);
    }

    /// Relies on sha3's `Digest::finalize`: the 32-byte digest of everything
    /// absorbed.
    #[verifier::external_body]
    fn conclude(self) -> (r: Vec<u8>)
        ensures
            r@ == sha3_256_of(hasher_input(self)),
            r@.len() == 32,
    {
        self.inner.finalize().to_vec()
    }
}

/// Size of the chunks in which content is read and hashed.
pub const CHUNK_SIZE: usize = 4096;

/// A digest computed over content that arrives in chunks, so that memory
/// stays bounded whatever the size of the content.
pub struct HashStream {
    hasher: ContentHasher,
    count: u64,
}

impl View for HashStream {
    type V = Seq<u8>;

    /// The bytes fed so far.
    closed spec fn view(&self) -> Seq<u8> {
        hasher_input(self.hasher)
    }
}

impl HashStream {
    /// The count of bytes kept beside the hasher is right.
    pub closed spec fn wf(&self) -> bool {
        self.count as int == hasher_input(self.hasher).len()
    }

    /// A stream that has been fed nothing.
    pub fn new() -> (r: HashStream)
        ensures
            r.wf(),
            r@ == Seq::<u8>::empty(),
    {
        HashStream { hasher: ContentHasher::start(), count: 0 }
    }

    /// Feeds the next chunk of content.
    pub fn feed(&mut self, chunk: &[u8])
        requires
            old(self).wf(),
            old(self)@.len() + chunk@.len() <= u64::MAX,
        ensures
            final(self).wf(),
            final(self)@ == old(self)@ + chunk@,
    {
        self.hasher.absorb(chunk);
        self.count = self.count + chunk.len() as u64;
    }

    /// How many bytes have been fed.
    pub fn bytes_read(&self) -> (r: u64)
        requires
            self.wf(),
        ensures
            r == self@.len(),
    {
        self.count
    }

    /// The digest of everything fed.
    pub fn finish(self) -> (r: Vec<u8>)
        ensures
            r@ == sha3_256_of(self@),
            r@.len() == 32,
    {
        self.hasher.conclude()
    }
}

/// The digest of `data`, hashed chunk by chunk.
pub fn digest(data: &[u8]) -> (r: Vec<u8>)
    requires
        data@.len() <= u64::MAX,
    ensures
        r@ == sha3_256_of(data@),
        r@.len() == 32,
{
    let mut stream = HashStream::new();
    let n = data.len();
    let mut start: usize = 0;
    while start < n
        invariant
            n == data@.len(),
            n <= u64::MAX,
            start <= n,
            stream.wf(),
            stream@ == data@.subrange(0, start as int),
        decreases n - start,
    {
        let end = if n - start > CHUNK_SIZE {
            start + CHUNK_SIZE
        } else {
            n
        };
        let chunk = slice_subrange(data, start, end);
        stream.feed(chunk);
        assert(stream@ =~= data@.subrange(0, end as int));
        start = end;
    }
    assert(data@.subrange(0, n as int) =~= data@);
    stream.finish()
}

} // verus!
