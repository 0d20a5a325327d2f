use vstd::prelude::*;
use md5::Digest;
use crate::text::{push_char, push_decimal, decimal_text};

verus! {

/// An MD5 hasher of the `md-5` crate. The hasher buffers and absorbs the bytes it is given;
/// its content, for the contracts, is the byte sequence it has absorbed (`md5_absorbed`).
#[verifier::external_body]
pub struct Md5State {
    inner: md5::Md5,
}

/// The bytes that an MD5 hasher has absorbed since it was created.
pub uninterp spec fn md5_absorbed(h: Md5State) -> Seq<u8>;

/// The MD5 digest of a byte sequence, its 16 bytes read as a big-endian integer.
pub uninterp spec fn md5_digest_of(data: Seq<u8>) -> u128;

/// Calls `Md5::new` (trait `digest::Digest`): a hasher that has absorbed nothing.
#[verifier::external_body]
fn md5_new() -> (h: Md5State)
    ensures
        md5_absorbed(h) == Seq::<u8>::empty(),
{
    Md5State { inner: md5::Md5::new() }
}

/// Calls `Md5::update` (trait `digest::Digest`): the hasher absorbs `data` after what it holds.
#[verifier::external_body]
fn md5_update(h: &mut Md5State, data: &[u8])
    ensures
        md5_absorbed(*final(h)) == md5_absorbed(*old(h)) + data@,
{
    h.inner.update(data)
}

/// Calls `Md5::finalize` (trait `digest::Digest`): the 16-byte MD5 digest of all absorbed bytes,
/// returned as a big-endian `u128`.
#[verifier::external_body]
fn md5_finalize(h: Md5State) -> (d: u128)
    ensures
        d == md5_digest_of(md5_absorbed(h)),
{
    let out = h.inner.finalize();
    let mut bytes = [0u8; 16];
    bytes.copy_from_slice(&out);
    u128::from_be_bytes(bytes)
}

/// Size of the blocks in which a file is read for hashing.
pub const READ_BLOCK_SIZE: usize = 65536;

/// Number of blocks at the start of a file that its partial hash takes in.
pub const PARTIAL_HASH_BLOCKS: usize = 3;

/// Number of bytes at the start of a file that its partial hash takes in.
pub const PARTIAL_HASH_BYTES: usize = PARTIAL_HASH_BLOCKS * READ_BLOCK_SIZE;

/// The content that a file's successive reads return: the reads before the first empty one
/// (the end of the file), joined.
pub open spec fn content_read(reads: Seq<Seq<u8>>) -> Seq<u8>
    decreases reads.len(),
{
    if reads.len() == 0 || reads[0].len() == 0 {
        Seq::empty()
    } else {
        reads[0] + content_read(reads.drop_first())
    }
}

/// Whether one of `reads` is empty, that is, the end of the file has been seen.
pub open spec fn end_reached(reads: Seq<Seq<u8>>) -> bool
    decreases reads.len(),
{
    if reads.len() == 0 {
        false
    } else if reads[0].len() == 0 {
        true
    } else {
        end_reached(reads.drop_first())
    }
}

/// The first `limit` bytes of `data` (all of it when shorter, or when there is no limit).
pub open spec fn leading_bytes(data: Seq<u8>, limit: Option<nat>) -> Seq<u8> {
    match limit {
        Some(l) => if data.len() <= l {
            data
        } else {
            data.take(l as int)
        },
        None => data,
    }
}

/// The bytes that are hashed when a file's successive reads return `reads`: the first `limit`
/// bytes of the content read.
pub open spec fn hashed_input(reads: Seq<Seq<u8>>, limit: Option<nat>) -> Seq<u8> {
    leading_bytes(content_read(reads), limit)
}

/// Whether hashing stops within `reads`: at the end of the file, or once `limit` bytes have
/// been taken in.
pub open spec fn reading_stops(reads: Seq<Seq<u8>>, limit: Option<nat>) -> bool {
    end_reached(reads) || (limit matches Some(l) && content_read(reads).len() >= l)
}

proof fn lemma_read_push(reads: Seq<Seq<u8>>, c: Seq<u8>)
    requires
        !end_reached(reads),
    ensures
        end_reached(reads.push(c)) == (c.len() == 0),
        content_read(reads.push(c)) == content_read(reads) + if c.len() == 0 {
            Seq::<u8>::empty()
        } else {
            c
        },
    decreases reads.len(),
{
    if reads.len() == 0 {
        assert(reads.push(c).drop_first() =~= Seq::<Seq<u8>>::empty());
        assert(reads.push(c)[0] == c);
        assert(content_read(Seq::<Seq<u8>>::empty()) == Seq::<u8>::empty());
        assert(!end_reached(Seq::<Seq<u8>>::empty()));
        assert(content_read(reads) == Seq::<u8>::empty());
        assert(c + Seq::<u8>::empty() =~= c);
        assert(Seq::<u8>::empty() + c =~= c);
        assert(Seq::<u8>::empty() + Seq::<u8>::empty() =~= Seq::<u8>::empty());
    } else {
        assert(reads.push(c).drop_first() =~= reads.drop_first().push(c));
        assert(reads.push(c)[0] == reads[0]);
        lemma_read_push(reads.drop_first(), c);
        let tail = if c.len() == 0 { Seq::<u8>::empty() } else { c };
        assert(reads[0] + (content_read(reads.drop_first()) + tail)
            =~= (reads[0] + content_read(reads.drop_first())) + tail);
    }
}

/// Law: a file of at most `limit` bytes is taken in whole by the partial hash, so its partial
/// and full digests are equal.
pub proof fn law_short_file_partial_equals_full(reads: Seq<Seq<u8>>, limit: nat)
    requires
        content_read(reads).len() <= limit,
    ensures
        hashed_input(reads, Some(limit)) == hashed_input(reads, None),
{
}

/// Law: the partial hash depends only on the first `limit` bytes of the content, whatever
/// sizes the reads had: two files whose contents agree on their first `limit` bytes, and are
/// both at least that long or both equal, are hashed the same.
pub proof fn law_partial_hash_depends_on_leading_bytes(reads1: Seq<Seq<u8>>, reads2: Seq<Seq<u8>>, limit: nat)
    requires
        content_read(reads1) == content_read(reads2) || (content_read(reads1).len() >= limit
            && content_read(reads2).len() >= limit && content_read(reads1).take(limit as int)
            == content_read(reads2).take(limit as int)),
    ensures
        hashed_input(reads1, Some(limit)) == hashed_input(reads2, Some(limit)),
{
    let c1 = content_read(reads1);
    let c2 = content_read(reads2);
    if c1 != c2 {
        if c1.len() == limit {
            assert(c1.take(limit as int) =~= c1);
        }
        if c2.len() == limit {
            assert(c2.take(limit as int) =~= c2);
        }
    }
}

/// The hashing of one file, fed with the file's successive reads: it takes in the content up
/// to the first empty read (the end of the file), at most its limit of bytes.
pub struct BlockHasher {
    state: Md5State,
    limit: Option<usize>,
    taken: usize,
    finished: bool,
    reads: Ghost<Seq<Seq<u8>>>,
}

impl BlockHasher {
    /// The reads fed so far.
    pub closed spec fn reads(&self) -> Seq<Seq<u8>> {
        self.reads@
    }

    /// The largest number of bytes taken in, if any.
    pub closed spec fn limit(&self) -> Option<nat> {
        match self.limit {
            Some(l) => Some(l as nat),
            None => None,
        }
    }

    pub closed spec fn wf(&self) -> bool {
        &&& md5_absorbed(self.state) == hashed_input(self.reads@, self.limit())
        &&& self.finished == reading_stops(self.reads@, self.limit())
        &&& !self.finished ==> (self.limit matches Some(l) ==> self.taken == content_read(self.reads@).len()
            && self.taken < l)
    }

    /// Whether the hashing takes in no more reads.
    pub closed spec fn is_finished(&self) -> bool {
        self.finished
    }

    /// A hashing that takes in the first `PARTIAL_HASH_BYTES` bytes of the file.
    pub fn for_partial_hash() -> (h: BlockHasher)
        ensures
            h.wf(),
            h.reads() == Seq::<Seq<u8>>::empty(),
            h.limit() == Some(PARTIAL_HASH_BYTES as nat),
            !h.is_finished(),
    {
        let h = BlockHasher { state: md5_new(), limit: Some(PARTIAL_HASH_BYTES), taken: 0, finished: false, reads: Ghost(Seq::empty()) };
        assert(hashed_input(Seq::<Seq<u8>>::empty(), h.limit()) =~= Seq::<u8>::empty());
        h
    }

    /// A hashing that takes in the whole file.
    pub fn for_full_hash() -> (h: BlockHasher)
        ensures
            h.wf(),
            h.reads() == Seq::<Seq<u8>>::empty(),
            h.limit() == None::<nat>,
            !h.is_finished(),
    {
        BlockHasher { state: md5_new(), limit: None, taken: 0, finished: false, reads: Ghost(Seq::empty()) }
    }

    /// Whether the hashing takes in no more reads.
    pub fn finished(&self) -> (r: bool)
        ensures
            r == self.is_finished(),
    {
        self.finished
    }

    /// Feeds the next read of the file; returns whether another read is wanted. Of a read that
    /// goes past the limit, only the bytes up to the limit are taken in.
    pub fn feed(&mut self, read: &[u8]) -> (more: bool)
        requires
            old(self).wf(),
            !old(self).is_finished(),
        ensures
            final(self).wf(),
            final(self).reads() == old(self).reads().push(read@),
            final(self).limit() == old(self).limit(),
            final(self).is_finished() == reading_stops(final(self).reads(), final(self).limit()),
            more == !final(self).is_finished(),
    {
        let ghost old_content = content_read(self.reads@);
        proof {
            lemma_read_push(self.reads@, read@);
            assert(hashed_input(self.reads@, self.limit()) == old_content);
        }
        if read.len() == 0 {
            self.finished = true;
            assert(old_content =~= old_content + Seq::<u8>::empty());
        } else {
            match self.limit {
                Some(l) => {
                    let remaining = l - self.taken;
                    let take = if read.len() < remaining { read.len() } else { remaining };
                    let part = &read[0..take];
                    md5_update(&mut self.state, part);
                    self.taken = self.taken + take;
                    if self.taken == l {
                        self.finished = true;
                    }
                    proof {
                        let new_content = old_content + read@;
                        if new_content.len() <= l {
                            assert(part@ =~= read@);
                        } else {
                            assert(new_content.take(l as int) =~= old_content + part@);
                        }
                    }
                },
                None => {
                    md5_update(&mut self.state, read);
                },
            }
        }
        self.reads = Ghost(self.reads@.push(read@));
        !self.finished
    }

    /// The MD5 digest of the bytes taken in.
    pub fn digest(self) -> (d: u128)
        requires
            self.wf(),
        ensures
            d == md5_digest_of(hashed_input(self.reads(), self.limit())),
    {
        md5_finalize(self.state)
    }
}

/// Byte `i` (0 for the most significant) of a digest stored as a big-endian `u128`.
pub open spec fn digest_byte(d: u128, i: int) -> u8 {
    ((d >> (((15 - i) * 8) as u32)) & 0xff) as u8
}

/// The first `n` bytes of digest `d` in decimal, separated by ", ".
pub open spec fn digest_bytes_text(d: u128, n: int) -> Seq<char>
    decreases n,
{
    if n <= 0 {
        Seq::empty()
    } else if n == 1 {
        decimal_text(digest_byte(d, 0))
    } else {
        digest_bytes_text(d, n - 1) + seq![',', ' '] + decimal_text(digest_byte(d, n - 1))
    }
}

/// The text of a digest: its 16 bytes in decimal, in square brackets, separated by ", "
/// (the debug form of a byte array).
pub open spec fn digest_text_of(d: u128) -> Seq<char> {
    seq!['['] + digest_bytes_text(d, 16) + seq![']']
}

/// The text of a digest, as a byte array is shown in debug form: "[1, 2, ..., 16]".
pub fn digest_text(d: u128) -> (s: String)
    ensures
        s@ == digest_text_of(d),
{
    let mut s = String::new();
    push_char(&mut s, '[');
    let mut i: usize = 0;
    while i < 16
        invariant
            i <= 16,
            s@ == seq!['['] + digest_bytes_text(d, i as int),
        decreases 16 - i,
    {
        let ghost before = s@;
        if i > 0 {
            push_char(&mut s, ',');
            push_char(&mut s, ' ');
        }
        let shift: u32 = ((15 - i) * 8) as u32;
        let b: u8 = ((d >> shift) & 0xff) as u8;
        push_decimal(&mut s, b);
        proof {
            assert(b == digest_byte(d, i as int));
            if i == 0 {
                assert(s@ =~= seq!['['] + digest_bytes_text(d, 1));
            } else {
                assert(s@ =~= seq!['['] + digest_bytes_text(d, i + 1));
            }
        }
        i = i + 1;
    }
    push_char(&mut s, ']');
    s
}

} // verus!
