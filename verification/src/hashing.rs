//! Digests of content that arrives block by block.
use crate::outside::{absorbed, feed_hash, finish_hash, new_hash, sha256_hex, RunningHash, HASH_LIMIT};
use vstd::prelude::*;
use vstd::utf8::encode_utf8;

verus! {

/// The SHA-256 digest of content under way.
pub struct ContentDigest {
    hash: RunningHash,
    taken: u64,
}

impl ContentDigest {
    /// The content taken in so far.
    pub closed spec fn content(&self) -> Seq<u8> {
        absorbed(self.hash)
    }

    /// The count is that of the content, which SHA-256 can still count.
    pub closed spec fn wf(&self) -> bool {
        self.taken == self.content().len() && self.taken <= HASH_LIMIT
    }

    /// Starts with no content.
    pub fn new() -> (digest: ContentDigest)
        ensures
            digest.wf(),
            digest.content() == Seq::<u8>::empty(),
    {
        ContentDigest { hash: new_hash(), taken: 0 }
    }

    /// How many more bytes can be taken in.
    pub fn room(&self) -> (room: u64)
        requires
            self.wf(),
        ensures
            room == HASH_LIMIT - self.content().len(),
    {
        HASH_LIMIT - self.taken
    }

    /// Takes in the next block.
    pub fn feed(&mut self, block: &[u8])
        requires
            old(self).wf(),
            old(self).content().len() + block@.len() <= HASH_LIMIT,
        ensures
            final(self).wf(),
            final(self).content() == old(self).content() + block@,
    {
        feed_hash(&mut self.hash, block);
        self.taken = self.taken + block.len() as u64;
    }

    /// The digest of all content, in lower-case hexadecimal.
    pub fn finish(self) -> (text: String)
        requires
            self.wf(),
        ensures
            text@ == sha256_hex(self.content()),
            text@.len() == 64,
    {
        finish_hash(self.hash)
    }
}

/// The concatenation of `blocks`.
pub open spec fn joined_blocks(blocks: Seq<Vec<u8>>) -> Seq<u8>
    decreases blocks.len(),
{
    if blocks.len() == 0 {
        Seq::empty()
    } else {
        joined_blocks(blocks.drop_last()) + blocks.last()@
    }
}

/// The digest under way of all `blocks`.
pub(crate) fn digest_blocks(digest: ContentDigest, blocks: &Vec<Vec<u8>>) -> (full: ContentDigest)
    requires
        digest.wf(),
        digest.content() == Seq::<u8>::empty(),
        joined_blocks(blocks@).len() <= HASH_LIMIT,
    ensures
        full.wf(),
        full.content() == joined_blocks(blocks@),
{
    let mut digest = digest;
    let mut i: usize = 0;
    while i < blocks.len()
        invariant
            i <= blocks.len(),
            digest.wf(),
            joined_blocks(blocks@).len() <= HASH_LIMIT,
            digest.content() == joined_blocks(blocks@.take(i as int)),
        decreases blocks.len() - i,
    {
        proof {
            assert(blocks@.take(i + 1).drop_last() =~= blocks@.take(i as int));
            lemma_joined_prefix(blocks@, i + 1);
        }
        digest.feed(blocks[i].as_slice());
        i += 1;
    }
    assert(blocks@.take(i as int) =~= blocks@);
    digest
}

proof fn lemma_joined_prefix(blocks: Seq<Vec<u8>>, n: int)
    requires
        0 <= n <= blocks.len(),
    ensures
        joined_blocks(blocks.take(n)).len() <= joined_blocks(blocks).len(),
    decreases blocks.len(),
{
    if n == blocks.len() {
        assert(blocks.take(n) =~= blocks);
    } else {
        lemma_joined_prefix(blocks.drop_last(), n);
        assert(blocks.drop_last().take(n) =~= blocks.take(n));
    }
}

/// The digest of the UTF-8 bytes of `text`, in lower-case hexadecimal; none where they are more
/// than SHA-256 can count.
pub fn text_digest(text: &str) -> (digest: Option<String>)
    ensures
        match digest {
            Some(digest) => encode_utf8(text@).len() <= HASH_LIMIT && digest@ == sha256_hex(
                encode_utf8(text@),
            ) && digest@.len() == 64,
            None => encode_utf8(text@).len() > HASH_LIMIT,
        },
{
    let bytes = text.as_bytes();
    if bytes.len() as u64 > HASH_LIMIT {
        return None;
    }
    let mut running = ContentDigest::new();
    running.feed(bytes);
    assert(running.content() =~= encode_utf8(text@));
    Some(running.finish())
}

/// Content is the same however it is cut into blocks: what comes in two lists of blocks is the content
/// of the one and then that of the other.
pub proof fn lemma_blocks_are_joined(a: Seq<Vec<u8>>, b: Seq<Vec<u8>>, block: Vec<u8>)
    ensures
        joined_blocks(seq![block]) == block@,
        joined_blocks(a + b) == joined_blocks(a) + joined_blocks(b),
    decreases b.len(),
{
    reveal_with_fuel(joined_blocks, 2);
    assert(seq![block].drop_last() =~= Seq::<Vec<u8>>::empty());
    assert(Seq::<u8>::empty() + block@ =~= block@);
    if b.len() == 0 {
        assert(a + b =~= a);
        assert(joined_blocks(a) + joined_blocks(b) =~= joined_blocks(a));
    } else {
        lemma_blocks_are_joined(a, b.drop_last(), block);
        assert((a + b).drop_last() =~= a + b.drop_last());
        assert((joined_blocks(a) + joined_blocks(b.drop_last())) + b.last()@ =~= joined_blocks(a)
            + (joined_blocks(b.drop_last()) + b.last()@));
    }
}

} // verus!
