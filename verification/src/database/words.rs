//! Columns as rows of 32-bit words, each four bytes in little-endian order.
use vstd::bytes::{
    lemma_auto_spec_u32_to_from_le_bytes, spec_u32_from_le_bytes, spec_u32_to_le_bytes,
    u32_from_le_bytes, u32_to_le_bytes,
};
use vstd::prelude::*;
use vstd::slice::slice_subrange;

verus! {

/// The bytes of a row of words.
pub open spec fn le_words(words: Seq<u32>) -> Seq<u8>
    decreases words.len(),
{
    if words.len() == 0 {
        Seq::empty()
    } else {
        le_words(words.drop_last()) + spec_u32_to_le_bytes(words.last())
    }
}

/// The word at position `at` of bytes that hold whole words.
pub open spec fn word_at(bytes: Seq<u8>, at: int) -> u32 {
    spec_u32_from_le_bytes(bytes.subrange(4 * at, 4 * at + 4))
}

/// The row of words that bytes hold, where their number is a multiple of
/// four.
pub open spec fn words_of(bytes: Seq<u8>) -> Option<Seq<u32>> {
    if bytes.len() % 4 == 0 {
        Some(Seq::new((bytes.len() / 4) as nat, |at: int| word_at(bytes, at)))
    } else {
        None
    }
}

/// A row of `n` words takes `4 * n` bytes.
pub proof fn lemma_le_words_len(words: Seq<u32>)
    ensures
        le_words(words).len() == 4 * words.len(),
    decreases words.len(),
{
    lemma_auto_spec_u32_to_from_le_bytes();
    if words.len() > 0 {
        lemma_le_words_len(words.drop_last());
    }
}

/// Each word of a row is read back from its bytes.
pub proof fn lemma_word_at(words: Seq<u32>, at: int)
    requires
        0 <= at < words.len(),
    ensures
        word_at(le_words(words), at) == words[at],
    decreases words.len(),
{
    lemma_auto_spec_u32_to_from_le_bytes();
    lemma_le_words_len(words.drop_last());
    let head = le_words(words.drop_last());
    let tail = spec_u32_to_le_bytes(words.last());
    if at == words.len() - 1 {
        assert((head + tail).subrange(4 * at, 4 * at + 4) =~= tail);
    } else {
        lemma_word_at(words.drop_last(), at);
        assert((head + tail).subrange(4 * at, 4 * at + 4) =~= head.subrange(4 * at, 4 * at + 4));
    }
}

/// A row of words is read back from its bytes.
pub proof fn lemma_words_round_trip(words: Seq<u32>)
    ensures
        words_of(le_words(words)) == Some(words),
{
    lemma_le_words_len(words);
    assert forall|at: int| 0 <= at < words.len() implies word_at(le_words(words), at)
        == words[at] by {
        lemma_word_at(words, at);
    }
    assert(words_of(le_words(words)).unwrap() =~= words);
}

/// The bytes of two rows in a row are the bytes of the rows joined.
pub proof fn lemma_le_words_add(a: Seq<u32>, b: Seq<u32>)
    ensures
        le_words(a + b) == le_words(a) + le_words(b),
    decreases b.len(),
{
    if b.len() == 0 {
        assert(a + b =~= a);
        assert(le_words(a) + le_words(b) =~= le_words(a));
    } else {
        lemma_le_words_add(a, b.drop_last());
        assert((a + b).drop_last() =~= a + b.drop_last());
        assert((a + b).last() == b.last());
        assert(le_words(a) + le_words(b.drop_last()) + spec_u32_to_le_bytes(b.last()) =~= le_words(
            a,
        ) + (le_words(b.drop_last()) + spec_u32_to_le_bytes(b.last())));
    }
}

/// Adds the bytes of a word to a buffer.
pub fn put_word(buffer: &mut Vec<u8>, word: u32)
    ensures
        final(buffer)@ == old(buffer)@ + spec_u32_to_le_bytes(word),
{
    let mut bytes = u32_to_le_bytes(word);
    buffer.append(&mut bytes);
}

/// The bytes of a row of words.
pub fn words_to_bytes(words: &Vec<u32>) -> (bytes: Vec<u8>)
    ensures
        bytes@ == le_words(words@),
{
    let mut bytes: Vec<u8> = Vec::new();
    let mut n: usize = 0;
    assert(words@.take(0) =~= Seq::<u32>::empty());
    while n < words.len()
        invariant
            n <= words.len(),
            bytes@ == le_words(words@.take(n as int)),
        decreases words.len() - n,
    {
        proof {
            assert(words@.take(n + 1).drop_last() =~= words@.take(n as int));
            assert(words@.take(n + 1).last() == words@[n as int]);
        }
        put_word(&mut bytes, words[n]);
        n = n + 1;
    }
    assert(words@.take(words.len() as int) =~= words@);
    bytes
}

/// The row of words that bytes hold, where their number is a multiple of
/// four.
pub fn bytes_to_words(bytes: &[u8]) -> (words: Option<Vec<u32>>)
    ensures
        match words {
            Some(words) => words_of(bytes@) == Some(words@),
            None => words_of(bytes@) is None,
        },
{
    if bytes.len() % 4 != 0 {
        return None;
    }
    let count = bytes.len() / 4;
    assert(4 * count == bytes@.len());
    let mut words: Vec<u32> = Vec::new();
    let mut n: usize = 0;
    while n < count
        invariant
            n <= count,
            4 * count == bytes@.len(),
            bytes@.len() <= usize::MAX,
            words@.len() == n,
            forall|at: int| 0 <= at < n ==> words@[at] == word_at(bytes@, at),
        decreases count - n,
    {
        let word = u32_from_le_bytes(slice_subrange(bytes, 4 * n, 4 * n + 4));
        words.push(word);
        n = n + 1;
    }
    assert(words@ =~= words_of(bytes@).unwrap());
    Some(words)
}

} // verus!
