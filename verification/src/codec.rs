use crate::error::Error;
use crate::wire::{
    le_bytes, lemma_le_bytes_len, lemma_le_round_trip_exact, lemma_pow256_values, put_u64,
    read_u64, uint_at,
};
use vstd::prelude::*;

verus! {

/// The tag of a record: the 64-bit number in its first eight bytes.
pub open spec fn tag_of(bytes: Seq<u8>) -> nat {
    uint_at(bytes, 0, 8)
}

/// Whether a record can be decoded as the type with the given tag and length:
/// it must hold the whole fixed layout of the type, and begin with its tag.
/// Bytes beyond the layout are ignored.
pub open spec fn header_check(bytes: Seq<u8>, tag: u64, len: nat) -> Result<(), Error> {
    if bytes.len() < len {
        Err(Error::TruncatedData)
    } else if tag_of(bytes) != tag {
        Err(Error::UnknownDiscriminator)
    } else {
        Ok(())
    }
}

/// The outcome of a decoding, as mathematical values.
pub open spec fn result_view<T: View>(outcome: Result<T, Error>) -> Result<T::V, Error> {
    match outcome {
        Ok(value) => Ok(value@),
        Err(e) => Err(e),
    }
}

/// Checks the length and the tag of a record.
pub fn check_header(bytes: &[u8], tag: u64, len: usize) -> (outcome: Result<(), Error>)
    requires
        len >= 8,
    ensures
        outcome == header_check(bytes@, tag, len as nat),
{
    if bytes.len() < len {
        return Err(Error::TruncatedData);
    }
    if read_u64(bytes, 0) != tag {
        return Err(Error::UnknownDiscriminator);
    }
    Ok(())
}

/// A record that begins with the encoding of a tag has that tag.
pub proof fn lemma_tag_round_trip(tag: u64, rest: Seq<u8>)
    ensures
        tag_of(le_bytes(tag as nat, 8) + rest) == tag,
        (le_bytes(tag as nat, 8) + rest).len() == 8 + rest.len(),
{
    lemma_pow256_values();
    lemma_le_round_trip_exact(tag as nat, 8);
    assert((le_bytes(tag as nat, 8) + rest).subrange(0, 8) =~= le_bytes(tag as nat, 8));
}

/// The byte strings of a list, one after the other.
pub open spec fn concat_all(parts: Seq<Seq<u8>>) -> Seq<u8>
    decreases parts.len(),
{
    if parts.len() == 0 {
        Seq::empty()
    } else {
        concat_all(parts.drop_last()) + parts.last()
    }
}

/// Parts of one width, joined, can be cut apart again at multiples of the width.
pub proof fn lemma_concat_all_chunk(parts: Seq<Seq<u8>>, width: nat, i: int)
    requires
        forall|j: int| 0 <= j < parts.len() ==> (#[trigger] parts[j]).len() == width,
        0 <= i < parts.len(),
    ensures
        concat_all(parts).len() == width * parts.len(),
        concat_all(parts).subrange(i * width, i * width + width) == parts[i],
    decreases parts.len(),
{
    lemma_concat_all_len(parts, width);
    let front = parts.drop_last();
    lemma_concat_all_len(front, width);
    assert(width * parts.len() == width * front.len() + width) by (nonlinear_arith)
        requires
            parts.len() == front.len() + 1,
    ;
    if i == parts.len() - 1 {
        assert(i * width == width * front.len()) by (nonlinear_arith)
            requires
                i == front.len(),
        ;
        assert(concat_all(parts).subrange(i * width, i * width + width) =~= parts[i]);
    } else {
        lemma_concat_all_chunk(front, width, i);
        assert(i * width + width <= width * front.len()) by (nonlinear_arith)
            requires
                0 <= i < front.len(),
        ;
        assert(concat_all(parts).subrange(i * width, i * width + width) =~= concat_all(
            front,
        ).subrange(i * width, i * width + width));
    }
}

/// Parts of one width, joined, are as long as the width times their number.
pub proof fn lemma_concat_all_len(parts: Seq<Seq<u8>>, width: nat)
    requires
        forall|j: int| 0 <= j < parts.len() ==> (#[trigger] parts[j]).len() == width,
    ensures
        concat_all(parts).len() == width * parts.len(),
    decreases parts.len(),
{
    if parts.len() > 0 {
        let front = parts.drop_last();
        lemma_concat_all_len(front, width);
        assert(width * parts.len() == width * front.len() + width) by (nonlinear_arith)
            requires
                parts.len() == front.len() + 1,
        ;
    } else {
        assert(width * parts.len() == 0) by (nonlinear_arith)
            requires
                parts.len() == 0,
        ;
    }
}

/// The encodings of a list of 64-bit words, each least significant byte first.
pub open spec fn word_parts(words: Seq<u64>) -> Seq<Seq<u8>> {
    Seq::new(words.len(), |i: int| le_bytes(words[i] as nat, 8))
}

/// A list of 64-bit words as bytes.
pub open spec fn words_bytes(words: Seq<u64>) -> Seq<u8> {
    concat_all(word_parts(words))
}

/// The `n` 64-bit words that begin at `at`.
pub open spec fn words_at(bytes: Seq<u8>, at: int, n: nat) -> Seq<u64> {
    Seq::new(n, |i: int| uint_at(bytes, at + 8 * i, 8) as u64)
}

/// A list of words takes eight bytes for each word.
pub proof fn lemma_words_bytes_len(words: Seq<u64>)
    ensures
        words_bytes(words).len() == 8 * words.len(),
{
    let parts = word_parts(words);
    assert forall|j: int| 0 <= j < parts.len() implies (#[trigger] parts[j]).len() == 8 by {
        lemma_le_bytes_len(words[j] as nat, 8);
    }
    lemma_concat_all_len(parts, 8);
}

/// Words written between a prefix and a suffix are read back as they were.
pub proof fn lemma_words_round_trip(whole: Seq<u8>, at: int, words: Seq<u64>)
    requires
        0 <= at,
        at + 8 * words.len() <= whole.len(),
        whole.subrange(at, at + 8 * words.len()) == words_bytes(words),
    ensures
        words_at(whole, at, words.len()) == words,
{
    let parts = word_parts(words);
    assert forall|j: int| 0 <= j < parts.len() implies (#[trigger] parts[j]).len() == 8 by {
        lemma_le_bytes_len(words[j] as nat, 8);
    }
    assert forall|i: int| 0 <= i < words.len() implies words_at(whole, at, words.len())[i]
        == words[i] by {
        lemma_concat_all_chunk(parts, 8, i);
        assert(whole.subrange(at + 8 * i, at + 8 * i + 8) =~= whole.subrange(
            at,
            at + 8 * words.len(),
        ).subrange(i * 8, i * 8 + 8));
        lemma_pow256_values();
        lemma_le_round_trip_exact(words[i] as nat, 8);
    }
    assert(words_at(whole, at, words.len()) =~= words);
}

/// Appends a list of 64-bit words, each least significant byte first.
pub fn put_words(out: &mut Vec<u8>, words: &[u64])
    ensures
        final(out)@ == old(out)@ + words_bytes(words@),
{
    let n: usize = words.len();
    let mut i: usize = 0;
    assert(word_parts(words@.subrange(0, 0)) =~= Seq::<Seq<u8>>::empty());
    assert(out@ =~= old(out)@ + words_bytes(words@.subrange(0, 0)));
    while i < n
        invariant
            i <= n == words@.len(),
            out@ == old(out)@ + words_bytes(words@.subrange(0, i as int)),
        decreases n - i,
    {
        let ghost before = out@;
        put_u64(out, words[i]);
        proof {
            let shorter = word_parts(words@.subrange(0, i as int));
            let longer = word_parts(words@.subrange(0, i + 1));
            assert(longer.drop_last() =~= shorter);
            assert(longer.last() == le_bytes(words@[i as int] as nat, 8));
            assert(out@ =~= old(out)@ + words_bytes(words@.subrange(0, i + 1)));
        }
        i += 1;
    }
    assert(words@.subrange(0, n as int) =~= words@);
}

/// The `n` 64-bit words that begin at `at`.
pub fn read_words(bytes: &[u8], at: usize, n: usize) -> (words: Vec<u64>)
    requires
        at + 8 * n <= bytes@.len(),
    ensures
        words@ == words_at(bytes@, at as int, n as nat),
{
    let len: usize = bytes.len();
    let mut words: Vec<u64> = Vec::new();
    let mut i: usize = 0;
    while i < n
        invariant
            i <= n,
            at + 8 * n <= len == bytes@.len(),
            words@.len() == i,
            forall|j: int| 0 <= j < i ==> words@[j] == uint_at(bytes@, at + 8 * j, 8) as u64,
        decreases n - i,
    {
        let word = read_u64(bytes, at + 8 * i);
        words.push(word);
        i += 1;
    }
    assert(words@ =~= words_at(bytes@, at as int, n as nat));
    words
}

} // verus!
