//! Turning a program image (a byte stream) into the words of segment 0.
use vstd::prelude::*;

verus! {

/// The one way a program image can be rejected.
#[derive(Debug, Clone, Copy, PartialEq, Eq, Structural)]
pub enum LoadError {
    /// The byte count is not a multiple of four.
    MalformedInput,
}

/// The big-endian word made of four bytes, the first the most significant.
pub open spec fn be_word(b0: u8, b1: u8, b2: u8, b3: u8) -> u32 {
    (b0 as int * 0x0100_0000 + b1 as int * 0x0001_0000 + b2 as int * 0x0100 + b3 as int) as u32
}

/// The word made of the four bytes of `bytes` that start at `4 * i`.
pub open spec fn word_at(bytes: Seq<u8>, i: int) -> u32 {
    be_word(bytes[4 * i], bytes[4 * i + 1], bytes[4 * i + 2], bytes[4 * i + 3])
}

/// The words of a byte stream whose length is a multiple of four.
pub open spec fn words_of(bytes: Seq<u8>) -> Seq<u32> {
    Seq::new((bytes.len() / 4) as nat, |i: int| word_at(bytes, i))
}

/// The four big-endian bytes of a word.
pub open spec fn bytes_of_word(w: u32) -> Seq<u8> {
    seq![(w >> 24) as u8, ((w >> 16) & 0xff) as u8, ((w >> 8) & 0xff) as u8, (w & 0xff) as u8]
}

/// The concatenation of the big-endian bytes of each word.
pub open spec fn bytes_of_words(words: Seq<u32>) -> Seq<u8>
    decreases words.len(),
{
    if words.len() == 0 {
        Seq::empty()
    } else {
        bytes_of_words(words.drop_last()) + bytes_of_word(words.last())
    }
}

/// What loading a byte stream gives.
pub open spec fn load_spec(bytes: Seq<u8>) -> Result<Seq<u32>, LoadError> {
    if bytes.len() % 4 != 0 {
        Err(LoadError::MalformedInput)
    } else {
        Ok(words_of(bytes))
    }
}

proof fn lemma_be_word_bits(b0: u8, b1: u8, b2: u8, b3: u8)
    ensures
        be_word(b0, b1, b2, b3) == ((b0 as u32) << 24u32) | ((b1 as u32) << 16u32) | ((b2 as u32)
            << 8u32) | (b3 as u32),
{
    let w = be_word(b0, b1, b2, b3);
    assert(w == (b0 as int * 0x0100_0000 + b1 as int * 0x0001_0000 + b2 as int * 0x0100
        + b3 as int) as u32);
    assert((b0 as int * 0x0100_0000 + b1 as int * 0x0001_0000 + b2 as int * 0x0100
        + b3 as int) as u32 == ((b0 as u32) << 24u32) | ((b1 as u32) << 16u32) | ((b2 as u32)
        << 8u32) | (b3 as u32)) by (bit_vector);
}

proof fn lemma_word_bytes_round_trip(w: u32)
    ensures
        be_word(bytes_of_word(w)[0], bytes_of_word(w)[1], bytes_of_word(w)[2], bytes_of_word(w)[3])
            == w,
{
    let b = bytes_of_word(w);
    lemma_be_word_bits(b[0], b[1], b[2], b[3]);
    assert(((((w >> 24u32) as u8) as u32) << 24u32) | (((((w >> 16u32) & 0xffu32) as u8) as u32)
        << 16u32) | (((((w >> 8u32) & 0xffu32) as u8) as u32) << 8u32) | (((w & 0xffu32) as u8)
        as u32) == w) by (bit_vector);
}

/// Groups `bytes` into big-endian words. Fails exactly when the byte count
/// is not a multiple of four; an empty stream gives no words.
pub fn decode_words(bytes: &Vec<u8>) -> (r: Result<Vec<u32>, LoadError>)
    ensures
        match r {
            Ok(words) => load_spec(bytes@) == Ok::<Seq<u32>, LoadError>(words@),
            Err(e) => load_spec(bytes@) == Err::<Seq<u32>, LoadError>(e),
        },
{
    if bytes.len() % 4 != 0 {
        return Err(LoadError::MalformedInput);
    }
    let n: usize = bytes.len() / 4;
    let mut words: Vec<u32> = Vec::with_capacity(n);
    let mut i: usize = 0;
    while i < n
        invariant
            n == bytes@.len() / 4,
            bytes@.len() <= usize::MAX,
            bytes@.len() % 4 == 0,
            i <= n,
            words@ == Seq::new(i as nat, |k: int| word_at(bytes@, k)),
        decreases n - i,
    {
        assert(4 * i + 3 < bytes@.len());
        let b0 = bytes[4 * i];
        let b1 = bytes[4 * i + 1];
        let b2 = bytes[4 * i + 2];
        let b3 = bytes[4 * i + 3];
        proof {
            lemma_be_word_bits(b0, b1, b2, b3);
        }
        let w: u32 = ((b0 as u32) << 24u32) | ((b1 as u32) << 16u32) | ((b2 as u32) << 8u32)
            | (b3 as u32);
        words.push(w);
        i = i + 1;
        assert(words@ =~= Seq::new(i as nat, |k: int| word_at(bytes@, k)));
    }
    assert(words@ =~= words_of(bytes@));
    Ok(words)
}

proof fn lemma_bytes_of_words_len(words: Seq<u32>)
    ensures
        bytes_of_words(words).len() == 4 * words.len(),
    decreases words.len(),
{
    if words.len() > 0 {
        lemma_bytes_of_words_len(words.drop_last());
    }
}

proof fn lemma_bytes_of_words_index(words: Seq<u32>, i: int, j: int)
    requires
        0 <= i < words.len(),
        0 <= j < 4,
    ensures
        bytes_of_words(words).len() == 4 * words.len(),
        bytes_of_words(words)[4 * i + j] == bytes_of_word(words[i])[j],
    decreases words.len(),
{
    lemma_bytes_of_words_len(words);
    if i < words.len() - 1 {
        lemma_bytes_of_words_index(words.drop_last(), i, j);
    }
}

/// Loading the concatenated big-endian bytes of a word sequence gives back
/// that sequence.
pub proof fn lemma_load_of_encoded(words: Seq<u32>)
    ensures
        load_spec(bytes_of_words(words)) == Ok::<Seq<u32>, LoadError>(words),
{
    let bytes = bytes_of_words(words);
    lemma_bytes_of_words_len(words);
    assert forall|i: int| 0 <= i < words.len() implies word_at(bytes, i) == words[i] by {
        lemma_bytes_of_words_index(words, i, 0);
        lemma_bytes_of_words_index(words, i, 1);
        lemma_bytes_of_words_index(words, i, 2);
        lemma_bytes_of_words_index(words, i, 3);
        lemma_word_bytes_round_trip(words[i]);
    }
    assert(words_of(bytes) =~= words);
}

proof fn lemma_bytes_word_round_trip(b0: u8, b1: u8, b2: u8, b3: u8)
    ensures
        bytes_of_word(be_word(b0, b1, b2, b3)) == seq![b0, b1, b2, b3],
{
    lemma_be_word_bits(b0, b1, b2, b3);
    let w = be_word(b0, b1, b2, b3);
    assert((w >> 24) as u8 == b0 && ((w >> 16) & 0xff) as u8 == b1 && ((w >> 8) & 0xff) as u8
        == b2 && (w & 0xff) as u8 == b3) by (bit_vector)
        requires
            w == ((b0 as u32) << 24u32) | ((b1 as u32) << 16u32) | ((b2 as u32) << 8u32) | (
            b3 as u32),
    ;
    assert(bytes_of_word(w) =~= seq![b0, b1, b2, b3]);
}

/// Concatenating the big-endian bytes of the words that a byte stream loads
/// to gives back that stream.
pub proof fn lemma_encode_of_loaded(bytes: Seq<u8>)
    requires
        bytes.len() % 4 == 0,
    ensures
        load_spec(bytes) is Ok,
        bytes_of_words(load_spec(bytes)->Ok_0) == bytes,
{
    let words = words_of(bytes);
    lemma_bytes_of_words_len(words);
    assert forall|k: int| 0 <= k < bytes.len() implies #[trigger] bytes_of_words(words)[k]
        == bytes[k] by {
        let i = k / 4;
        let j = k % 4;
        lemma_bytes_of_words_index(words, i, j);
        lemma_bytes_word_round_trip(bytes[4 * i], bytes[4 * i + 1], bytes[4 * i + 2], bytes[4 * i
            + 3]);
        assert(k == 4 * i + j);
    }
    assert(bytes_of_words(words) =~= bytes);
}

} // verus!
