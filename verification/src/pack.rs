//! Buffer contents: lists of 32-bit and 16-bit words as the bytes that the GPU reads.
use vstd::prelude::*;

verus! {

/// Whether the four bytes from `at` on spell `word`, the lowest byte first when `little`, the
/// highest first otherwise.
pub open spec fn spells_word(bytes: Seq<u8>, at: int, word: u32, little: bool) -> bool {
    word == if little {
        bytes[at] + 0x100 * bytes[at + 1] + 0x1_0000 * bytes[at + 2] + 0x100_0000 * bytes[at + 3]
    } else {
        0x100_0000 * bytes[at] + 0x1_0000 * bytes[at + 1] + 0x100 * bytes[at + 2] + bytes[at + 3]
    }
}

/// Whether the two bytes from `at` on spell `half`.
pub open spec fn spells_half(bytes: Seq<u8>, at: int, half: u16, little: bool) -> bool {
    half == if little {
        bytes[at] + 0x100 * bytes[at + 1]
    } else {
        0x100 * bytes[at] + bytes[at + 1]
    }
}

/// Whether `bytes` is the list `words` in one byte order.
pub open spec fn holds_words(bytes: Seq<u8>, words: Seq<u32>, little: bool) -> bool {
    &&& bytes.len() == 4 * words.len()
    &&& forall|i: int|
        0 <= i < words.len() ==> spells_word(bytes, 4 * i, #[trigger] words[i], little)
}

/// Whether `bytes` is the list `halves` in one byte order.
pub open spec fn holds_halves(bytes: Seq<u8>, halves: Seq<u16>, little: bool) -> bool {
    &&& bytes.len() == 2 * halves.len()
    &&& forall|i: int|
        0 <= i < halves.len() ==> spells_half(bytes, 2 * i, #[trigger] halves[i], little)
}

/// Whether `bytes` is what the machine's memory holds for `words`.
pub open spec fn is_memory_of_words(bytes: Seq<u8>, words: Seq<u32>) -> bool {
    holds_words(bytes, words, true) || holds_words(bytes, words, false)
}

/// Whether `bytes` is what the machine's memory holds for `halves`.
pub open spec fn is_memory_of_halves(bytes: Seq<u8>, halves: Seq<u16>) -> bool {
    holds_halves(bytes, halves, true) || holds_halves(bytes, halves, false)
}

/// `bytemuck::cast_slice` from `u32` to `u8`: the memory of the list, read as bytes. Claimed
/// here: four bytes for each word, all words in the same byte order. Which of the two byte
/// orders the machine has is left open.
#[verifier::external_body]
pub(crate) fn words_to_bytes(words: &[u32]) -> (bytes: Vec<u8>)
    ensures
        is_memory_of_words(bytes@, words@),
{
    bytemuck::cast_slice::<u32, u8>(words).to_vec()
}

/// `bytemuck::cast_slice` from `u16` to `u8`: the memory of the list, read as bytes. Claimed
/// here: two bytes for each word, all words in the same byte order. Which of the two byte
/// orders the machine has is left open.
#[verifier::external_body]
pub(crate) fn halves_to_bytes(halves: &[u16]) -> (bytes: Vec<u8>)
    ensures
        is_memory_of_halves(bytes@, halves@),
{
    bytemuck::cast_slice::<u16, u8>(halves).to_vec()
}

/// Bytes of a buffer of 32-bit words.
pub fn word_bytes(words: &[u32]) -> (bytes: Vec<u8>)
    ensures
        is_memory_of_words(bytes@, words@),
{
    words_to_bytes(words)
}

/// Bytes of a buffer of 16-bit indices.
pub fn index_bytes(indices: &[u16]) -> (bytes: Vec<u8>)
    ensures
        is_memory_of_halves(bytes@, indices@),
{
    halves_to_bytes(indices)
}

/// A buffer determines its words: two lists with the same bytes in the same byte order are
/// the same list.
pub proof fn buffer_determines_words(
    bytes: Seq<u8>,
    first: Seq<u32>,
    second: Seq<u32>,
    little: bool,
)
    requires
        holds_words(bytes, first, little),
        holds_words(bytes, second, little),
    ensures
        first == second,
{
    assert forall|i: int| 0 <= i < first.len() implies first[i] == second[i] by {
        assert(spells_word(bytes, 4 * i, first[i], little));
        assert(spells_word(bytes, 4 * i, second[i], little));
    }
    assert(first =~= second);
}

/// A buffer determines its indices too.
pub proof fn buffer_determines_halves(
    bytes: Seq<u8>,
    first: Seq<u16>,
    second: Seq<u16>,
    little: bool,
)
    requires
        holds_halves(bytes, first, little),
        holds_halves(bytes, second, little),
    ensures
        first == second,
{
    assert forall|i: int| 0 <= i < first.len() implies first[i] == second[i] by {
        assert(spells_half(bytes, 2 * i, first[i], little));
        assert(spells_half(bytes, 2 * i, second[i], little));
    }
    assert(first =~= second);
}

/// The words determine their buffer: in one byte order there is one way to write them.
pub proof fn words_determine_the_buffer(
    words: Seq<u32>,
    first: Seq<u8>,
    second: Seq<u8>,
    little: bool,
    i: int,
)
    requires
        holds_words(first, words, little),
        holds_words(second, words, little),
        0 <= i < words.len(),
    ensures
        first.len() == 4 * words.len(),
        first[4 * i] == second[4 * i],
        first[4 * i + 1] == second[4 * i + 1],
        first[4 * i + 2] == second[4 * i + 2],
        first[4 * i + 3] == second[4 * i + 3],
        words[i] % 0x100 == if little {
            first[4 * i]
        } else {
            first[4 * i + 3]
        },
        words[i] / 0x100_0000 == if little {
            first[4 * i + 3]
        } else {
            first[4 * i]
        },
{
    let at = 4 * i;
    let word = words[i];
    assert(spells_word(first, at, word, little));
    assert(spells_word(second, at, word, little));
    if little {
        lemma_bytes_of_word(first[at], first[at + 1], first[at + 2], first[at + 3], word);
        lemma_bytes_of_word(second[at], second[at + 1], second[at + 2], second[at + 3], word);
    } else {
        lemma_bytes_of_word(first[at + 3], first[at + 2], first[at + 1], first[at], word);
        lemma_bytes_of_word(second[at + 3], second[at + 2], second[at + 1], second[at], word);
    }
}

proof fn lemma_bytes_of_word(a: u8, b: u8, c: u8, d: u8, word: u32)
    requires
        word == a + 0x100 * b + 0x1_0000 * c + 0x100_0000 * d,
    ensures
        a == word % 0x100,
        b == word / 0x100 % 0x100,
        c == word / 0x1_0000 % 0x100,
        d == word / 0x100_0000,
{
    assert(word / 0x100 == b + 0x100 * c + 0x1_0000 * d);
    assert(word / 0x1_0000 == c + 0x100 * d);
}

} // verus!
