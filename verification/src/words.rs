//! Words and bytes as graphics interfaces exchange them.

use vstd::prelude::*;

verus! {

/// Little endian bytes of a word.
pub open spec fn little(word: u32) -> Seq<u8> {
    seq![
        (word % 256) as u8,
        (word / 256 % 256) as u8,
        (word / 0x1_0000 % 256) as u8,
        (word / 0x100_0000) as u8,
    ]
}

/// Big endian bytes of a word.
pub open spec fn big(word: u32) -> Seq<u8> {
    seq![
        (word / 0x100_0000) as u8,
        (word / 0x1_0000 % 256) as u8,
        (word / 256 % 256) as u8,
        (word % 256) as u8,
    ]
}

/// The bytes are those of the words in little endian order.
pub open spec fn little_bytes(bytes: Seq<u8>, words: Seq<u32>) -> bool {
    forall|i: int|
        0 <= i < words.len() ==> bytes.subrange(4 * i, 4 * i + 4) == little(#[trigger] words[i])
}

/// The bytes are those of the words in big endian order.
pub open spec fn big_bytes(bytes: Seq<u8>, words: Seq<u32>) -> bool {
    forall|i: int|
        0 <= i < words.len() ==> bytes.subrange(4 * i, 4 * i + 4) == big(#[trigger] words[i])
}

/// The bytes are those of the words in the byte order of the machine.
pub open spec fn native_bytes(bytes: Seq<u8>, words: Seq<u32>) -> bool {
    &&& bytes.len() == 4 * words.len()
    &&& little_bytes(bytes, words) || big_bytes(bytes, words)
}

/// Calls `bytemuck::cast_slice` from words to bytes: the memory of the words, and so their bytes
/// in the byte order of the machine. From words to bytes the cast always succeeds.
#[verifier::external_body]
fn cast_to_bytes(words: &[u32]) -> (bytes: Vec<u8>)
    ensures
        native_bytes(bytes@, words@),
{
    bytemuck::cast_slice::<u32, u8>(words).to_vec()
}

/// Calls `bytemuck::try_cast_slice` from bytes to words: the words that the memory holds in the
/// byte order of the machine. The cast fails where the bytes do not fill whole words, or do not
/// start at a multiple of four in memory; whether they do is not stated.
#[verifier::external_body]
fn try_cast_to_words(bytes: &[u8]) -> (words: Option<Vec<u32>>)
    ensures
        match words {
            Some(words) => native_bytes(bytes@, words@),
            None => true,
        },
        bytes@.len() % 4 != 0 ==> words is None,
{
    match bytemuck::try_cast_slice::<u8, u32>(bytes) {
        Ok(words) => Some(words.to_vec()),
        Err(_) => None,
    }
}

/// Push constants as they are handed to the device.
pub fn push_bytes(words: &Vec<u32>) -> (bytes: Vec<u8>)
    ensures
        native_bytes(bytes@, words@),
{
    cast_to_bytes(words.as_slice())
}

/// The words of a shader. `None` if the bytes are not aligned for words in memory.
pub fn spirv_u32(shader: &[u8]) -> (words: Option<Vec<u32>>)
    requires
        shader@.len() % 4 == 0,
    ensures
        match words {
            Some(words) => native_bytes(shader@, words@) && words@.len() == shader@.len() / 4,
            None => true,
        },
{
    try_cast_to_words(shader)
}

/// A shader that is handed out as words is the shader that was given: the bytes of the words,
/// in the same order, are its bytes.
pub proof fn law_words_keep_the_shader(shader: Seq<u8>, words: Seq<u32>, bytes: Seq<u8>)
    requires
        little_bytes(shader, words) && little_bytes(bytes, words) || big_bytes(shader, words)
            && big_bytes(bytes, words),
        shader.len() == 4 * words.len(),
        bytes.len() == 4 * words.len(),
    ensures
        bytes == shader,
{
    assert forall|k: int| 0 <= k < shader.len() implies bytes[k] == shader[k] by {
        let i = k / 4;
        assert(0 <= i < words.len());
        let w = words[i];
        assert(bytes.subrange(4 * i, 4 * i + 4) == shader.subrange(4 * i, 4 * i + 4));
        assert(bytes[k] == bytes.subrange(4 * i, 4 * i + 4)[k - 4 * i]);
        assert(shader[k] == shader.subrange(4 * i, 4 * i + 4)[k - 4 * i]);
    }
    assert(bytes =~= shader);
}

} // verus!
