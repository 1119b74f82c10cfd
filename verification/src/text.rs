//! Names as the containers store them: one byte per character.

use vstd::prelude::*;

verus! {

/// The characters that `bytes` stand for, one character per byte, each with
/// the code point that the byte holds.
pub open spec fn latin1(bytes: Seq<u8>) -> Seq<char> {
    Seq::new(bytes.len(), |i: int| bytes[i] as char)
}

/// Whether every character of `text` fits in one byte.
pub open spec fn is_latin1(text: Seq<char>) -> bool {
    forall|i: int| 0 <= i < text.len() ==> (#[trigger] text[i]) as u32 <= 0xff
}

/// The bytes that stand for `text`, one byte per character.
pub open spec fn latin1_bytes(text: Seq<char>) -> Seq<u8> {
    Seq::new(text.len(), |i: int| text[i] as u8)
}

/// Encoding undoes decoding.
pub proof fn lemma_latin1_round_trip(bytes: Seq<u8>)
    ensures
        is_latin1(latin1(bytes)),
        latin1_bytes(latin1(bytes)) == bytes,
{
    assert(latin1_bytes(latin1(bytes)) =~= bytes);
}

/// `String::push`: the string grows by the one character.
pub assume_specification[ String::push ](text: &mut String, ch: char)
    ensures
        final(text)@ == old(text)@.push(ch),
;

/// The string that `bytes` stand for.
pub fn decode_latin1(bytes: &[u8]) -> (text: String)
    ensures
        text@ == latin1(bytes@),
{
    let mut text = String::new();
    let mut i: usize = 0;
    while i < bytes.len()
        invariant
            i <= bytes@.len(),
            text@ == latin1(bytes@.subrange(0, i as int)),
        decreases bytes@.len() - i,
    {
        text.push(bytes[i] as char);
        i = i + 1;
        assert(text@ =~= latin1(bytes@.subrange(0, i as int)));
    }
    assert(bytes@.subrange(0, i as int) =~= bytes@);
    text
}

} // verus!
