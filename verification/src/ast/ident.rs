//! Names.

use vstd::prelude::*;
use vstd::string::StringSliceAdditionalSpecFns;
use vstd::utf8::{is_leading_byte_width_1, partial_valid_utf8_extend_ascii_block, valid_utf8};

use crate::lexer::pred::{is_word, is_word_byte};
use crate::lexer::token::word_kind;
use crate::lexer::TokenType;

verus! {

/// A name, borrowed from the source text.
pub type Ident<'a> = &'a str;

/// Whether the bytes `name` can stand as a name in source text: they are a
/// word that is no keyword.
pub open spec fn is_name(name: Seq<u8>) -> bool {
    is_word(name) && word_kind(name) == TokenType::Ident
}

/// `core::str::Utf8Error`, which `core::str::from_utf8` returns for bytes
/// that are no UTF-8. Nothing is read from it.
#[verifier::external_type_specification]
#[verifier::external_body]
pub struct ExUtf8Error(core::str::Utf8Error);

/// `core::str::from_utf8` succeeds on the bytes that are valid UTF-8 and on
/// no others, and the string that it returns has exactly those bytes.
pub assume_specification[ core::str::from_utf8 ](v: &[u8]) -> (res: Result<
    &str,
    core::str::Utf8Error,
>)
    ensures
        res is Ok <==> valid_utf8(v@),
        res matches Ok(s) ==> s.spec_bytes() == v@,
;

/// A word is valid UTF-8: each of its bytes is a character of its own.
pub proof fn lemma_word_is_utf8(word: Seq<u8>)
    requires
        is_word(word),
    ensures
        valid_utf8(word),
{
    assert forall|i: int| 0 <= i < word.len() implies #[trigger] is_leading_byte_width_1(
        word[i],
    ) by {
        assert(is_word_byte(word[i]));
        let b = word[i];
        assert(b < 0x80 ==> b & 0x80 == 0) by (bit_vector);
    }
    assert(word.subrange(0, 0) =~= Seq::<u8>::empty());
    partial_valid_utf8_extend_ascii_block(word, 0, word.len() as int);
    assert(word.subrange(0, word.len() as int) =~= word);
}

} // verus!
