//! Showing a credential without giving it away.

use vstd::prelude::*;
use vstd::string::*;
use vstd::utf8::{decode_utf8, encode_utf8, encode_utf8_decode_utf8, is_char_boundary};

verus! {

/// The three dots that stand for what is left out.
pub open spec fn dots() -> Seq<char> {
    seq!['.', '.', '.']
}

/// A credential can be masked where it is short enough to be shown whole, or
/// where its first five bytes and its last five bytes are whole characters.
pub open spec fn maskable(token: Seq<char>) -> bool {
    let bytes = encode_utf8(token);
    bytes.len() > 10 ==> is_char_boundary(bytes, 5) && is_char_boundary(bytes, bytes.len() - 5)
}

/// A credential as it is shown: whole where it has at most ten bytes, else
/// its first five bytes, three dots and its last five bytes.
pub open spec fn masked_of(token: Seq<char>) -> Seq<char> {
    let bytes = encode_utf8(token);
    if bytes.len() <= 10 {
        token
    } else {
        decode_utf8(bytes.subrange(0, 5)) + dots() + decode_utf8(
            bytes.subrange(bytes.len() - 5, bytes.len() as int),
        )
    }
}

/// Whether a credential can be masked.
pub fn can_mask(token: &str) -> (able: bool)
    ensures
        able == maskable(token@),
{
    let length: usize = token.as_bytes().len();
    if length <= 10 {
        true
    } else {
        token.is_char_boundary(5) && token.is_char_boundary(length - 5)
    }
}

/// A credential as it is shown: whole where it has at most ten bytes, else
/// its first five bytes, three dots and its last five bytes.
pub fn mask_token(token: &str) -> (masked: String)
    requires
        maskable(token@),
    ensures
        masked@ == masked_of(token@),
{
    let length: usize = token.as_bytes().len();
    if length <= 10 {
        return String::from_str(token);
    }
    proof {
        reveal_strlit("...");
        assert("..."@ =~= dots());
    }
    let head = token.split_at(5).0;
    let tail = token.split_at(length - 5).1;
    proof {
        encode_utf8_decode_utf8(head@);
        encode_utf8_decode_utf8(tail@);
    }
    String::from_str(head).concat("...").concat(tail)
}

} // verus!
