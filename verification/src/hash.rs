//! A hash of a text that is the same in every run and on every machine.
use vstd::arithmetic::power::pow;
use vstd::prelude::*;
use vstd::utf8::encode_utf8;

use crate::text::{
    hexadecimal, hexadecimal_is_positional, hexadecimal_tells_numbers_apart, hexadecimal_text, shows,
};

verus! {

/// The hash of no bytes.
pub const OFFSET_BASIS: u64 = 0xcbf29ce484222325;

/// The factor by which the hash is multiplied for each byte.
pub const PRIME: u64 = 0x100000001b3;

/// The 64-bit FNV-1a hash: each byte is mixed in by exclusive or, then the hash
/// is multiplied by `PRIME` modulo 2^64.
pub open spec fn fnv1a(bytes: Seq<u8>) -> u64
    decreases bytes.len(),
{
    if bytes.len() == 0 {
        OFFSET_BASIS
    } else {
        ((fnv1a(bytes.drop_last()) ^ (bytes.last() as u64)) * PRIME % 0x1_0000_0000_0000_0000) as u64
    }
}

/// The hash of a text: sixteen hexadecimal digits.
pub open spec fn line_hash(text: Seq<char>) -> Seq<char> {
    hexadecimal(fnv1a(encode_utf8(text)) as nat, 16)
}

/// The FNV-1a hash of the UTF-8 bytes of a text, in sixteen hexadecimal digits.
pub fn stable_hash_hex(value: &str) -> (r: String)
    ensures
        r@ == line_hash(value@),
{
    let bytes = value.as_bytes();
    let mut hash: u64 = OFFSET_BASIS;
    for i in 0..bytes.len()
        invariant
            bytes@ == encode_utf8(value@),
            hash == fnv1a(bytes@.take(i as int)),
    {
        assert(bytes@.take(i + 1).drop_last() =~= bytes@.take(i as int));
        hash = hash ^ (bytes[i] as u64);
        hash = hash.wrapping_mul(PRIME);
    }
    assert(bytes@.take(bytes@.len() as int) =~= bytes@);
    hexadecimal_text(hash, 16)
}

/// Every byte of a text counts: the hash of no bytes is the offset basis, and each
/// byte behind others is mixed in by exclusive or before the hash is multiplied
/// modulo 2^64.
pub proof fn hash_takes_in_every_byte(bytes: Seq<u8>, byte: u8)
    ensures
        fnv1a(Seq::empty()) == 0xcbf29ce484222325u64,
        fnv1a(bytes.push(byte)) as int == ((fnv1a(bytes) ^ (byte as u64)) as int * 0x100000001b3int)
            % 0x1_0000_0000_0000_0000int,
{
    assert(bytes.push(byte).drop_last() =~= bytes);
}

/// The hash of a text is the one of all its UTF-8 bytes, in sixteen digits.
pub proof fn line_hash_shows_the_whole_hash(text: Seq<char>)
    ensures
        line_hash(text).len() == 16,
        forall|i: int|
            0 <= i < 16 ==> shows(
                #[trigger] line_hash(text)[i],
                fnv1a(encode_utf8(text)) as int / pow(16, (15 - i) as nat) % 16,
            ),
{
    hexadecimal_is_positional(fnv1a(encode_utf8(text)) as nat, 16);
}

/// Two texts have the same sixteen digits exactly if the hashes of their bytes are
/// the same.
pub proof fn line_hash_tells_hashes_apart(text: Seq<char>, other: Seq<char>)
    ensures
        line_hash(text) == line_hash(other) <==> fnv1a(encode_utf8(text)) == fnv1a(
            encode_utf8(other),
        ),
{
    if line_hash(text) == line_hash(other) {
        assert(pow(16, 16) == 0x1_0000_0000_0000_0000) by {
            reveal(pow);
            reveal_with_fuel(pow, 17);
        }
        hexadecimal_tells_numbers_apart(
            fnv1a(encode_utf8(text)) as nat,
            fnv1a(encode_utf8(other)) as nat,
            16,
        );
    }
}

} // verus!
