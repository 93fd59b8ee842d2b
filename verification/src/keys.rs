//! Raw key material as plain bytes, and its hex rendering.

use vstd::prelude::*;

verus! {

/// A keypair held as raw bytes, 32 each.
pub struct KeyPair {
    pub secret: Vec<u8>,
    pub public: Vec<u8>,
}

/// Hex digit for a value below 16, lower case.
pub open spec fn spec_hex_digit(c: u8) -> char {
    if c == 0 { '0' }
    else if c == 1 { '1' }
    else if c == 2 { '2' }
    else if c == 3 { '3' }
    else if c == 4 { '4' }
    else if c == 5 { '5' }
    else if c == 6 { '6' }
    else if c == 7 { '7' }
    else if c == 8 { '8' }
    else if c == 9 { '9' }
    else if c == 10 { 'a' }
    else if c == 11 { 'b' }
    else if c == 12 { 'c' }
    else if c == 13 { 'd' }
    else if c == 14 { 'e' }
    else { 'f' }
}

pub fn get_hex_digit(c: u8) -> (r: char)
    requires
        c < 16,
    ensures
        r == spec_hex_digit(c),
{
    if c == 0 { '0' }
    else if c == 1 { '1' }
    else if c == 2 { '2' }
    else if c == 3 { '3' }
    else if c == 4 { '4' }
    else if c == 5 { '5' }
    else if c == 6 { '6' }
    else if c == 7 { '7' }
    else if c == 8 { '8' }
    else if c == 9 { '9' }
    else if c == 10 { 'a' }
    else if c == 11 { 'b' }
    else if c == 12 { 'c' }
    else if c == 13 { 'd' }
    else if c == 14 { 'e' }
    else { 'f' }
}

/// Lower-case hex rendering of a byte sequence, two digits per byte.
pub open spec fn spec_bytes_hex(b: Seq<u8>) -> Seq<char>
    decreases b.len(),
{
    if b.len() == 0 {
        Seq::<char>::empty()
    } else {
        seq![spec_hex_digit(b.first() / 16), spec_hex_digit(b.first() % 16)]
            + spec_bytes_hex(b.drop_first())
    }
}

/// Hex rendering of a key, two lower-case digits per byte.
pub fn key_to_hex(key: &Vec<u8>) -> (r: String)
    ensures
        r@ == spec_bytes_hex(key@),
{
    let mut result = String::new();
    let mut i: usize = 0;
    proof {
        assert(key@.skip(0) =~= key@);
    }
    while i < key.len()
        invariant
            0 <= i <= key@.len(),
            result@ + spec_bytes_hex(key@.skip(i as int)) =~= spec_bytes_hex(key@),
        decreases key@.len() - i,
    {
        let byte = key[i];
        proof {
            assert(key@.skip(i as int).first() == byte);
            assert(key@.skip(i as int).drop_first() =~= key@.skip(i + 1));
        }
        crate::strkit::push_char(&mut result, get_hex_digit(byte / 16));
        crate::strkit::push_char(&mut result, get_hex_digit(byte % 16));
        i += 1;
    }
    proof {
        assert(key@.skip(key@.len() as int).len() == 0);
        assert(result@ =~= spec_bytes_hex(key@));
    }
    result
}

} // verus!
