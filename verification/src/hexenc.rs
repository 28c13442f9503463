//! Lowercase hex encoding of address bytes, and the `0x`-prefixed
//! address strings built from it.

use vstd::prelude::*;

verus! {

/// The lowercase hex digit for a value below 16.
pub open spec fn hex_char(n: int) -> char {
    if n == 0 {
        '0'
    } else if n == 1 {
        '1'
    } else if n == 2 {
        '2'
    } else if n == 3 {
        '3'
    } else if n == 4 {
        '4'
    } else if n == 5 {
        '5'
    } else if n == 6 {
        '6'
    } else if n == 7 {
        '7'
    } else if n == 8 {
        '8'
    } else if n == 9 {
        '9'
    } else if n == 10 {
        'a'
    } else if n == 11 {
        'b'
    } else if n == 12 {
        'c'
    } else if n == 13 {
        'd'
    } else if n == 14 {
        'e'
    } else {
        'f'
    }
}

/// One byte as two lowercase hex digits, high nibble first.
pub open spec fn hex_of_byte(b: u8) -> Seq<char> {
    seq![hex_char(b as int / 16), hex_char(b as int % 16)]
}

/// A byte string as lowercase hex, two digits per byte.
pub open spec fn hex_of(s: Seq<u8>) -> Seq<char>
    decreases s.len(),
{
    if s.len() == 0 {
        Seq::empty()
    } else {
        hex_of(s.drop_last()) + hex_of_byte(s.last())
    }
}

/// An address string: `0x` followed by the lowercase hex of the bytes.
pub open spec fn addr_chars(s: Seq<u8>) -> Seq<char> {
    "0x"@ + hex_of(s)
}

/// Relies on hex::encode: the result is the input encoded as lowercase
/// hex, each byte as exactly two digits drawn from `0123456789abcdef`,
/// high nibble first, in input order.
#[verifier::external_body]
fn hex_encode(b: &Vec<u8>) -> (r: String)
    ensures
        r@ == hex_of(b@),
{
    hex::encode(b)
}

/// Builds the `0x`-prefixed lowercase hex string for an address.
pub fn address_string(b: &Vec<u8>) -> (r: String)
    ensures
        r@ == addr_chars(b@),
{
    let mut r = String::new();
    r.append("0x");
    let body = hex_encode(b);
    r.append(body.as_str());
    proof {
        assert(r@ == "0x"@ + hex_of(b@)) by {
            assert(Seq::<char>::empty() + "0x"@ == "0x"@);
        }
    }
    r
}

} // verus!
