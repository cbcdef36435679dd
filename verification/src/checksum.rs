//! Checksum engine: one digest over a whole unit's bytes, rendered as a
//! 32-character lowercase hexadecimal string.

use vstd::prelude::*;
use vstd::string::StringExecFns;
use crate::codec::Md5Record;
use crate::text::push_char;

verus! {

/// The MD5 digest of a byte sequence: a function of the bytes alone.
pub uninterp spec fn md5_of(data: Seq<u8>) -> Seq<u8>;

/// Relies on `md5::compute`: the 16-byte digest depends on the input
/// bytes alone.
#[verifier::external_body]
fn md5_digest(data: &[u8]) -> (r: Vec<u8>)
    ensures
        r@ == md5_of(data@),
        r@.len() == 16,
{
    md5::compute(data).0.to_vec()
}

/// The character for one hexadecimal digit, lowercase.
pub open spec fn hex_digit_char(d: nat) -> char {
    if d == 0 {
        '0'
    } else if d == 1 {
        '1'
    } else if d == 2 {
        '2'
    } else if d == 3 {
        '3'
    } else if d == 4 {
        '4'
    } else if d == 5 {
        '5'
    } else if d == 6 {
        '6'
    } else if d == 7 {
        '7'
    } else if d == 8 {
        '8'
    } else if d == 9 {
        '9'
    } else if d == 10 {
        'a'
    } else if d == 11 {
        'b'
    } else if d == 12 {
        'c'
    } else if d == 13 {
        'd'
    } else if d == 14 {
        'e'
    } else {
        'f'
    }
}

/// The lowercase hexadecimal rendering of a byte sequence: two digit
/// characters per byte, high nibble first.
pub open spec fn hex_of(bytes: Seq<u8>) -> Seq<char> {
    Seq::new(
        bytes.len() * 2,
        |i: int|
            if i % 2 == 0 {
                hex_digit_char((bytes[i / 2] / 16) as nat)
            } else {
                hex_digit_char((bytes[i / 2] % 16) as nat)
            },
    )
}

fn hex_digit_char_exec(d: u8) -> (c: char)
    requires
        d < 16,
    ensures
        c == hex_digit_char(d as nat),
{
    if d == 0 {
        '0'
    } else if d == 1 {
        '1'
    } else if d == 2 {
        '2'
    } else if d == 3 {
        '3'
    } else if d == 4 {
        '4'
    } else if d == 5 {
        '5'
    } else if d == 6 {
        '6'
    } else if d == 7 {
        '7'
    } else if d == 8 {
        '8'
    } else if d == 9 {
        '9'
    } else if d == 10 {
        'a'
    } else if d == 11 {
        'b'
    } else if d == 12 {
        'c'
    } else if d == 13 {
        'd'
    } else if d == 14 {
        'e'
    } else {
        'f'
    }
}

/// Renders bytes as their lowercase hexadecimal string.
pub fn to_hex(bytes: &Vec<u8>) -> (r: String)
    ensures
        r@ == hex_of(bytes@),
{
    let mut s = String::new();
    let mut i: usize = 0;
    while i < bytes.len()
        invariant
            i <= bytes@.len(),
            s@.len() == 2 * i,
            forall|k: int| 0 <= k < s@.len() ==> s@[k] == hex_of(bytes@)[k],
        decreases bytes@.len() - i,
    {
        let b = bytes[i];
        push_char(&mut s, hex_digit_char_exec(b / 16));
        push_char(&mut s, hex_digit_char_exec(b % 16));
        i += 1;
    }
    proof {
        assert(s@ =~= hex_of(bytes@));
    }
    s
}

/// Builds the checksum record of one unit from its name, its full
/// content as bytes, and the hashing mode.
pub fn get_md5_record(file_name: &str, content: &[u8], binary: bool) -> (r: Md5Record)
    ensures
        r@.file_name == file_name@,
        r@.binary == binary,
        r@.hash == hex_of(md5_of(content@)),
{
    let digest = md5_digest(content);
    let hash = to_hex(&digest);
    Md5Record { file_name: String::from_str(file_name), binary, hash }
}

} // verus!
