//! Small text building blocks: appending characters, decimal rendering
//! of counters, and left padding.

use vstd::prelude::*;
use vstd::string::StrSliceExecFns;
use vstd::string::StringExecFns;

verus! {

/// Relies on `String::push`: appends exactly the one given character.
#[verifier::external_body]
pub fn push_char(s: &mut String, c: char)
    ensures
        final(s)@ == old(s)@.push(c),
{
    s.push(c)
}

/// The character for one decimal digit.
pub open spec fn digit_char(d: nat) -> char {
    if d == 0 {
        '0'
    } else if d == 1 {
        '1'
    } else if d == 2 {
        '2'
    } else if d == 3 {
        '3'
    } else if d == 4 {
        '4'
    } else if d == 5 {
        '5'
    } else if d == 6 {
        '6'
    } else if d == 7 {
        '7'
    } else if d == 8 {
        '8'
    } else {
        '9'
    }
}

/// The decimal digit string of a number, most significant digit first.
pub open spec fn dec_chars(n: nat) -> Seq<char>
    decreases n,
{
    if n < 10 {
        seq![digit_char(n)]
    } else {
        dec_chars(n / 10).push(digit_char(n % 10))
    }
}

/// A run of space characters.
pub open spec fn spaces(n: nat) -> Seq<char> {
    Seq::new(n, |i: int| ' ')
}

/// Right-aligns a string in a column of the given width by prepending
/// spaces; a string already at least that wide is left unchanged.
pub open spec fn pad_left(s: Seq<char>, width: nat) -> Seq<char> {
    if s.len() >= width {
        s
    } else {
        spaces((width - s.len()) as nat) + s
    }
}

pub proof fn lemma_dec_chars_len_le(n: nat)
    ensures
        dec_chars(n).len() <= n + 1,
    decreases n,
{
    if n >= 10 {
        lemma_dec_chars_len_le(n / 10);
    }
}

fn digit_to_char(d: usize) -> (c: char)
    requires
        d < 10,
    ensures
        c == digit_char(d as nat),
{
    if d == 0 {
        '0'
    } else if d == 1 {
        '1'
    } else if d == 2 {
        '2'
    } else if d == 3 {
        '3'
    } else if d == 4 {
        '4'
    } else if d == 5 {
        '5'
    } else if d == 6 {
        '6'
    } else if d == 7 {
        '7'
    } else if d == 8 {
        '8'
    } else {
        '9'
    }
}

/// Renders a number as its decimal digit string.
pub fn usize_to_string(n: usize) -> (r: String)
    ensures
        r@ == dec_chars(n as nat),
    decreases n,
{
    if n < 10 {
        let mut s = String::new();
        push_char(&mut s, digit_to_char(n));
        proof {
            assert(s@ =~= dec_chars(n as nat));
        }
        s
    } else {
        let mut s = usize_to_string(n / 10);
        push_char(&mut s, digit_to_char(n % 10));
        s
    }
}

/// The number of decimal digits needed to print a number.
pub fn num_digits(n: usize) -> (r: usize)
    ensures
        r == dec_chars(n as nat).len(),
    decreases n,
{
    if n < 10 {
        1
    } else {
        proof {
            lemma_dec_chars_len_le((n / 10) as nat);
        }
        let d = num_digits(n / 10);
        d + 1
    }
}

/// Builds the given string right-aligned in a column of the given width.
pub fn pad_left_exec(digits: &String, width: usize) -> (r: String)
    ensures
        r@ == pad_left(digits@, width as nat),
{
    let dlen = digits.as_str().unicode_len();
    let mut s = String::new();
    if dlen < width {
        let pad = width - dlen;
        let mut j: usize = 0;
        while j < pad
            invariant
                j <= pad,
                s@ == spaces(j as nat),
            decreases pad - j,
        {
            push_char(&mut s, ' ');
            j += 1;
            proof {
                assert(s@ =~= spaces(j as nat));
            }
        }
    }
    s.append(digits.as_str());
    proof {
        assert(s@ =~= pad_left(digits@, width as nat));
    }
    s
}

} // verus!
