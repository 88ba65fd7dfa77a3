//! The image as a plain PPM text.
use vstd::prelude::*;
use vstd::string::StrSliceExecFns;
use crate::decimal::{decimal, push_decimal};
use crate::scalar::{is_negative, negative, ONE, ZERO};

verus! {

/// The header of a plain PPM file: the letter `P` and the digit `3`, a line
/// feed, width and height with a blank between, a line feed, the greatest
/// sample `255`, and a line feed.
pub open spec fn header(width: nat, height: nat) -> Seq<u8> {
    seq![80u8, 51u8, 10u8] + decimal(width) + seq![32u8] + decimal(height) + seq![
        10u8,
        50u8,
        53u8,
        53u8,
        10u8,
    ]
}

/// The three samples of a pixel in decimal, each with a blank behind it.
pub open spec fn pixel(r: u8, g: u8, b: u8) -> Seq<u8> {
    decimal(r as nat) + seq![32u8] + decimal(g as nat) + seq![32u8] + decimal(b as nat) + seq![
        32u8,
    ]
}

/// The first `n` pixels of the image, one after the other, where `samples`
/// holds red, green and blue of pixel `i` at `3 * i` and behind.
pub open spec fn pixels(samples: Seq<u8>, n: nat) -> Seq<u8>
    decreases n,
{
    if n == 0 {
        Seq::empty()
    } else {
        pixels(samples, (n - 1) as nat) + pixel(
            samples[3 * (n - 1)],
            samples[3 * (n - 1) + 1],
            samples[3 * (n - 1) + 2],
        )
    }
}

/// The whole file: header, then the pixels row after row.
pub open spec fn ppm_text(width: nat, height: nat, samples: Seq<u8>) -> Seq<u8> {
    header(width, height) + pixels(samples, width * height)
}

/// The letter in lower case, if it is an ASCII letter in upper case; else
/// the character itself.
pub open spec fn lower(c: char) -> char {
    if 'A' <= c && c <= 'Z' {
        ((c as u8) + 32) as char
    } else {
        c
    }
}

/// The text is `ppm` in some mix of upper and lower case.
pub open spec fn is_ppm(ext: Seq<char>) -> bool {
    ext.len() == 3 && lower(ext[0]) == 'p' && lower(ext[1]) == 'p' && lower(ext[2]) == 'm'
}

/// A sample brought into the range from zero to one: zero for a number
/// below zero, one for a number above one, and the number itself between.
pub open spec fn clamped(x: i64) -> i64 {
    if negative(x) {
        ZERO
    } else if x > ONE {
        ONE
    } else {
        x
    }
}

/// Brings the key of a sample into the range from zero to one; see
/// `clamped`.
pub fn clamp(x: i64) -> (k: i64)
    ensures
        k == clamped(x),
{
    if is_negative(x) {
        ZERO
    } else if x > ONE {
        ONE
    } else {
        x
    }
}

/// What comes out of `clamp` is a zero, a one or a number between them, and
/// such a number comes out as it went in.
pub proof fn lemma_clamped(x: i64)
    ensures
        -1 <= clamped(x) <= ONE,
        -1 <= x <= ONE ==> clamped(x) == x,
        clamped(clamped(x)) == clamped(x),
{
}

/// Writes the image as a PPM text; see `ppm_text`. The samples are those of
/// the pixels from the top row down, three for each pixel; what `samples`
/// holds beyond the image is left out.
pub fn encode_ppm(width: usize, height: usize, samples: &Vec<u8>) -> (text: Vec<u8>)
    requires
        3 * (width * height) <= samples.len(),
    ensures
        text@ == ppm_text(width as nat, height as nat, samples@),
{
    assert(width * height <= usize::MAX) by (nonlinear_arith)
        requires
            3 * (width * height) <= usize::MAX,
    ;
    let count: usize = width * height;
    let mut text: Vec<u8> = Vec::new();
    text.push(80);
    text.push(51);
    text.push(10);
    push_decimal(&mut text, width);
    text.push(32);
    push_decimal(&mut text, height);
    text.push(10);
    text.push(50);
    text.push(53);
    text.push(53);
    text.push(10);
    assert(text@ =~= header(width as nat, height as nat));
    let mut i: usize = 0;
    while i < count
        invariant
            i <= count,
            3 * count <= samples.len(),
            text@ == header(width as nat, height as nat) + pixels(samples@, i as nat),
        decreases count - i,
    {
        let ghost before = text@;
        push_decimal(&mut text, samples[3 * i] as usize);
        text.push(32);
        push_decimal(&mut text, samples[3 * i + 1] as usize);
        text.push(32);
        push_decimal(&mut text, samples[3 * i + 2] as usize);
        text.push(32);
        assert(text@ =~= before + pixel(
            samples@[3 * i as int],
            samples@[3 * i + 1],
            samples@[3 * i + 2],
        ));
        i += 1;
        assert(text@ =~= header(width as nat, height as nat) + pixels(samples@, i as nat));
    }
    text
}

/// Tells whether a file name's extension marks a PPM file: whether it is
/// `ppm`, upper and lower case taken as one.
pub fn has_ppm_extension(ext: &str) -> (b: bool)
    ensures
        b == is_ppm(ext@),
{
    if ext.unicode_len() != 3 {
        return false;
    }
    let a: char = ext.get_char(0);
    let b: char = ext.get_char(1);
    let c: char = ext.get_char(2);
    (a == 'p' || a == 'P') && (b == 'p' || b == 'P') && (c == 'm' || c == 'M')
}

} // verus!
