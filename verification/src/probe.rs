//! Reading the dimensions that the probe prints.

use vstd::prelude::*;
use crate::text::{pieces, str_split, texts};

verus! {

/// A text without its leading and trailing white space, as `str::trim` gives it.
pub uninterp spec fn trimmed_text(text: Seq<char>) -> Seq<char>;

/// The value of a decimal digit; nothing for any other character.
pub open spec fn digit_value(c: char) -> Option<nat> {
    if 48 <= c as u32 <= 57 {
        Some((c as u32 - 48) as nat)
    } else {
        None
    }
}

/// The number that a run of decimal digits spells; nothing where a character
/// is no digit.
pub open spec fn digits_value(text: Seq<char>) -> Option<nat>
    decreases text.len(),
{
    if text.len() == 0 {
        Some(0)
    } else {
        match (digits_value(text.drop_last()), digit_value(text.last())) {
            (Some(value), Some(digit)) => Some(value * 10 + digit),
            _ => None,
        }
    }
}

/// The number that a text spells, as `str::parse::<u32>` reads it: an optional
/// plus sign, then one decimal digit or more and nothing else, the number
/// fitting 32 bits; nothing where the text is no such number.
pub open spec fn parsed_u32(text: Seq<char>) -> Option<u32> {
    let digits = if text.len() > 0 && text[0] == '+' {
        text.subrange(1, text.len() as int)
    } else {
        text
    };
    if digits.len() == 0 {
        None
    } else {
        match digits_value(digits) {
            Some(value) => if value <= u32::MAX {
                Some(value as u32)
            } else {
                None
            },
            None => None,
        }
    }
}

/// `str::trim`: the text with leading and trailing white space removed, a
/// function of the text alone.
#[verifier::external_body]
fn str_trim(text: &str) -> (trimmed: &str)
    ensures
        trimmed@ == trimmed_text(text@),
{
    text.trim()
}

/// `str::parse::<u32>`: the text is read as an optional plus sign followed by
/// decimal digits only; anything else, and a number beyond 32 bits, is an
/// error.
#[verifier::external_body]
fn str_parse_u32(text: &str) -> (number: Option<u32>)
    ensures
        number == parsed_u32(text@),
{
    text.parse::<u32>().ok()
}

/// A parsed number, or zero where there is none.
pub open spec fn or_zero(number: Option<u32>) -> u32 {
    match number {
        Some(number) => number,
        None => 0,
    }
}

/// The two dimensions among the parsed pieces of the probe's output: the first
/// two pieces, each zero where it is no number; both zero where there are
/// fewer than `needed` pieces.
pub open spec fn dimensions_among(numbers: Seq<Option<u32>>, needed: usize) -> (u32, u32) {
    if numbers.len() >= needed && numbers.len() >= 2 {
        (or_zero(numbers[0]), or_zero(numbers[1]))
    } else {
        (0, 0)
    }
}

/// Picks the two dimensions among the parsed pieces of the probe's output.
pub fn pick_dimensions(numbers: &Vec<Option<u32>>, needed: usize) -> (size: (u32, u32))
    ensures
        size == dimensions_among(numbers@, needed),
{
    if numbers.len() >= needed && numbers.len() >= 2 {
        let width = match numbers[0] {
            Some(number) => number,
            None => 0,
        };
        let height = match numbers[1] {
            Some(number) => number,
            None => 0,
        };
        (width, height)
    } else {
        (0, 0)
    }
}

/// The pieces of a text, each read as a number.
pub open spec fn numbers_in(parts: Seq<Seq<char>>) -> Seq<Option<u32>> {
    Seq::new(parts.len(), |i: int| parsed_u32(parts[i]))
}

/// Reads the width and the height from the probe's output: the output is
/// trimmed and split at `separator`, and the first two pieces are the
/// dimensions, provided there are `needed` pieces at least.
pub fn parse_dimensions(output: &str, separator: char, needed: usize) -> (size: (u32, u32))
    ensures
        size == dimensions_among(numbers_in(pieces(trimmed_text(output@), separator)), needed),
{
    let parts = str_split(str_trim(output), separator);
    let mut numbers: Vec<Option<u32>> = Vec::new();
    let mut i: usize = 0;
    while i < parts.len()
        invariant
            i <= parts.len(),
            numbers.len() == i,
            forall|k: int| 0 <= k < i ==> numbers[k] == parsed_u32(#[trigger] parts[k]@),
        decreases parts.len() - i,
    {
        numbers.push(str_parse_u32(parts[i].as_str()));
        i += 1;
    }
    assert(numbers@ =~= numbers_in(texts(parts@)));
    pick_dimensions(&numbers, needed)
}

/// The dimensions of an image from the probe's output `WIDTHxHEIGHT`.
pub fn parse_image_dimensions(output: &str) -> (size: (u32, u32))
    ensures
        size == dimensions_among(numbers_in(pieces(trimmed_text(output@), 'x')), 2),
{
    parse_dimensions(output, 'x', 2)
}

/// The dimensions of a video from the probe's output `WIDTH,HEIGHT,RATE`.
pub fn parse_video_dimensions(output: &str) -> (size: (u32, u32))
    ensures
        size == dimensions_among(numbers_in(pieces(trimmed_text(output@), ',')), 3),
{
    parse_dimensions(output, ',', 3)
}

} // verus!
