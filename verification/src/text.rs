//! Small facts about text that the other modules share.

use vstd::prelude::*;
use vstd::string::StringExecFns;

verus! {

/// Whether `text` ends with `suffix`.
pub open spec fn has_suffix(text: Seq<char>, suffix: Seq<char>) -> bool {
    text.len() >= suffix.len() && text.subrange(text.len() - suffix.len(), text.len() as int) == suffix
}

/// Whether `text` starts with `prefix`.
pub open spec fn has_prefix(text: Seq<char>, prefix: Seq<char>) -> bool {
    text.len() >= prefix.len() && text.subrange(0, prefix.len() as int) == prefix
}

/// `text` with every trailing repetition of `suffix` removed.
pub open spec fn trim_suffixes(text: Seq<char>, suffix: Seq<char>) -> Seq<char>
    decreases text.len(),
{
    if suffix.len() > 0 && has_suffix(text, suffix) {
        trim_suffixes(text.subrange(0, text.len() - suffix.len()), suffix)
    } else {
        text
    }
}

/// `str::ends_with` for a string pattern: whether the pattern matches a suffix
/// of the text.
#[verifier::external_body]
pub(crate) fn str_ends_with(text: &str, suffix: &str) -> (found: bool)
    ensures
        found == has_suffix(text@, suffix@),
{
    text.ends_with(suffix)
}

/// `str::trim_end_matches` for a non-empty string pattern: the text with all
/// suffixes that match the pattern repeatedly removed.
#[verifier::external_body]
pub(crate) fn str_trim_end_matches<'a>(text: &'a str, suffix: &str) -> (rest: &'a str)
    requires
        suffix@.len() > 0,
    ensures
        rest@ == trim_suffixes(text@, suffix@),
{
    text.trim_end_matches(suffix)
}

/// `str::strip_prefix` for a string pattern: the text after the prefix where
/// the text starts with it, nothing otherwise.
#[verifier::external_body]
pub(crate) fn str_strip_prefix<'a>(text: &'a str, prefix: &str) -> (rest: Option<&'a str>)
    ensures
        has_prefix(text@, prefix@) ==> rest is Some && rest->0@ == text@.subrange(
            prefix@.len() as int,
            text@.len() as int,
        ),
        !has_prefix(text@, prefix@) ==> rest is None,
{
    text.strip_prefix(prefix)
}

/// What follows the last `separator` in `text`: the whole text where it holds
/// none.
pub open spec fn after_last(text: Seq<char>, separator: char) -> Seq<char>
    decreases text.len(),
{
    if text.len() == 0 {
        Seq::empty()
    } else if text.last() == separator {
        Seq::empty()
    } else {
        after_last(text.drop_last(), separator).push(text.last())
    }
}

/// The pieces of a text between the occurrences of a separator: one more piece
/// than there are separators, pieces possibly empty.
pub open spec fn pieces(text: Seq<char>, separator: char) -> Seq<Seq<char>>
    decreases text.len(),
{
    if text.len() == 0 {
        seq![Seq::empty()]
    } else {
        let earlier = pieces(text.drop_last(), separator);
        if text.last() == separator {
            earlier.push(Seq::empty())
        } else {
            earlier.update(earlier.len() - 1, earlier.last().push(text.last()))
        }
    }
}

/// `str::split` with a character pattern, collected: the substrings of the
/// text separated by the character, in order.
#[verifier::external_body]
pub(crate) fn str_split(text: &str, separator: char) -> (parts: Vec<String>)
    ensures
        texts(parts@) == pieces(text@, separator),
{
    text.split(separator).map(|part| part.to_string()).collect()
}

/// There is always a last piece, and it is what follows the last separator.
pub proof fn lemma_last_piece(text: Seq<char>, separator: char)
    ensures
        pieces(text, separator).len() >= 1,
        pieces(text, separator).last() == after_last(text, separator),
    decreases text.len(),
{
    if text.len() > 0 {
        lemma_last_piece(text.drop_last(), separator);
    }
}

/// What follows the last dot of a text, or the whole text where it holds none.
pub fn after_last_dot(text: &str) -> (piece: String)
    ensures
        piece@ == after_last(text@, '.'),
{
    let mut parts = str_split(text, '.');
    proof {
        lemma_last_piece(text@, '.');
    }
    let ghost all = parts@;
    match parts.pop() {
        Some(piece) => {
            assert(piece@ == texts(all).last());
            piece
        },
        None => String::new(),
    }
}

/// Whether `part` stands somewhere in `text` as a contiguous run of characters.
pub open spec fn is_part_of(part: Seq<char>, text: Seq<char>) -> bool {
    exists|at: int| 0 <= at && at + part.len() <= text.len() && #[trigger] text.subrange(at, at + part.len()) == part
}

/// Whether two texts are the same.
pub fn same_text(a: &str, b: &str) -> (same: bool)
    ensures
        same == (a@ == b@),
{
    String::from_str(a) == String::from_str(b)
}

/// The texts of a sequence of strings, position by position.
pub open spec fn texts(items: Seq<String>) -> Seq<Seq<char>> {
    Seq::new(items.len(), |i: int| items[i]@)
}

/// The texts joined with a separator between neighbours.
pub open spec fn joined(items: Seq<Seq<char>>, separator: Seq<char>) -> Seq<char>
    decreases items.len(),
{
    if items.len() == 0 {
        Seq::empty()
    } else if items.len() == 1 {
        items[0]
    } else {
        joined(items.drop_last(), separator) + separator + items.last()
    }
}

/// The decimal digits of a number, most significant first; no digit for zero.
pub open spec fn decimal_digits(value: nat) -> Seq<char>
    decreases value,
{
    if value == 0 {
        Seq::empty()
    } else {
        decimal_digits(value / 10).push(decimal_digit((value % 10) as int))
    }
}

/// The decimal digit for a value below ten.
pub open spec fn decimal_digit(d: int) -> char {
    seq!['0', '1', '2', '3', '4', '5', '6', '7', '8', '9'][d]
}

/// A number in decimal, as `{}` formats it: `0` for zero, else its digits
/// without leading zeros.
pub open spec fn decimal_text(value: nat) -> Seq<char> {
    if value == 0 {
        seq!['0']
    } else {
        decimal_digits(value)
    }
}

fn decimal_digit_str(d: u64) -> (s: &'static str)
    requires
        d < 10,
    ensures
        s@ == seq![decimal_digit(d as int)],
{
    proof {
        reveal_strlit("0");
        reveal_strlit("1");
        reveal_strlit("2");
        reveal_strlit("3");
        reveal_strlit("4");
        reveal_strlit("5");
        reveal_strlit("6");
        reveal_strlit("7");
        reveal_strlit("8");
        reveal_strlit("9");
    }
    let s = match d {
        0 => "0",
        1 => "1",
        2 => "2",
        3 => "3",
        4 => "4",
        5 => "5",
        6 => "6",
        7 => "7",
        8 => "8",
        _ => "9",
    };
    assert(s@ =~= seq![decimal_digit(d as int)]);
    s
}

fn push_decimal_digits(out: &mut String, value: u64)
    ensures
        final(out)@ == old(out)@ + decimal_digits(value as nat),
    decreases value,
{
    if value > 0 {
        push_decimal_digits(out, value / 10);
        out.append(decimal_digit_str(value % 10));
        assert(out@ =~= old(out)@ + decimal_digits(value as nat));
    } else {
        assert(out@ =~= old(out)@ + decimal_digits(value as nat));
    }
}

/// Appends a number in decimal.
pub fn push_decimal(out: &mut String, value: u64)
    ensures
        final(out)@ == old(out)@ + decimal_text(value as nat),
{
    if value == 0 {
        proof {
            reveal_strlit("0");
        }
        out.append("0");
        assert(out@ =~= old(out)@ + decimal_text(0));
    } else {
        push_decimal_digits(out, value);
    }
}

} // verus!
