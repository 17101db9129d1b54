//! Fixed-width lowercase hexadecimal rendering of 64-bit values.

use vstd::prelude::*;
use vstd::string::*;

verus! {

/// The lowercase hexadecimal digit for a value below sixteen.
pub open spec fn hex_digit(d: int) -> char {
    seq!['0', '1', '2', '3', '4', '5', '6', '7', '8', '9', 'a', 'b', 'c', 'd', 'e', 'f'][d]
}

/// The `n` least significant hexadecimal digits of `v`, most significant first.
pub open spec fn hex_digits(v: nat, n: nat) -> Seq<char>
    decreases n,
{
    if n == 0 {
        Seq::empty()
    } else {
        hex_digits(v / 16, (n - 1) as nat).push(hex_digit((v % 16) as int))
    }
}

/// The canonical text of a 64-bit value: sixteen lowercase hex digits, zero padded.
pub open spec fn hex16(v: u64) -> Seq<char> {
    hex_digits(v as nat, 16)
}

/// A digit sequence has exactly as many characters as were asked for.
pub proof fn lemma_hex_digits_len(v: nat, n: nat)
    ensures
        hex_digits(v, n).len() == n,
    decreases n,
{
    if n > 0 {
        lemma_hex_digits_len(v / 16, (n - 1) as nat);
    }
}

/// Every character of a digit sequence is one of `0-9a-f`.
pub proof fn lemma_hex_digits_alphabet(v: nat, n: nat, i: int)
    requires
        0 <= i < n,
    ensures
        hex_digits(v, n).len() == n,
        exists|d: int| 0 <= d < 16 && hex_digits(v, n)[i] == #[trigger] hex_digit(d),
    decreases n,
{
    lemma_hex_digits_len(v, n);
    lemma_hex_digits_len(v / 16, (n - 1) as nat);
    if i == n - 1 {
        assert(hex_digits(v, n)[i] == hex_digit((v % 16) as int));
    } else {
        lemma_hex_digits_alphabet(v / 16, (n - 1) as nat, i);
        assert(hex_digits(v, n)[i] == hex_digits(v / 16, (n - 1) as nat)[i]);
    }
}

fn digit_str(d: u64) -> (s: &'static str)
    requires
        d < 16,
    ensures
        s@ == seq![hex_digit(d as int)],
{
    proof {
        reveal_strlit("0");
        reveal_strlit("1");
        reveal_strlit("2");
        reveal_strlit("3");
        reveal_strlit("4");
        reveal_strlit("5");
        reveal_strlit("6");
        reveal_strlit("7");
        reveal_strlit("8");
        reveal_strlit("9");
        reveal_strlit("a");
        reveal_strlit("b");
        reveal_strlit("c");
        reveal_strlit("d");
        reveal_strlit("e");
        reveal_strlit("f");
    }
    let s = match d {
        0 => "0",
        1 => "1",
        2 => "2",
        3 => "3",
        4 => "4",
        5 => "5",
        6 => "6",
        7 => "7",
        8 => "8",
        9 => "9",
        10 => "a",
        11 => "b",
        12 => "c",
        13 => "d",
        14 => "e",
        _ => "f",
    };
    assert(s@ =~= seq![hex_digit(d as int)]);
    s
}

fn push_hex_digits(out: &mut String, v: u64, n: u32)
    ensures
        final(out)@ == old(out)@ + hex_digits(v as nat, n as nat),
    decreases n,
{
    if n > 0 {
        push_hex_digits(out, v / 16, n - 1);
        out.append(digit_str(v % 16));
        assert(out@ =~= old(out)@ + hex_digits(v as nat, n as nat));
    } else {
        assert(out@ =~= old(out)@ + hex_digits(v as nat, n as nat));
    }
}

/// Renders `v` as sixteen lowercase hexadecimal digits.
pub fn to_hex16(v: u64) -> (s: String)
    ensures
        s@ == hex16(v),
        s@.len() == 16,
{
    let mut out = String::new();
    push_hex_digits(&mut out, v, 16);
    proof {
        lemma_hex_digits_len(v as nat, 16);
        assert(out@ =~= hex16(v));
    }
    out
}

} // verus!
