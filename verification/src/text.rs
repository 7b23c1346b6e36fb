//! Text: case-insensitive comparison and decimal numbers.

use vstd::prelude::*;
use vstd::string::StringExecFns;

verus! {

/// A character with an ASCII capital letter replaced by its small letter.
pub open spec fn small(c: char) -> char {
    if 'A' <= c <= 'Z' {
        (c as u32 + 32) as char
    } else {
        c
    }
}

/// A text with its ASCII capital letters replaced by small letters.
pub open spec fn in_small_letters(text: Seq<char>) -> Seq<char> {
    text.map_values(|c: char| small(c))
}

/// `str::eq_ignore_ascii_case`: whether two texts are the same once ASCII
/// capital letters are replaced by small letters.
pub assume_specification[ str::eq_ignore_ascii_case ](a: &str, b: &str) -> (r: bool)
    ensures
        r == (in_small_letters(a@) == in_small_letters(b@)),
;

/// The character for a decimal digit.
pub open spec fn digit(n: nat) -> char {
    ('0' as u32 + n) as char
}

/// A natural number in decimal notation.
pub open spec fn digits(n: nat) -> Seq<char>
    decreases n,
{
    if n < 10 {
        seq![digit(n)]
    } else {
        digits(n / 10).push(digit(n % 10))
    }
}

/// An integer in decimal notation.
pub open spec fn decimal(n: int) -> Seq<char> {
    if n < 0 {
        seq!['-'] + digits((-n) as nat)
    } else {
        digits(n as nat)
    }
}

fn digit_text(n: u128) -> (r: &'static str)
    requires
        n < 10,
    ensures
        r@ == seq![digit(n as nat)],
{
    proof {
        reveal_strlit("0");
        reveal_strlit("1");
        reveal_strlit("2");
        reveal_strlit("3");
        reveal_strlit("4");
        reveal_strlit("5");
        reveal_strlit("6");
        reveal_strlit("7");
        reveal_strlit("8");
        reveal_strlit("9");
    }
    let r = if n == 0 {
        "0"
    } else if n == 1 {
        "1"
    } else if n == 2 {
        "2"
    } else if n == 3 {
        "3"
    } else if n == 4 {
        "4"
    } else if n == 5 {
        "5"
    } else if n == 6 {
        "6"
    } else if n == 7 {
        "7"
    } else if n == 8 {
        "8"
    } else {
        "9"
    };
    assert(r@ =~= seq![digit(n as nat)]);
    r
}

/// Appends a natural number in decimal notation.
pub fn append_natural(out: &mut String, n: u128)
    ensures
        final(out)@ == old(out)@ + digits(n as nat),
    decreases n,
{
    if n >= 10 {
        append_natural(out, n / 10);
    }
    out.append(digit_text(n % 10));
    assert(out@ =~= old(out)@ + digits(n as nat));
}

/// Appends an integer in decimal notation.
pub fn append_integer(out: &mut String, n: i64)
    ensures
        final(out)@ == old(out)@ + decimal(n as int),
{
    if n < 0 {
        proof {
            reveal_strlit("-");
        }
        out.append("-");
        append_natural(out, (-(n as i128)) as u128);
        assert("-"@ =~= seq!['-']);
        assert(out@ =~= old(out)@ + decimal(n as int));
    } else {
        append_natural(out, n as u128);
    }
}

/// The number that decimal digits denote.
pub open spec fn denoted(text: Seq<char>) -> int
    decreases text.len(),
{
    if text.len() == 0 {
        0
    } else {
        denoted(text.drop_last()) * 10 + (text.last() as int - '0' as int)
    }
}

/// Law: the decimal notation of a number consists of digits, denotes the number and begins
/// with a zero only if it is nothing else.
pub proof fn digits_denote_the_number(n: nat)
    ensures
        denoted(digits(n)) == n,
        digits(n).len() > 0,
        forall|i: int| 0 <= i < digits(n).len() ==> '0' <= #[trigger] digits(n)[i] <= '9',
        n > 0 ==> digits(n)[0] != '0',
        n == 0 ==> digits(n) == seq!['0'],
    decreases n,
{
    if n < 10 {
        let d = digit(n);
        assert(digits(n) =~= seq![d]);
        assert(digits(n).drop_last() =~= Seq::<char>::empty());
        assert(denoted(Seq::<char>::empty()) == 0);
    } else {
        digits_denote_the_number(n / 10);
        assert(digits(n).drop_last() =~= digits(n / 10));
    }
}

/// Law: a negative number is written with a sign before the digits of its magnitude, any
/// other number with its digits alone.
pub proof fn only_negative_numbers_have_a_sign(n: int)
    ensures
        n < 0 ==> decimal(n)[0] == '-' && denoted(decimal(n).skip(1)) == -n,
        n >= 0 ==> decimal(n)[0] != '-' && denoted(decimal(n)) == n,
{
    if n < 0 {
        digits_denote_the_number((-n) as nat);
        assert(decimal(n).skip(1) =~= digits((-n) as nat));
    } else {
        digits_denote_the_number(n as nat);
    }
}

/// Law: in small letters, capital letters of the alphabet are their small letters and
/// everything else is itself.
pub proof fn small_letters_differ_by_capitals_only(text: Seq<char>, i: int)
    requires
        0 <= i < text.len(),
    ensures
        in_small_letters(text).len() == text.len(),
        'A' <= text[i] <= 'Z' ==> in_small_letters(text)[i] as int == text[i] as int + 32,
        !('A' <= text[i] <= 'Z') ==> in_small_letters(text)[i] == text[i],
{
}

} // verus!
