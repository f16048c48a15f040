//! Text building blocks: decimal numerals and separated lists.

use vstd::prelude::*;
use vstd::string::*;

verus! {

/// The character that writes the digit `d`.
pub open spec fn digit_char(d: nat) -> char {
    if d == 0 {
        '0'
    } else if d == 1 {
        '1'
    } else if d == 2 {
        '2'
    } else if d == 3 {
        '3'
    } else if d == 4 {
        '4'
    } else if d == 5 {
        '5'
    } else if d == 6 {
        '6'
    } else if d == 7 {
        '7'
    } else if d == 8 {
        '8'
    } else {
        '9'
    }
}

/// The decimal numeral of `n`, without sign or leading zeros.
pub open spec fn decimal(n: nat) -> Seq<char>
    decreases n,
{
    if n < 10 {
        seq![digit_char(n)]
    } else {
        decimal(n / 10).push(digit_char(n % 10))
    }
}

/// The decimal numeral of `n`, with a leading minus sign when `n` is negative.
pub open spec fn signed_decimal(n: int) -> Seq<char> {
    if n < 0 {
        seq!['-'] + decimal((-n) as nat)
    } else {
        decimal(n as nat)
    }
}

/// Whether `c` writes a digit.
pub open spec fn is_digit(c: char) -> bool {
    c == '0' || c == '1' || c == '2' || c == '3' || c == '4' || c == '5' || c == '6' || c == '7'
        || c == '8' || c == '9'
}

/// The digit that `c` writes.
pub open spec fn digit_value(c: char) -> nat {
    if c == '1' {
        1
    } else if c == '2' {
        2
    } else if c == '3' {
        3
    } else if c == '4' {
        4
    } else if c == '5' {
        5
    } else if c == '6' {
        6
    } else if c == '7' {
        7
    } else if c == '8' {
        8
    } else if c == '9' {
        9
    } else {
        0
    }
}

/// The number that a decimal numeral writes.
pub open spec fn number_of(numeral: Seq<char>) -> nat
    decreases numeral.len(),
{
    if numeral.len() == 0 {
        0
    } else {
        number_of(numeral.drop_last()) * 10 + digit_value(numeral.last())
    }
}

/// A decimal numeral has at least one character, and digits only.
pub proof fn lemma_decimal_digits(n: nat)
    ensures
        decimal(n).len() >= 1,
        forall|i: int| 0 <= i < decimal(n).len() ==> is_digit(#[trigger] decimal(n)[i]),
    decreases n,
{
    if n >= 10 {
        lemma_decimal_digits(n / 10);
    }
}

/// A decimal numeral writes the number it was made from, so different
/// numbers have different numerals.
pub proof fn lemma_number_of_decimal(n: nat)
    ensures
        number_of(decimal(n)) == n,
    decreases n,
{
    if n >= 10 {
        lemma_number_of_decimal(n / 10);
        let numeral = decimal(n);
        assert(numeral.drop_last() =~= decimal(n / 10));
        assert(numeral.last() == digit_char(n % 10));
    } else {
        let numeral = decimal(n);
        assert(numeral.drop_last() =~= Seq::<char>::empty());
        assert(numeral.last() == digit_char(n));
        assert(number_of(numeral.drop_last()) == 0);
    }
}

/// `parts` written one after another with `sep` between neighbours.
pub open spec fn joined(parts: Seq<Seq<char>>, sep: Seq<char>) -> Seq<char>
    decreases parts.len(),
{
    if parts.len() == 0 {
        Seq::empty()
    } else if parts.len() == 1 {
        parts[0]
    } else {
        joined(parts.drop_last(), sep) + sep + parts.last()
    }
}

/// Appending one more part to a joined list.
pub proof fn lemma_joined_push(parts: Seq<Seq<char>>, sep: Seq<char>, part: Seq<char>)
    ensures
        joined(parts.push(part), sep) == if parts.len() == 0 {
            part
        } else {
            joined(parts, sep) + sep + part
        },
{
    let longer = parts.push(part);
    assert(longer.drop_last() =~= parts);
    assert(longer.last() == part);
}

/// The first part of a joined list stands in front of the rest of it.
pub proof fn lemma_joined_front(parts: Seq<Seq<char>>, sep: Seq<char>)
    requires
        parts.len() >= 2,
    ensures
        joined(parts, sep) == parts[0] + sep + joined(parts.drop_first(), sep),
    decreases parts.len(),
{
    let init = parts.drop_last();
    let tail = parts.drop_first();
    if parts.len() == 2 {
        assert(joined(init, sep) == parts[0]);
        assert(joined(tail, sep) == parts[1]);
    } else {
        lemma_joined_front(init, sep);
        assert(init.drop_first() =~= tail.drop_last());
        assert(init[0] == parts[0]);
        assert(tail.last() == parts.last());
        assert(joined(parts, sep) =~= parts[0] + sep + joined(tail, sep));
    }
}

fn digit_text(d: u8) -> (s: &'static str)
    requires
        d < 10,
    ensures
        s@ == seq![digit_char(d as nat)],
{
    proof {
        reveal_strlit("0");
        reveal_strlit("1");
        reveal_strlit("2");
        reveal_strlit("3");
        reveal_strlit("4");
        reveal_strlit("5");
        reveal_strlit("6");
        reveal_strlit("7");
        reveal_strlit("8");
        reveal_strlit("9");
    }
    let s = if d == 0 {
        "0"
    } else if d == 1 {
        "1"
    } else if d == 2 {
        "2"
    } else if d == 3 {
        "3"
    } else if d == 4 {
        "4"
    } else if d == 5 {
        "5"
    } else if d == 6 {
        "6"
    } else if d == 7 {
        "7"
    } else if d == 8 {
        "8"
    } else {
        "9"
    };
    assert(s@ =~= seq![digit_char(d as nat)]);
    s
}

/// Appends the decimal numeral of `n` to `out`.
pub fn push_decimal(out: &mut String, n: u64)
    ensures
        final(out)@ == old(out)@ + decimal(n as nat),
    decreases n,
{
    if n >= 10 {
        push_decimal(out, n / 10);
    }
    let d: u8 = (n % 10) as u8;
    out.append(digit_text(d));
    proof {
        if n >= 10 {
            assert(out@ =~= old(out)@ + decimal(n as nat));
        } else {
            assert(out@ =~= old(out)@ + decimal(n as nat));
        }
    }
}

/// Appends the decimal numeral of `n`, with its sign, to `out`.
pub fn push_signed_decimal(out: &mut String, n: i64)
    ensures
        final(out)@ == old(out)@ + signed_decimal(n as int),
{
    if n < 0 {
        proof {
            reveal_strlit("-");
        }
        out.append("-");
        let m: u64 = ((-(n + 1)) as u64) + 1;
        push_decimal(out, m);
        assert(out@ =~= old(out)@ + signed_decimal(n as int));
    } else {
        push_decimal(out, n as u64);
    }
}

} // verus!
