//! Decimal text of shapes, as error values carry it.

use vstd::prelude::*;

verus! {

/// The character of one decimal digit.
pub open spec fn digit(d: nat) -> char
    recommends
        d < 10,
{
    if d == 0 {
        '0'
    } else if d == 1 {
        '1'
    } else if d == 2 {
        '2'
    } else if d == 3 {
        '3'
    } else if d == 4 {
        '4'
    } else if d == 5 {
        '5'
    } else if d == 6 {
        '6'
    } else if d == 7 {
        '7'
    } else if d == 8 {
        '8'
    } else {
        '9'
    }
}

/// The decimal digits of `n`, most significant first, with no leading zero.
pub open spec fn decimal(n: nat) -> Seq<char>
    decreases n,
{
    if n < 10 {
        seq![digit(n)]
    } else {
        decimal(n / 10).push(digit(n % 10))
    }
}

/// A shape of four axes as text: the lengths in decimal, separated by a comma
/// and a space, in round brackets.
pub open spec fn shape_text(t: nat, f: nat, b: nat, p: nat) -> Seq<char> {
    seq!['('] + decimal(t) + seq![',', ' '] + decimal(f) + seq![',', ' '] + decimal(b) + seq![
        ',',
        ' ',
    ] + decimal(p) + seq![')']
}

fn digit_text(d: usize) -> (r: &'static str)
    requires
        d < 10,
    ensures
        r@ == seq![digit(d as nat)],
{
    proof {
        reveal_strlit("0");
        reveal_strlit("1");
        reveal_strlit("2");
        reveal_strlit("3");
        reveal_strlit("4");
        reveal_strlit("5");
        reveal_strlit("6");
        reveal_strlit("7");
        reveal_strlit("8");
        reveal_strlit("9");
    }
    let r = if d == 0 {
        "0"
    } else if d == 1 {
        "1"
    } else if d == 2 {
        "2"
    } else if d == 3 {
        "3"
    } else if d == 4 {
        "4"
    } else if d == 5 {
        "5"
    } else if d == 6 {
        "6"
    } else if d == 7 {
        "7"
    } else if d == 8 {
        "8"
    } else {
        "9"
    };
    assert(r@ =~= seq![digit(d as nat)]);
    r
}

/// Appends the decimal digits of `n` to `out`.
fn push_decimal(out: &mut String, n: usize)
    ensures
        final(out)@ == old(out)@ + decimal(n as nat),
    decreases n,
{
    if n >= 10 {
        push_decimal(out, n / 10);
    }
    out.append(digit_text(n % 10));
    proof {
        if n >= 10 {
            assert(old(out)@ + decimal((n / 10) as nat) + seq![digit((n % 10) as nat)] =~= old(out)@
                + decimal(n as nat));
        }
    }
}

/// Writes a shape of four axes as text.
pub fn shape_to_string(t: usize, f: usize, b: usize, p: usize) -> (r: String)
    ensures
        r@ == shape_text(t as nat, f as nat, b as nat, p as nat),
{
    proof {
        reveal_strlit("(");
        reveal_strlit(", ");
        reveal_strlit(")");
    }
    let mut out = String::from_str("(");
    push_decimal(&mut out, t);
    out.append(", ");
    push_decimal(&mut out, f);
    out.append(", ");
    push_decimal(&mut out, b);
    out.append(", ");
    push_decimal(&mut out, p);
    out.append(")");
    assert(out@ =~= shape_text(t as nat, f as nat, b as nat, p as nat));
    out
}

} // verus!
