//! Decimal numbers as text.

use vstd::prelude::*;
use vstd::string::*;

verus! {

/// The character of a decimal digit.
pub open spec fn digit_char(d: nat) -> char {
    (48 + d) as char
}

/// `n` in decimal, without leading zeros.
pub open spec fn decimal(n: nat) -> Seq<char>
    decreases n,
{
    if n < 10 {
        seq![digit_char(n)]
    } else {
        decimal(n / 10).push(digit_char(n % 10))
    }
}

/// The number that decimal digits spell.
pub open spec fn decimal_value(digits: Seq<char>) -> int
    decreases digits.len(),
{
    if digits.len() == 0 {
        0
    } else {
        10 * decimal_value(digits.drop_last()) + (digits.last() as int - '0' as int)
    }
}

/// A number in decimal consists of digits, spells the number, and starts with
/// a zero only if it is the number zero, which is one digit.
pub proof fn law_decimal_spells_the_number(n: nat)
    ensures
        decimal_value(decimal(n)) == n,
        forall|k: int| 0 <= k < decimal(n).len() ==> '0' <= #[trigger] decimal(n)[k] <= '9',
        decimal(n).len() > 0,
        n > 0 ==> decimal(n)[0] != '0',
        n == 0 ==> decimal(n).len() == 1,
    decreases n,
{
    reveal_with_fuel(decimal_value, 2);
    if n >= 10 {
        law_decimal_spells_the_number(n / 10);
        assert(decimal(n).drop_last() == decimal(n / 10));
    } else {
        assert(decimal(n).drop_last() == Seq::<char>::empty());
    }
}

/// A number in decimal can be told from what follows it, if that does not start
/// with a digit.
pub proof fn law_decimal_can_be_read_back(a: nat, b: nat, x: Seq<char>, y: Seq<char>)
    requires
        decimal(a) + x == decimal(b) + y,
        x.len() > 0 && !('0' <= x[0] <= '9'),
        y.len() > 0 && !('0' <= y[0] <= '9'),
    ensures
        a == b,
        x == y,
{
    let left = decimal(a) + x;
    let right = decimal(b) + y;
    law_decimal_spells_the_number(a);
    law_decimal_spells_the_number(b);
    if decimal(a).len() < decimal(b).len() {
        assert(left[decimal(a).len() as int] == x[0]);
        assert(right[decimal(a).len() as int] == decimal(b)[decimal(a).len() as int]);
    }
    if decimal(b).len() < decimal(a).len() {
        assert(right[decimal(b).len() as int] == y[0]);
        assert(left[decimal(b).len() as int] == decimal(a)[decimal(b).len() as int]);
    }
    assert(decimal(a) == left.take(decimal(a).len() as int));
    assert(decimal(b) == right.take(decimal(b).len() as int));
    assert(x == left.skip(decimal(a).len() as int));
    assert(y == right.skip(decimal(b).len() as int));
}

fn digit_str(d: u32) -> (s: &'static str)
    requires
        d < 10,
    ensures
        s@ == seq![digit_char(d as nat)],
{
    proof {
        reveal_strlit("0");
        reveal_strlit("1");
        reveal_strlit("2");
        reveal_strlit("3");
        reveal_strlit("4");
        reveal_strlit("5");
        reveal_strlit("6");
        reveal_strlit("7");
        reveal_strlit("8");
        reveal_strlit("9");
    }
    match d {
        0 => "0",
        1 => "1",
        2 => "2",
        3 => "3",
        4 => "4",
        5 => "5",
        6 => "6",
        7 => "7",
        8 => "8",
        _ => "9",
    }
}

/// Writes `n` in decimal behind `out`.
pub fn push_decimal(out: &mut String, n: u32)
    ensures
        final(out)@ == old(out)@ + decimal(n as nat),
    decreases n,
{
    if n >= 10 {
        push_decimal(out, n / 10);
    }
    out.append(digit_str(n % 10));
}

} // verus!
