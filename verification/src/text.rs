//! Decimal text of integers.
use vstd::prelude::*;
use vstd::string::*;

verus! {

/// The character of the decimal digit `d`.
pub open spec fn digit_char(d: int) -> char {
    (48 + d) as char
}

/// The decimal digits of `n`, most significant first, without leading zeros.
pub open spec fn nat_decimal(n: nat) -> Seq<char>
    decreases n,
{
    if n < 10 {
        seq![digit_char(n as int)]
    } else {
        nat_decimal(n / 10).push(digit_char((n % 10) as int))
    }
}

/// The decimal text of `i`, with a leading `-` when it is negative.
pub open spec fn int_decimal(i: int) -> Seq<char> {
    if i < 0 {
        seq!['-'] + nat_decimal((-i) as nat)
    } else {
        nat_decimal(i as nat)
    }
}

/// The text of the decimal digit `d`.
fn digit_text(d: u32) -> (result: &'static str)
    requires
        d < 10,
    ensures
        result@ == seq![digit_char(d as int)],
{
    proof {
        reveal_strlit("0");
        reveal_strlit("1");
        reveal_strlit("2");
        reveal_strlit("3");
        reveal_strlit("4");
        reveal_strlit("5");
        reveal_strlit("6");
        reveal_strlit("7");
        reveal_strlit("8");
        reveal_strlit("9");
    }
    if d == 0 {
        "0"
    } else if d == 1 {
        "1"
    } else if d == 2 {
        "2"
    } else if d == 3 {
        "3"
    } else if d == 4 {
        "4"
    } else if d == 5 {
        "5"
    } else if d == 6 {
        "6"
    } else if d == 7 {
        "7"
    } else if d == 8 {
        "8"
    } else {
        "9"
    }
}

/// Appends the decimal digits of `n` to `text`.
fn push_nat_decimal(text: &mut String, n: u32)
    ensures
        final(text)@ == old(text)@ + nat_decimal(n as nat),
    decreases n,
{
    if n >= 10 {
        push_nat_decimal(text, n / 10);
    }
    text.append(digit_text(n % 10));
    proof {
        if n >= 10 {
            assert(old(text)@ + nat_decimal(n as nat) =~= old(text)@ + nat_decimal((n / 10) as nat) + seq![
                digit_char((n % 10) as int),
            ]);
        } else {
            assert(nat_decimal(n as nat) == seq![digit_char(n as int)]);
        }
    }
}

/// The decimal text of `i`, as `Display` writes an `i32`: its digits, with a
/// leading `-` when it is negative.
pub fn int_to_string(i: i32) -> (result: String)
    ensures
        result@ == int_decimal(i as int),
{
    let mut text = String::new();
    if i < 0 {
        proof {
            reveal_strlit("-");
        }
        text.append("-");
        let magnitude: u32 = (0 - (i as i64)) as u32;
        push_nat_decimal(&mut text, magnitude);
    } else {
        push_nat_decimal(&mut text, i as u32);
    }
    text
}

proof fn lemma_nat_decimal_len(n: nat)
    ensures
        nat_decimal(n).len() >= 1,
        nat_decimal(n).len() == 1 <==> n < 10,
    decreases n,
{
    if n >= 10 {
        lemma_nat_decimal_len(n / 10);
    }
}

/// Different numbers have different decimal texts.
pub proof fn lemma_nat_decimal_injective(a: nat, b: nat)
    requires
        nat_decimal(a) == nat_decimal(b),
    ensures
        a == b,
    decreases a,
{
    lemma_nat_decimal_len(a);
    lemma_nat_decimal_len(b);
    if a < 10 {
        assert(nat_decimal(a)[0] == nat_decimal(b)[0]);
        assert((digit_char(a as int) as int) == 48 + a);
        assert((digit_char(b as int) as int) == 48 + b);
        assert(b < 10);
        assert(nat_decimal(a) == seq![digit_char(a as int)]);
        assert(nat_decimal(b) == seq![digit_char(b as int)]);
        assert(seq![digit_char(a as int)][0] == digit_char(a as int));
        assert(seq![digit_char(b as int)][0] == digit_char(b as int));
        assert(digit_char(a as int) == digit_char(b as int));
        assert(a == b);
    } else {
        let da = nat_decimal(a);
        let db = nat_decimal(b);
        assert(da.last() == db.last());
        assert((digit_char((a % 10) as int) as int) == 48 + a % 10);
        assert((digit_char((b % 10) as int) as int) == 48 + b % 10);
        assert(da.drop_last() =~= nat_decimal(a / 10));
        assert(db.drop_last() =~= nat_decimal(b / 10));
        lemma_nat_decimal_injective(a / 10, b / 10);
        assert(a == 10 * (a / 10) + a % 10) by (nonlinear_arith);
        assert(b == 10 * (b / 10) + b % 10) by (nonlinear_arith);
        assert(b >= 10);
        assert(a % 10 == b % 10);
        assert(a == b);
    }
}

/// The first decimal digit of a number is a digit character.
proof fn lemma_nat_decimal_first(n: nat)
    ensures
        48 <= (nat_decimal(n)[0] as int) < 58,
    decreases n,
{
    lemma_nat_decimal_len(n);
    if n >= 10 {
        lemma_nat_decimal_first(n / 10);
        lemma_nat_decimal_len(n / 10);
        assert(nat_decimal(n)[0] == nat_decimal(n / 10)[0]);
    } else {
        assert(nat_decimal(n)[0] == digit_char(n as int));
        assert((digit_char(n as int) as int) == 48 + n);
    }
}

/// Different integers have different decimal texts.
pub proof fn lemma_int_decimal_injective(a: int, b: int)
    requires
        int_decimal(a) == int_decimal(b),
    ensures
        a == b,
{
    if a < 0 && b < 0 {
        assert(int_decimal(a).skip(1) =~= nat_decimal((-a) as nat));
        assert(int_decimal(b).skip(1) =~= nat_decimal((-b) as nat));
        lemma_nat_decimal_injective((-a) as nat, (-b) as nat);
    } else if a < 0 {
        lemma_nat_decimal_first(b as nat);
        assert(int_decimal(a)[0] == '-');
        assert(('-' as int) == 45);
    } else if b < 0 {
        lemma_nat_decimal_first(a as nat);
        assert(int_decimal(b)[0] == '-');
        assert(('-' as int) == 45);
    } else {
        lemma_nat_decimal_injective(a as nat, b as nat);
    }
}

} // verus!
