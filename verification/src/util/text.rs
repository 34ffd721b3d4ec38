use vstd::prelude::*;
use vstd::string::StringExecFns;

verus! {

/// The decimal digit `d` as a character.
pub open spec fn digit_char(d: int) -> char {
    (d + 48) as char
}

/// `n` written in decimal.
pub open spec fn decimal(n: nat) -> Seq<char>
    decreases n,
{
    if n < 10 {
        seq![digit_char(n as int)]
    } else {
        decimal(n / 10).push(digit_char((n % 10) as int))
    }
}

/// `n` written in decimal with at least two digits.
pub open spec fn two_digits(n: nat) -> Seq<char> {
    if n < 10 {
        seq!['0', digit_char(n as int)]
    } else {
        decimal(n)
    }
}

/// The two-digit form of a number below 100 is exactly two characters: a
/// '0' (48) then the digit for a number below 10, and its tens digit then
/// its units digit from 10 on, with no '0' in front.
pub proof fn lemma_two_digits_exact(n: nat)
    requires
        n < 100,
    ensures
        two_digits(n).len() == 2,
        n < 10 ==> two_digits(n) == seq!['0', ((n + 48) as char)],
        n >= 10 ==> two_digits(n) == seq![((n / 10 + 48) as char), ((n % 10 + 48) as char)],
        two_digits(n)[0] as int == n / 10 + 48,
        two_digits(n)[1] as int == n % 10 + 48,
{
    if n >= 10 {
        assert(decimal(n / 10) == seq![digit_char((n / 10) as int)]);
        assert(two_digits(n) =~= seq![((n / 10 + 48) as char), ((n % 10 + 48) as char)]);
    }
}

/// Written in decimal, a number from 1000 to 9999 is its four digits,
/// thousands first.
pub proof fn lemma_decimal_four_digits(n: nat)
    requires
        1000 <= n < 10000,
    ensures
        decimal(n) == seq![
            ((n / 1000 + 48) as char),
            ((n / 100 % 10 + 48) as char),
            ((n / 10 % 10 + 48) as char),
            ((n % 10 + 48) as char),
        ],
{
    assert(n / 10 / 10 == n / 100 && n / 100 / 10 == n / 1000);
    assert(decimal(n / 1000) == seq![digit_char((n / 1000) as int)]);
    assert(decimal(n / 100) == decimal(n / 1000).push(digit_char((n / 100 % 10) as int)));
    assert(decimal(n / 10) == decimal(n / 100).push(digit_char((n / 10 % 10) as int)));
    assert(decimal(n) == decimal(n / 10).push(digit_char((n % 10) as int)));
    assert(decimal(n) =~= seq![
        ((n / 1000 + 48) as char),
        ((n / 100 % 10 + 48) as char),
        ((n / 10 % 10 + 48) as char),
        ((n % 10 + 48) as char),
    ]);
}

pub fn digit_str(d: u32) -> (s: &'static str)
    requires
        d < 10,
    ensures
        s@ == seq![digit_char(d as int)],
{
    proof {
        reveal_strlit("0");
        reveal_strlit("1");
        reveal_strlit("2");
        reveal_strlit("3");
        reveal_strlit("4");
        reveal_strlit("5");
        reveal_strlit("6");
        reveal_strlit("7");
        reveal_strlit("8");
        reveal_strlit("9");
    }
    if d == 0 {
        "0"
    } else if d == 1 {
        "1"
    } else if d == 2 {
        "2"
    } else if d == 3 {
        "3"
    } else if d == 4 {
        "4"
    } else if d == 5 {
        "5"
    } else if d == 6 {
        "6"
    } else if d == 7 {
        "7"
    } else if d == 8 {
        "8"
    } else {
        "9"
    }
}

pub fn append_decimal(s: &mut String, n: u32)
    ensures
        final(s)@ == old(s)@ + decimal(n as nat),
    decreases n,
{
    if n < 10 {
        s.append(digit_str(n));
    } else {
        append_decimal(s, n / 10);
        s.append(digit_str(n % 10));
    }
}

pub fn append_two_digits(s: &mut String, n: u32)
    ensures
        final(s)@ == old(s)@ + two_digits(n as nat),
{
    if n < 10 {
        proof {
            reveal_strlit("0");
        }
        s.append("0");
    }
    append_decimal(s, n);
}

/// The hexadecimal digit `d` as a lower-case character.
pub open spec fn hex_char(d: int) -> char {
    if d < 10 {
        (d + 48) as char
    } else {
        (d + 87) as char
    }
}

/// The low `n` hexadecimal digits of `v`, most significant first.
pub open spec fn hex_digits(v: nat, n: nat) -> Seq<char>
    decreases n,
{
    if n == 0 {
        Seq::empty()
    } else {
        hex_digits(v / 16, (n - 1) as nat).push(hex_char((v % 16) as int))
    }
}

pub fn hex_digit_str(d: u32) -> (s: &'static str)
    requires
        d < 16,
    ensures
        s@ == seq![hex_char(d as int)],
{
    proof {
        reveal_strlit("a");
        reveal_strlit("b");
        reveal_strlit("c");
        reveal_strlit("d");
        reveal_strlit("e");
        reveal_strlit("f");
    }
    if d < 10 {
        digit_str(d)
    } else if d == 10 {
        "a"
    } else if d == 11 {
        "b"
    } else if d == 12 {
        "c"
    } else if d == 13 {
        "d"
    } else if d == 14 {
        "e"
    } else {
        "f"
    }
}

/// Appends the low `n` hexadecimal digits of `v`.
pub fn append_hex(s: &mut String, v: u32, n: u32)
    ensures
        final(s)@ == old(s)@ + hex_digits(v as nat, n as nat),
    decreases n,
{
    if n > 0 {
        append_hex(s, v / 16, n - 1);
        s.append(hex_digit_str(v % 16));
    } else {
        assert(old(s)@ + hex_digits(v as nat, 0) =~= old(s)@);
    }
}

} // verus!
