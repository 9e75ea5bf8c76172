//! Numbers as text.

use vstd::prelude::*;

verus! {

/// The digit of value `d`, below sixteen.
pub open spec fn digit(d: int) -> Seq<char> {
    if d == 0 {
        "0"@
    } else if d == 1 {
        "1"@
    } else if d == 2 {
        "2"@
    } else if d == 3 {
        "3"@
    } else if d == 4 {
        "4"@
    } else if d == 5 {
        "5"@
    } else if d == 6 {
        "6"@
    } else if d == 7 {
        "7"@
    } else if d == 8 {
        "8"@
    } else if d == 9 {
        "9"@
    } else if d == 10 {
        "a"@
    } else if d == 11 {
        "b"@
    } else if d == 12 {
        "c"@
    } else if d == 13 {
        "d"@
    } else if d == 14 {
        "e"@
    } else {
        "f"@
    }
}

/// Without its last digit a number is smaller.
pub proof fn lemma_fewer_digits(n: int, base: int)
    requires
        2 <= base <= n,
    ensures
        0 <= n / base < n,
{
    vstd::arithmetic::div_mod::lemma_div_decreases(n, base);
    vstd::arithmetic::div_mod::lemma_div_pos_is_pos(n, base);
}

/// `n` in base `base`, without leading zeros.
pub open spec fn digits(n: int, base: int) -> Seq<char>
    decreases n,
    when base >= 2
{
    if n < base {
        digit(n)
    } else {
        proof {
            lemma_fewer_digits(n, base);
        }
        digits(n / base, base) + digit(n % base)
    }
}

/// `n` in decimal.
pub open spec fn decimal(n: int) -> Seq<char> {
    digits(n, 10)
}

/// `n` in hexadecimal, with a `0x` in front.
pub open spec fn hex(n: int) -> Seq<char> {
    "0x"@ + digits(n, 16)
}

fn digit_text(d: u64) -> (text: &'static str)
    requires
        d < 16,
    ensures
        text@ == digit(d as int),
{
    match d {
        0 => "0",
        1 => "1",
        2 => "2",
        3 => "3",
        4 => "4",
        5 => "5",
        6 => "6",
        7 => "7",
        8 => "8",
        9 => "9",
        10 => "a",
        11 => "b",
        12 => "c",
        13 => "d",
        14 => "e",
        _ => "f",
    }
}

fn push_digits(out: &mut String, n: u64, base: u64)
    requires
        2 <= base <= 16,
    ensures
        final(out)@ == old(out)@ + digits(n as int, base as int),
    decreases n,
{
    if n < base {
        out.append(digit_text(n));
    } else {
        proof {
            lemma_fewer_digits(n as int, base as int);
        }
        push_digits(out, n / base, base);
        let low: u64 = n % base;
        out.append(digit_text(low));
        assert(out@ =~= old(out)@ + digits(n as int, base as int));
    }
}

/// Appends `n` in decimal.
pub(crate) fn push_decimal(out: &mut String, n: u64)
    ensures
        final(out)@ == old(out)@ + decimal(n as int),
{
    push_digits(out, n, 10)
}

/// Appends `n` in hexadecimal.
pub(crate) fn push_hex(out: &mut String, n: u64)
    ensures
        final(out)@ == old(out)@ + hex(n as int),
{
    out.append("0x");
    push_digits(out, n, 16);
    assert(out@ =~= old(out)@ + hex(n as int));
}

/// The value of a digit: `0` to `9` count from zero and `a` to `f` from ten. Any other character
/// has none.
pub open spec fn digit_value(c: char) -> int {
    if '0' as int <= c as int <= '9' as int {
        c as int - '0' as int
    } else if 'a' as int <= c as int <= 'f' as int {
        c as int - 'a' as int + 10
    } else {
        -1
    }
}

/// The number that `text` reads as in base `base`.
pub open spec fn read_number(text: Seq<char>, base: int) -> int
    decreases text.len(),
{
    if text.len() == 0 {
        0
    } else {
        read_number(text.drop_last(), base) * base + digit_value(text.last())
    }
}

/// `text` is written in digits of base `base`, at least one, and with no zero in front of others.
pub open spec fn is_numeral(text: Seq<char>, base: int) -> bool {
    &&& text.len() > 0
    &&& forall|k: int| 0 <= k < text.len() ==> 0 <= digit_value(#[trigger] text[k]) < base
    &&& text.len() > 1 ==> digit_value(text[0]) != 0
}

/// A number in decimal reads as that number.
pub proof fn law_decimal_reads_back(n: int)
    requires
        n >= 0,
    ensures
        is_numeral(decimal(n), 10),
        read_number(decimal(n), 10) == n,
{
    lemma_digits_read_back(n, 10);
}

/// A number in hexadecimal is `0x` and what reads as that number.
pub proof fn law_hex_reads_back(n: int)
    requires
        n >= 0,
    ensures
        hex(n).len() > 2,
        hex(n)[0] == '0',
        hex(n)[1] == 'x',
        is_numeral(hex(n).skip(2), 16),
        read_number(hex(n).skip(2), 16) == n,
{
    reveal_strlit("0x");
    lemma_digits_read_back(n, 16);
    assert(hex(n).skip(2) =~= digits(n, 16));
}

proof fn lemma_digit_value(d: int)
    requires
        0 <= d < 16,
    ensures
        digit(d).len() == 1,
        digit_value(digit(d)[0]) == d,
{
    reveal_strlit("0");
    reveal_strlit("1");
    reveal_strlit("2");
    reveal_strlit("3");
    reveal_strlit("4");
    reveal_strlit("5");
    reveal_strlit("6");
    reveal_strlit("7");
    reveal_strlit("8");
    reveal_strlit("9");
    reveal_strlit("a");
    reveal_strlit("b");
    reveal_strlit("c");
    reveal_strlit("d");
    reveal_strlit("e");
    reveal_strlit("f");
}

proof fn lemma_digits_read_back(n: int, base: int)
    requires
        n >= 0,
        2 <= base <= 16,
    ensures
        is_numeral(digits(n, base), base),
        n > 0 ==> digit_value(digits(n, base)[0]) != 0,
        read_number(digits(n, base), base) == n,
    decreases n,
{
    let text = digits(n, base);
    if n < base {
        lemma_digit_value(n);
        assert(text.drop_last() =~= Seq::<char>::empty());
        assert(read_number(text.drop_last(), base) == 0);
    } else {
        lemma_fewer_digits(n, base);
        vstd::arithmetic::div_mod::lemma_fundamental_div_mod(n, base);
        let high = digits(n / base, base);
        lemma_digits_read_back(n / base, base);
        lemma_digit_value(n % base);
        assert(text.drop_last() =~= high);
        assert(n / base * base == base * (n / base)) by (nonlinear_arith);
        assert(n / base > 0) by (nonlinear_arith)
            requires
                n >= base,
                n == base * (n / base) + n % base,
                n % base < base,
                base > 0,
        ;
        assert(text[0] == high[0]);
        assert forall|k: int| 0 <= k < text.len() implies 0 <= digit_value(#[trigger] text[k])
            < base by {
            if k < high.len() {
                assert(text[k] == high[k]);
            }
        }
    }
}

} // verus!
