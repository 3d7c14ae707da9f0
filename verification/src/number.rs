//! Numbers in decimal notation.
use vstd::prelude::*;
use vstd::string::*;



verus! {

/// The value of a decimal digit.
pub open spec fn digit_value(c: char) -> Option<nat> {
    if '0' <= c && c <= '9' {
        Some((c as u32 - '0' as u32) as nat)
    } else {
        None
    }
}

/// The number that a run of decimal digits spells; nothing where a
/// character is no digit. The empty run spells zero.
pub open spec fn digits_value(digits: Seq<char>) -> Option<nat>
    decreases digits.len(),
{
    if digits.len() == 0 {
        Some(0)
    } else {
        match (digits_value(digits.drop_last()), digit_value(digits.last())) {
            (Some(high), Some(low)) => Some(high * 10 + low),
            _ => None,
        }
    }
}

/// The number that text spells: one or more decimal digits, which a plus
/// sign may precede.
pub open spec fn number(text: Seq<char>) -> Option<nat> {
    let digits = if text.len() > 0 && text[0] == '+' {
        text.skip(1)
    } else {
        text
    };
    if digits.len() == 0 {
        None
    } else {
        digits_value(digits)
    }
}

/// The number that digits alone spell, where there is at least one and
/// the number is at most `max`.
pub open spec fn digits_upto(text: Seq<char>, max: u64) -> Option<u64> {
    if text.len() > 0 && text[0] == '+' {
        None
    } else {
        number_upto(text, max)
    }
}

/// The number that text spells, where it is at most `max`.
pub open spec fn number_upto(text: Seq<char>, max: u64) -> Option<u64> {
    match number(text) {
        Some(n) if n <= max => Some(n as u64),
        _ => None,
    }
}

proof fn lemma_digits_grow(digits: Seq<char>, n: int)
    requires
        0 <= n < digits.len(),
    ensures
        digits_value(digits.take(n)) is None ==> digits_value(digits.take(n + 1)) is None,
        digits_value(digits.take(n)) matches Some(high) ==> (digits_value(digits.take(n + 1))
            matches Some(more) ==> more >= high),
        digits_value(digits.take(n + 1)) == match (
            digits_value(digits.take(n)),
            digit_value(digits[n]),
        ) {
            (Some(high), Some(low)) => Some(high * 10 + low),
            _ => None,
        },
{
    assert(digits.take(n + 1).drop_last() =~= digits.take(n));
    assert(digits.take(n + 1).last() == digits[n]);
}

proof fn lemma_digits_bound(digits: Seq<char>, n: int, max: nat)
    requires
        0 <= n <= digits.len(),
        digits_value(digits.take(n)) is None || digits_value(digits.take(n)).unwrap() > max,
    ensures
        digits_value(digits) is None || digits_value(digits).unwrap() > max,
    decreases digits.len() - n,
{
    if n == digits.len() {
        assert(digits.take(n) =~= digits);
    } else {
        lemma_digits_grow(digits, n);
        lemma_digits_bound(digits, n + 1, max);
    }
}

/// Reads a number in decimal notation that is at most `max`.
pub fn parse_decimal(text: &str, max: u64) -> (value: Option<u64>)
    ensures
        value == number_upto(text@, max),
{
    let n = text.unicode_len();
    if n == 0 {
        return None;
    }
    let start: usize = if text.get_char(0) == '+' {
        1
    } else {
        0
    };
    if start == n {
        assert(text@.skip(1).len() == 0);
        return None;
    }
    let ghost digits = text@.skip(start as int);
    assert(text@.skip(0) =~= text@);
    assert(number(text@) == digits_value(digits));
    let mut value: u64 = 0;
    let mut i: usize = start;
    assert(digits.take(0) =~= Seq::<char>::empty());
    while i < n
        invariant
            start <= i <= n,
            n == text@.len(),
            digits == text@.skip(start as int),
            number(text@) == digits_value(digits),
            digits_value(digits.take(i - start)) == Some(value as nat),
            value <= max,
        decreases n - i,
    {
        let c = text.get_char(i);
        assert(digits[i - start] == c);
        proof {
            lemma_digits_grow(digits, i - start);
        }
        if c < '0' || c > '9' {
            proof {
                lemma_digits_bound(digits, i - start + 1, max as nat);
            }
            return None;
        }
        let low = (c as u32 - '0' as u32) as u64;
        if low > max || value > (max - low) / 10 {
            proof {
                assert(value * 10 + low > max);
                lemma_digits_bound(digits, i - start + 1, max as nat);
            }
            return None;
        }
        value = value * 10 + low;
        i = i + 1;
    }
    assert(digits.take(n - start) =~= digits);
    Some(value)
}

/// Reads a number that is written in digits alone and is at most `max`.
pub fn parse_digits(text: &str, max: u64) -> (value: Option<u64>)
    ensures
        value == digits_upto(text@, max),
{
    if text.unicode_len() > 0 && text.get_char(0) == '+' {
        None
    } else {
        parse_decimal(text, max)
    }
}

/// The character of a decimal digit.
pub open spec fn digit_char(d: nat) -> char
    recommends
        d < 10,
{
    ((d + '0' as u32) as u32) as char
}

/// A number in decimal notation, without leading zeros.
pub open spec fn decimal(n: nat) -> Seq<char>
    decreases n,
{
    if n < 10 {
        seq![digit_char(n)]
    } else {
        decimal(n / 10).push(digit_char(n % 10))
    }
}

/// Writes a number in decimal notation.
pub fn format_decimal(n: u64) -> (text: String)
    ensures
        text@ == decimal(n as nat),
{
    let mut low: Vec<char> = Vec::new();
    let mut rest = n;
    while rest >= 10
        invariant
            decimal(n as nat) == decimal(rest as nat) + low@.reverse(),
        decreases rest,
    {
        let d = (rest % 10) as u32 + '0' as u32;
        let c = match char::from_u32(d) {
            Some(c) => c,
            None => '0',
        };
        proof {
            vstd::utf8::char_u32_cast(c, d);
            assert(c == digit_char((rest % 10) as nat));
            assert(decimal(rest as nat) == decimal((rest / 10) as nat).push(c));
            assert(decimal((rest / 10) as nat).push(c) + low@.reverse() =~= decimal(
                (rest / 10) as nat,
            ) + low@.push(c).reverse());
        }
        low.push(c);
        rest = rest / 10;
    }
    let d = rest as u32 + '0' as u32;
    let c = match char::from_u32(d) {
        Some(c) => c,
        None => '0',
    };
    proof {
        vstd::utf8::char_u32_cast(c, d);
    }
    let mut text = String::new();
    text.push(c);
    let mut i = low.len();
    assert(low@.reverse().take(0) =~= Seq::<char>::empty());
    while i > 0
        invariant
            i <= low.len(),
            text@ == seq![c] + low@.reverse().take(low.len() - i),
        decreases i,
    {
        i = i - 1;
        text.push(low[i]);
        proof {
            let r = low@.reverse();
            assert(r[low.len() - i - 1] == low@[i as int]);
            assert((seq![c] + r.take(low.len() - i - 1)).push(low@[i as int]) =~= seq![c] + r.take(
                low.len() - i,
            ));
        }
    }
    proof {
        assert(low@.reverse().take(low.len() as int) =~= low@.reverse());
    }
    text
}

/// The character of a digit is a digit with that value, and no plus
/// sign.
pub proof fn lemma_digit_read_back(d: nat)
    requires
        d < 10,
    ensures
        digit_value(digit_char(d)) == Some(d),
        digit_char(d) != '+',
{
    let v = (d + 0x30) as u32;
    assert('0' as u32 == 0x30);
    assert('9' as u32 == 0x39);
    assert('+' as u32 == 0x2B);
    assert(digit_char(d) as u32 == v);
}

/// A number that is written in decimal notation is read back from it.
pub proof fn lemma_decimal_read_back(n: nat)
    ensures
        decimal(n).len() > 0,
        decimal(n)[0] != '+',
        digits_value(decimal(n)) == Some(n),
        number(decimal(n)) == Some(n),
    decreases n,
{
    if n < 10 {
        lemma_digit_read_back(n);
        let one = decimal(n);
        assert(one.drop_last() =~= Seq::<char>::empty());
        assert(digits_value(one.drop_last()) == Some(0nat));
        assert(one.last() == digit_char(n));
    } else {
        lemma_decimal_read_back(n / 10);
        lemma_digit_read_back(n % 10);
        let all = decimal(n);
        assert(all.drop_last() =~= decimal(n / 10));
        assert(all.last() == digit_char(n % 10));
        assert(all[0] == decimal(n / 10)[0]);
    }
}

} // verus!
