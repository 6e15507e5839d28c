//! Numbers as text: decimal and hexadecimal numerals, and the characters of a string.

use vstd::prelude::*;

verus! {

/// `String::push` puts one character behind those that the string already holds.
pub assume_specification[ String::push ](s: &mut String, c: char)
    ensures
        final(s)@ == old(s)@.push(c),
;

/// The character that stands for the digit `d`, in bases up to sixteen, in lower case.
pub open spec fn digit_char(d: nat) -> char {
    if d < 10 {
        (48 + d) as char
    } else {
        (87 + d) as char
    }
}

/// The shortest decimal numeral of `n`.
pub open spec fn decimal(n: nat) -> Seq<char>
    decreases n,
{
    if n < 10 {
        seq![digit_char(n)]
    } else {
        decimal(n / 10).push(digit_char(n % 10))
    }
}

/// The shortest hexadecimal numeral of `n`, in lower case.
pub open spec fn lower_hex(n: nat) -> Seq<char>
    decreases n,
{
    if n < 16 {
        seq![digit_char(n)]
    } else {
        lower_hex(n / 16).push(digit_char(n % 16))
    }
}

/// The value of a hexadecimal digit of either case.
pub open spec fn digit_value(c: char) -> Option<nat> {
    if '0' <= c <= '9' {
        Some((c as nat - 48) as nat)
    } else if 'a' <= c <= 'f' {
        Some((c as nat - 87) as nat)
    } else if 'A' <= c <= 'F' {
        Some((c as nat - 55) as nat)
    } else {
        None
    }
}

/// Whether every character of `t` is a digit below `base`.
pub open spec fn is_numeral(t: Seq<char>, base: nat) -> bool {
    forall|i: int|
        0 <= i < t.len() ==> (#[trigger] digit_value(t[i]) matches Some(d) && d < base)
}

/// The number that the digits of `t` write in base `base`.
pub open spec fn numeral_value(t: Seq<char>, base: nat) -> nat
    decreases t.len(),
{
    if t.len() == 0 {
        0
    } else {
        numeral_value(t.drop_last(), base) * base + digit_value(t.last()).unwrap_or(0)
    }
}

fn digit_char_exec(d: u8) -> (c: char)
    requires
        d < 16,
    ensures
        c == digit_char(d as nat),
{
    if d < 10 {
        (48 + d) as char
    } else {
        (87 + d) as char
    }
}

/// Appends the decimal numeral of `n`.
pub fn push_decimal(out: &mut String, n: u16)
    ensures
        final(out)@ == old(out)@ + decimal(n as nat),
    decreases n,
{
    if n >= 10 {
        push_decimal(out, n / 10);
    }
    out.push(digit_char_exec((n % 10) as u8));
}

/// Appends the hexadecimal numeral of `n`.
pub fn push_lower_hex(out: &mut String, n: u16)
    ensures
        final(out)@ == old(out)@ + lower_hex(n as nat),
    decreases n,
{
    if n >= 16 {
        push_lower_hex(out, n / 16);
    }
    out.push(digit_char_exec((n % 16) as u8));
}

/// The value of `c` as a hexadecimal digit.
pub fn read_digit(c: char) -> (d: Option<u16>)
    ensures
        d matches Some(v) ==> digit_value(c) == Some(v as nat) && v < 16,
        d is None ==> digit_value(c) is None,
{
    if '0' <= c && c <= '9' {
        Some((c as u32 - 48) as u16)
    } else if 'a' <= c && c <= 'f' {
        Some((c as u32 - 87) as u16)
    } else if 'A' <= c && c <= 'F' {
        Some((c as u32 - 55) as u16)
    } else {
        None
    }
}

proof fn lemma_digit_char(d: nat)
    requires
        d < 16,
    ensures
        digit_value(digit_char(d)) == Some(d),
        digit_char(d) == '0' <==> d == 0,
        digit_char(d) != ':',
        digit_char(d) != '.',
{
}

/// The decimal numeral of `n`: its digits, what they are worth, that it starts with a zero
/// only where that is the whole of it, and how long it is at most.
pub proof fn lemma_decimal(n: nat)
    ensures
        is_numeral(decimal(n), 10),
        numeral_value(decimal(n), 10) == n,
        decimal(n).len() > 0,
        decimal(n).len() > 1 ==> decimal(n)[0] != '0',
        n < 10 ==> decimal(n).len() == 1,
        n < 100 ==> decimal(n).len() <= 2,
        n < 1000 ==> decimal(n).len() <= 3,
        n > 0 ==> decimal(n)[0] != '0',
    decreases n,
{
    let t = decimal(n);
    lemma_digit_char(n % 10);
    if n >= 10 {
        lemma_decimal(n / 10);
        assert(t.drop_last() =~= decimal(n / 10));
    } else {
        lemma_digit_char(n);
        assert(t.drop_last() =~= seq![]);
        assert(numeral_value(t.drop_last(), 10) == 0);
    }
}

/// The hexadecimal numeral of `n`: its digits, what they are worth, and how long it is at most.
pub proof fn lemma_lower_hex(n: nat)
    ensures
        is_numeral(lower_hex(n), 16),
        numeral_value(lower_hex(n), 16) == n,
        lower_hex(n).len() > 0,
        n < 0x10 ==> lower_hex(n).len() == 1,
        n < 0x100 ==> lower_hex(n).len() <= 2,
        n < 0x1000 ==> lower_hex(n).len() <= 3,
        n < 0x10000 ==> lower_hex(n).len() <= 4,
    decreases n,
{
    let t = lower_hex(n);
    lemma_digit_char(n % 16);
    if n >= 16 {
        lemma_lower_hex(n / 16);
        assert(t.drop_last() =~= lower_hex(n / 16));
    } else {
        lemma_digit_char(n);
        assert(t.drop_last() =~= seq![]);
        assert(numeral_value(t.drop_last(), 16) == 0);
    }
}

/// A numeral holds no character that is not a digit.
pub proof fn lemma_numeral_holds_digits(t: Seq<char>, base: nat, c: char)
    requires
        is_numeral(t, base),
        digit_value(c) is None,
    ensures
        !t.contains(c),
{
    if t.contains(c) {
        let i = choose|i: int| 0 <= i < t.len() && t[i] == c;
        assert(digit_value(t[i]) is Some);
    }
}

/// Reads a numeral of one to four digits, in base ten or sixteen.
pub fn read_numeral(t: &[char], base: u16) -> (n: Option<u16>)
    requires
        base == 10 || base == 16,
    ensures
        n is Some <==> 1 <= t@.len() <= 4 && is_numeral(t@, base as nat),
        n matches Some(v) ==> v == numeral_value(t@, base as nat),
{
    if t.len() < 1 || t.len() > 4 {
        return None;
    }
    let mut n: u16 = 0;
    let mut i: usize = 0;
    while i < t.len()
        invariant
            base == 10 || base == 16,
            i <= t@.len() <= 4,
            is_numeral(t@.take(i as int), base as nat),
            n == numeral_value(t@.take(i as int), base as nat),
            i == 0 ==> n == 0,
            i == 1 ==> n < 0x10,
            i == 2 ==> n < 0x100,
            i == 3 ==> n < 0x1000,
        decreases t@.len() - i,
    {
        let ghost longer = t@.take(i + 1);
        proof {
            assert(longer.drop_last() =~= t@.take(i as int));
            assert(longer.last() == t@[i as int]);
        }
        match read_digit(t[i]) {
            Some(d) => {
                if d >= base {
                    proof {
                        assert(digit_value(t@[i as int]) == Some(d as nat));
                    }
                    return None;
                }
                proof {
                    assert forall|j: int| 0 <= j < longer.len() implies (
                    #[trigger] digit_value(longer[j]) matches Some(v) && v < base) by {
                        if j < i {
                            assert(longer[j] == t@.take(i as int)[j]);
                        }
                    }
                }
                if base == 10 {
                    n = n * 10 + d;
                } else {
                    n = n * 16 + d;
                }
            },
            None => {
                proof {
                    assert(digit_value(t@[i as int]) is None);
                }
                return None;
            },
        }
        i += 1;
    }
    proof {
        assert(t@.take(t@.len() as int) =~= t@);
    }
    Some(n)
}

/// The characters of `s`, in order.
pub fn chars_of(s: &str) -> (v: Vec<char>)
    ensures
        v@ == s@,
{
    let mut v: Vec<char> = Vec::new();
    for c in it: s.chars()
        invariant
            it.seq() == s@,
            v@ == s@.take(it.index()),
    {
        v.push(c);
    }
    v
}

} // verus!
