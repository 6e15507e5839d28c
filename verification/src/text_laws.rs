//! What holds of numerals and of separated text.

use vstd::prelude::*;

use crate::{pieces, text};

verus! {

/// Whether `c` is one of the ten decimal digits.
pub open spec fn is_decimal_digit(c: char) -> bool {
    '0' <= c && c <= '9'
}

/// Whether `c` is a hexadecimal digit of either case.
pub open spec fn is_hex_digit(c: char) -> bool {
    is_decimal_digit(c) || ('a' <= c && c <= 'f') || ('A' <= c && c <= 'F')
}

/// Digits are written as the characters from `0` and from `a` on.
pub proof fn law_digits_are_written(d: nat)
    requires
        d < 16,
    ensures
        d < 10 ==> text::digit_char(d) as int == '0' as int + d,
        d >= 10 ==> text::digit_char(d) as int == 'a' as int + d - 10,
{
}

/// Digits of either case are read, and nothing else is.
pub proof fn law_digits_are_read(c: char)
    ensures
        text::digit_value(c) is Some <==> is_hex_digit(c),
        '0' <= c <= '9' ==> text::digit_value(c) == Some((c as int - '0' as int) as nat),
        'a' <= c <= 'f' ==> text::digit_value(c) == Some((c as int - 'a' as int + 10) as nat),
        'A' <= c <= 'F' ==> text::digit_value(c) == Some((c as int - 'A' as int + 10) as nat),
{
}

/// A further digit makes a numeral worth the base times as much, and the digit.
pub proof fn law_numeral_value(t: Seq<char>, c: char, base: nat)
    requires
        is_hex_digit(c),
    ensures
        text::numeral_value(seq![], base) == 0,
        text::numeral_value(t.push(c), base) == text::numeral_value(t, base) * base
            + text::digit_value(c)->0,
{
    assert(t.push(c).drop_last() =~= t);
}

/// A text is a decimal numeral exactly if it holds nothing but decimal digits, and a
/// hexadecimal one exactly if it holds nothing but hexadecimal digits.
pub proof fn law_numerals_hold_digits(t: Seq<char>)
    ensures
        text::is_numeral(t, 10) <==> forall|i: int|
            0 <= i < t.len() ==> is_decimal_digit(#[trigger] t[i]),
        text::is_numeral(t, 16) <==> forall|i: int|
            0 <= i < t.len() ==> is_hex_digit(#[trigger] t[i]),
{
    if text::is_numeral(t, 10) {
        assert forall|i: int| 0 <= i < t.len() implies is_decimal_digit(#[trigger] t[i]) by {
            assert(text::digit_value(t[i]) is Some);
        }
    }
    if text::is_numeral(t, 16) {
        assert forall|i: int| 0 <= i < t.len() implies is_hex_digit(#[trigger] t[i]) by {
            assert(text::digit_value(t[i]) is Some);
        }
    }
}

/// The decimal text of a number: decimal digits that are worth the number, the first of which
/// is a zero only where it is the only one.
pub proof fn law_decimal(n: nat)
    ensures
        text::decimal(n).len() > 0,
        forall|i: int|
            0 <= i < text::decimal(n).len() ==> is_decimal_digit(#[trigger] text::decimal(n)[i]),
        text::decimal(n).len() > 1 ==> text::decimal(n)[0] != '0',
        text::numeral_value(text::decimal(n), 10) == n,
{
    text::lemma_decimal(n);
    law_numerals_hold_digits(text::decimal(n));
}

/// There is no other such text: whatever decimal digits are worth `n`, without a zero in front,
/// are the decimal text of `n`.
pub proof fn law_decimal_is_unique(t: Seq<char>)
    requires
        t.len() > 0,
        forall|i: int| 0 <= i < t.len() ==> is_decimal_digit(#[trigger] t[i]),
        t.len() > 1 ==> t[0] != '0',
    ensures
        text::decimal(text::numeral_value(t, 10)) == t,
        t.len() > 1 ==> text::numeral_value(t, 10) >= 10,
        t[0] != '0' ==> text::numeral_value(t, 10) > 0,
    decreases t.len(),
{
    let c = t.last();
    let d = text::digit_value(c)->0;
    assert(is_decimal_digit(c));
    let front = t.drop_last();
    assert(t =~= front.push(c));
    if front.len() == 0 {
        assert(text::numeral_value(front, 10) == 0);
        assert(text::decimal(d) =~= t);
    } else {
        assert forall|i: int| 0 <= i < front.len() implies is_decimal_digit(#[trigger] front[i]) by {
            assert(front[i] == t[i]);
        }
        assert(front[0] == t[0]);
        law_decimal_is_unique(front);
        let m = text::numeral_value(front, 10);
        let n = text::numeral_value(t, 10);
        assert(n == m * 10 + d);
        assert(n / 10 == m && n % 10 == d);
        assert(text::decimal(n) =~= t);
    }
}

/// The hexadecimal text of a number: digits in lower case that are worth the number, the first
/// of which is a zero only where it is the only one.
pub proof fn law_lower_hex(n: nat)
    ensures
        text::lower_hex(n).len() > 0,
        forall|i: int|
            0 <= i < text::lower_hex(n).len() ==> is_decimal_digit(
                #[trigger] text::lower_hex(n)[i],
            ) || 'a' <= text::lower_hex(n)[i] <= 'f',
        text::lower_hex(n).len() > 1 ==> text::lower_hex(n)[0] != '0',
        n > 0 ==> text::lower_hex(n)[0] != '0',
        text::numeral_value(text::lower_hex(n), 16) == n,
    decreases n,
{
    text::lemma_lower_hex(n);
    law_digits_are_written(n % 16);
    if n >= 16 {
        law_lower_hex(n / 16);
        let front = text::lower_hex(n / 16);
        let t = text::lower_hex(n);
        assert(t == front.push(text::digit_char(n % 16)));
        assert(t[0] == front[0]);
        assert forall|i: int| 0 <= i < t.len() implies is_decimal_digit(#[trigger] t[i]) || 'a'
            <= t[i] <= 'f' by {
            if i < front.len() {
                assert(t[i] == front[i]);
            }
        }
    } else {
        law_digits_are_written(n);
    }
}

/// One piece joins to itself, and a further piece follows behind a separator.
pub proof fn law_join(parts: Seq<Seq<char>>, last: Seq<char>, sep: char)
    ensures
        pieces::join(seq![last], sep) == last,
        parts.len() > 0 ==> pieces::join(parts.push(last), sep) == pieces::join(parts, sep) + seq![
            sep,
        ] + last,
        pieces::join(seq![], sep) == Seq::<char>::empty(),
    decreases parts.len(),
{
    if parts.len() > 0 {
        let all = parts.push(last);
        assert(all.drop_first() =~= parts.drop_first().push(last));
        assert(all[0] == parts[0]);
        assert(pieces::join(all, sep) == all[0] + seq![sep] + pieces::join(all.drop_first(), sep));
        if parts.len() == 1 {
            assert(all.drop_first() =~= seq![last]);
            assert(pieces::join(seq![last], sep) == last);
        } else {
            law_join(parts.drop_first(), last, sep);
        }
        assert(pieces::join(all, sep) =~= pieces::join(parts, sep) + seq![sep] + last);
    }
}

/// A text is split into pieces that hold no separator, and that join to the text.
pub proof fn law_split(t: Seq<char>, sep: char)
    ensures
        pieces::split(t, sep).len() > 0,
        pieces::join(pieces::split(t, sep), sep) == t,
        forall|i: int|
            0 <= i < pieces::split(t, sep).len() ==> !(#[trigger] pieces::split(t, sep)[i]).contains(
                sep,
            ),
    decreases t.len(),
{
    pieces::law_join_split(t, sep);
    pieces::lemma_index_of_char(t, sep);
    let k = pieces::index_of_char(t, sep) as int;
    let parts = pieces::split(t, sep);
    if k < t.len() {
        law_split(t.skip(k + 1), sep);
        let rest = pieces::split(t.skip(k + 1), sep);
        assert forall|i: int| 0 <= i < parts.len() implies !(#[trigger] parts[i]).contains(
            sep,
        ) by {
            if i > 0 {
                assert(parts[i] == rest[i - 1]);
            }
        }
    }
}

/// Of two adjacent characters, the first ones are found.
pub proof fn law_first_pair(t: Seq<char>, c: char)
    ensures
        ({
            let k = pieces::index_of_pair(t, c) as int;
            &&& k <= t.len()
            &&& k < t.len() ==> k + 1 < t.len() && t[k] == c && t[k + 1] == c
            &&& forall|j: int|
                #![trigger t[j]]
                0 <= j < k && j + 1 < t.len() ==> !(t[j] == c && t[j + 1] == c)
        }),
    decreases t.len(),
{
    if t.len() > 0 && !pieces::is_pair_at(t, c, 0) {
        let rest = t.drop_first();
        law_first_pair(rest, c);
        let k = pieces::index_of_pair(t, c) as int;
        assert(k == 1 + pieces::index_of_pair(rest, c));
        assert forall|j: int|
            #![trigger t[j]]
            0 <= j < k && j + 1 < t.len() implies !(t[j] == c && t[j + 1] == c) by {
            if j > 0 {
                assert(t[j] == rest[j - 1]);
                assert(t[j + 1] == rest[j]);
            }
        }
    }
}

} // verus!
