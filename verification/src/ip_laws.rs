//! The text of an address and the address say the same.

use vstd::prelude::*;

use crate::ip;
use crate::ip::IpAddress;
use crate::{pieces, text, text_laws};

verus! {

/// Dotted decimal holds no colon.
proof fn lemma_ipv4_holds_no_colon(t: Seq<char>)
    requires
        ip::ipv4_value(t) is Some,
    ensures
        !t.contains(':'),
{
    let parts = pieces::split(t, '.');
    pieces::law_join_split(t, '.');
    if t.contains(':') {
        pieces::lemma_join_contains(parts, '.', ':');
        let i = choose|i: int| 0 <= i < parts.len() && (#[trigger] parts[i]).contains(':');
        assert(ip::octet_value(parts[i]) is Some);
        text::lemma_numeral_holds_digits(parts[i], 10, ':');
    }
}

/// Reading the dotted-decimal text of four octets gives those octets.
pub proof fn law_ipv4_round_trip(octets: Seq<u8>)
    requires
        octets.len() == 4,
    ensures
        ip::ipv4_value(ip::ipv4_text(octets)) == Some(octets),
{
    let d = octets.map_values(|o: u8| text::decimal(o as nat));
    assert forall|i: int| 0 <= i < d.len() implies !(#[trigger] d[i]).contains('.') && ip::octet_value(
        d[i],
    ) == Some(octets[i]) by {
        text::lemma_decimal(octets[i] as nat);
        text::lemma_numeral_holds_digits(d[i], 10, '.');
    }
    pieces::law_split_join(d, '.');
    assert(d.map_values(|p: Seq<char>| ip::octet_value(p)->0) =~= octets);
}

/// What the colon-separated text of segments looks like, and what it denotes.
proof fn lemma_colon_text(segs: Seq<u16>, with_ipv4: bool)
    ensures
        ip::colon_groups(ip::colon_text(segs), with_ipv4) == Some(segs),
        forall|k: int| !#[trigger] pieces::is_pair_at(ip::colon_text(segs), ':', k),
        segs.len() > 0 ==> ip::colon_text(segs).len() > 0 && ip::colon_text(segs).last() != ':',
        segs.len() == 0 ==> ip::colon_text(segs).len() == 0,
{
    let h = segs.map_values(|s: u16| text::lower_hex(s as nat));
    if segs.len() > 0 {
        assert forall|i: int| 0 <= i < h.len() implies !(#[trigger] h[i]).contains(':')
            && h[i].len() > 0 && ip::group_value(h[i]) == Some(segs[i]) && !h[i].contains('.') by {
            text::lemma_lower_hex(segs[i] as nat);
            text::lemma_numeral_holds_digits(h[i], 16, ':');
            text::lemma_numeral_holds_digits(h[i], 16, '.');
        }
        pieces::law_split_join(h, ':');
        pieces::lemma_join_no_pair(h, ':');
        pieces::lemma_split_whole(h.last(), '.');
        assert(h.map_values(|p: Seq<char>| ip::group_value(p)->0) =~= segs);
    } else {
        assert(ip::colon_groups(ip::colon_text(segs), with_ipv4)->0 =~= segs);
    }
}

proof fn lemma_mapped_round_trip(segs: Seq<u16>)
    requires
        segs.len() == 8,
        ip::is_ipv4_mapped(segs),
    ensures
        ip::ipv6_value(ip::ipv6_text(segs)) == Some(segs),
        ip::ipv6_text(segs).contains(':'),
{
    let t = ip::ipv6_text(segs);
    let low = segs.skip(6);
    let octets = ip::segment_octets(low);
    let v4 = ip::ipv4_text(octets);
    law_ipv4_round_trip(octets);
    lemma_ipv4_holds_no_colon(v4);
    assert(t[0] == ':');
    pieces::lemma_index_of_pair_is(t, ':', 0);
    let ffff = seq!['f', 'f', 'f', 'f'];
    let tail = t.skip(2);
    let parts = seq![ffff, v4];
    reveal_with_fuel(pieces::join, 3);
    assert(parts.drop_first() =~= seq![v4]);
    assert(tail =~= pieces::join(parts, ':'));
    assert forall|i: int| 0 <= i < parts.len() implies !(#[trigger] parts[i]).contains(':') by {
        if i == 0 {
        } else {
            assert(parts[i] == v4);
        }
    }
    pieces::law_split_join(parts, ':');
    assert(parts.last() == v4);
    let front = parts.drop_last();
    assert(ip::group_values(front) == Some(seq![0xffffu16])) by {
        reveal_with_fuel(text::numeral_value, 5);
        assert(ffff.drop_last().drop_last().drop_last().drop_last() =~= seq![]);
        assert(ip::group_value(ffff) == Some(0xffffu16));
        assert(front =~= seq![ffff]);
        assert(front.map_values(|p: Seq<char>| ip::group_value(p)->0) =~= seq![0xffffu16]);
    }
    assert(ip::segments(octets) =~= low) by {
        assert forall|i: int| 0 <= i < 2 implies ip::segments(octets)[i] == low[i] by {
            assert(octets[2 * i] == low[i] / 256);
            assert(octets[2 * i + 1] == low[i] % 256);
        }
    }
    assert(ip::colon_groups(t.take(0), false)->0 =~= seq![]);
    let value = seq![] + Seq::new(5, |i: int| 0u16) + (seq![0xffffu16] + low);
    assert(value =~= segs);
}

/// The longest run of zeros, written as two colons between the segments on its two sides.
proof fn lemma_compressed_round_trip(head: Seq<u16>, tail: Seq<u16>)
    requires
        head.len() + tail.len() <= 7,
    ensures
        ({
            let t = ip::colon_text(head) + seq![':', ':'] + ip::colon_text(tail);
            let zeros = Seq::new((8 - head.len() - tail.len()) as nat, |i: int| 0u16);
            ip::ipv6_value(t) == Some(head + zeros + tail) && t.contains(':')
        }),
{
    let h = ip::colon_text(head);
    let t = h + seq![':', ':'] + ip::colon_text(tail);
    lemma_colon_text(head, false);
    lemma_colon_text(tail, true);
    let k = h.len() as int;
    assert(t[k] == ':' && t[k + 1] == ':');
    assert forall|j: int| 0 <= j < k implies !#[trigger] pieces::is_pair_at(t, ':', j) by {
        if j < k - 1 {
            assert(!pieces::is_pair_at(h, ':', j));
        } else {
            assert(t[j] == h.last());
        }
    }
    pieces::lemma_index_of_pair_is(t, ':', k);
    assert(t.take(k) =~= h);
    assert(t.skip(k + 2) =~= ip::colon_text(tail));
}

proof fn lemma_plain_round_trip(segs: Seq<u16>)
    requires
        segs.len() == 8,
    ensures
        ip::ipv6_value(ip::colon_text(segs)) == Some(segs),
        ip::colon_text(segs).contains(':'),
{
    let t = ip::colon_text(segs);
    lemma_colon_text(segs, true);
    pieces::lemma_index_of_pair_is(t, ':', t.len() as int);
    let h = segs.map_values(|s: u16| text::lower_hex(s as nat));
    assert(t == h[0] + seq![':'] + pieces::join(h.drop_first(), ':'));
    assert(t[h[0].len() as int] == ':');
}

/// Reading the canonical text of eight segments gives those segments.
pub proof fn law_ipv6_round_trip(segs: Seq<u16>)
    requires
        segs.len() == 8,
    ensures
        ip::ipv6_value(ip::ipv6_text(segs)) == Some(segs),
        ip::ipv6_text(segs).contains(':'),
{
    let (start, n) = ip::longest_zero_run(segs);
    if ip::is_ipv4_mapped(segs) {
        lemma_mapped_round_trip(segs);
    } else if n > 1 {
        let head = segs.take(start);
        let tail = segs.skip(start + n);
        assert(ip::is_zero_run(segs, start, n)) by {
            lemma_some_longest_zero_run(segs);
        }
        lemma_compressed_round_trip(head, tail);
        assert(head + Seq::new((8 - head.len() - tail.len()) as nat, |i: int| 0u16) + tail
            =~= segs);
    } else {
        lemma_plain_round_trip(segs);
    }
}

/// There is a longest run of zeros among the first `upto` starting points.
proof fn lemma_longest_zero_run_from(segs: Seq<u16>, upto: int) -> (run: (int, int))
    requires
        0 <= upto <= segs.len(),
    ensures
        ip::is_zero_run(segs, run.0, run.1),
        forall|i: int, m: int|
            0 <= i < upto && #[trigger] ip::is_zero_run(segs, i, m) ==> m <= run.1,
        forall|i: int| 0 <= i < run.0 ==> !#[trigger] ip::is_zero_run(segs, i, run.1),
    decreases upto,
{
    if upto == 0 {
        assert(ip::is_zero_run(segs, 0, 0));
        (0, 0)
    } else {
        let run = lemma_longest_zero_run_from(segs, upto - 1);
        let n = lemma_zeros_at(segs, upto - 1);
        if n > run.1 {
            (upto - 1, n)
        } else {
            run
        }
    }
}

/// How many zeros stand at `start`.
proof fn lemma_zeros_at(segs: Seq<u16>, start: int) -> (n: int)
    requires
        0 <= start <= segs.len(),
    ensures
        ip::is_zero_run(segs, start, n),
        forall|m: int| #[trigger] ip::is_zero_run(segs, start, m) ==> m <= n,
    decreases segs.len() - start,
{
    if start == segs.len() || segs[start] != 0 {
        assert forall|m: int| #[trigger] ip::is_zero_run(segs, start, m) implies m <= 0 by {
            if m > 0 {
                assert(segs[start] == 0);
            }
        }
        0
    } else {
        let n = lemma_zeros_at(segs, start + 1);
        assert forall|m: int| #[trigger] ip::is_zero_run(segs, start, m) implies m <= n + 1 by {
            if m > 0 {
                assert(ip::is_zero_run(segs, start + 1, m - 1));
            }
        }
        n + 1
    }
}

proof fn lemma_some_longest_zero_run(segs: Seq<u16>)
    ensures
        ip::is_longest_zero_run(segs, ip::longest_zero_run(segs).0, ip::longest_zero_run(segs).1),
{
    let run = lemma_longest_zero_run_from(segs, segs.len() as int);
    assert forall|i: int, m: int| #[trigger] ip::is_zero_run(segs, i, m) implies m <= run.1 by {
        if i >= segs.len() {
            assert(m <= 0);
        }
    }
    assert(ip::is_longest_zero_run(segs, run.0, run.1));
    reveal(ip::longest_zero_run);
}

/// Reading the text of an address gives the address back, in its own family.
pub proof fn law_ip_round_trip(ip: IpAddress)
    ensures
        ip::ip_value(ip::ip_text(ip)) == Some(ip::ip_octets(ip)),
        ip::ipv4_value(ip::ip_text(ip)) is Some <==> ip is V4,
{
    match ip {
        IpAddress::V4(o) => {
            law_ipv4_round_trip(o@);
        },
        IpAddress::V6(o) => {
            let segs = ip::segments(o@);
            law_ipv6_round_trip(segs);
            ip::lemma_segment_octets(o@);
            if ip::ipv4_value(ip::ip_text(ip)) is Some {
                lemma_ipv4_holds_no_colon(ip::ip_text(ip));
            }
        },
    }
}

/// Octets stand in network order: the high one of each segment comes first.
pub proof fn law_segments(octets: Seq<u8>, segs: Seq<u16>, i: int)
    ensures
        ip::segments(octets).len() == octets.len() / 2,
        0 <= i < octets.len() / 2 ==> ip::segments(octets)[i] == octets[2 * i] * 256 + octets[2 * i
            + 1],
        ip::segment_octets(segs).len() == 2 * segs.len(),
        0 <= i < segs.len() ==> ip::segment_octets(segs)[2 * i] == segs[i] / 256
            && ip::segment_octets(segs)[2 * i + 1] == segs[i] % 256,
{
}

/// The text of an IPv4 address is its octets in decimal, with dots between them.
pub proof fn law_ipv4_text(a: u8, b: u8, c: u8, d: u8)
    ensures
        ip::ipv4_text(seq![a, b, c, d]) == text::decimal(a as nat) + seq!['.'] + text::decimal(
            b as nat,
        ) + seq!['.'] + text::decimal(c as nat) + seq!['.'] + text::decimal(d as nat),
{
    let octets = seq![a, b, c, d];
    let all = octets.map_values(|o: u8| text::decimal(o as nat));
    let one = seq![text::decimal(a as nat)];
    let two = one.push(text::decimal(b as nat));
    let three = two.push(text::decimal(c as nat));
    assert(all =~= three.push(text::decimal(d as nat)));
    text_laws::law_join(one, text::decimal(b as nat), '.');
    text_laws::law_join(two, text::decimal(c as nat), '.');
    text_laws::law_join(three, text::decimal(d as nat), '.');
    text_laws::law_join(seq![], text::decimal(a as nat), '.');
}

/// Only the text of an IPv4 address is read as one.
pub proof fn law_ipv4_is_spelled(t: Seq<char>)
    ensures
        ip::ipv4_value(t) matches Some(octets) ==> octets.len() == 4 && t == ip::ipv4_text(octets),
{
    if let Some(octets) = ip::ipv4_value(t) {
        let parts = pieces::split(t, '.');
        let d = octets.map_values(|o: u8| text::decimal(o as nat));
        assert forall|i: int| 0 <= i < 4 implies #[trigger] d[i] == parts[i] by {
            let p = parts[i];
            assert(ip::octet_value(p) is Some);
            text_laws::law_numerals_hold_digits(p);
            text_laws::law_decimal_is_unique(p);
            assert(octets[i] == ip::octet_value(p)->0);
        }
        assert(d =~= parts);
        pieces::law_join_split(t, '.');
    }
}

/// Whether `g` is a group of an IPv6 address: one to four hexadecimal digits of either case.
pub open spec fn is_group(g: Seq<char>) -> bool {
    1 <= g.len() <= 4 && forall|i: int| 0 <= i < g.len() ==> text_laws::is_hex_digit(#[trigger] g[i])
}

/// The numbers that groups write.
pub open spec fn group_numbers(groups: Seq<Seq<char>>) -> Seq<u16> {
    groups.map_values(|g: Seq<char>| text::numeral_value(g, 16) as u16)
}

/// Groups, and the dotted decimal of `octets` behind them where there are any.
pub open spec fn with_octets(groups: Seq<Seq<char>>, octets: Seq<u8>) -> Seq<Seq<char>> {
    if octets.len() > 0 {
        groups.push(ip::ipv4_text(octets))
    } else {
        groups
    }
}

/// Whether `t` spells the eight segments `segs`: the groups of `tail`, with colons between them
/// and perhaps four octets in dotted decimal in the end; or, where there is a `gap`, such a text
/// behind two colons that stand for one or more zeros, and the groups of `head` before those.
pub open spec fn spells(
    t: Seq<char>,
    head: Seq<Seq<char>>,
    gap: bool,
    tail: Seq<Seq<char>>,
    octets: Seq<u8>,
    segs: Seq<u16>,
) -> bool {
    let end = pieces::join(with_octets(tail, octets), ':');
    let numbers = group_numbers(tail) + ip::segments(octets);
    &&& forall|i: int| 0 <= i < head.len() ==> is_group(#[trigger] head[i])
    &&& forall|i: int| 0 <= i < tail.len() ==> is_group(#[trigger] tail[i])
    &&& octets.len() == 0 || octets.len() == 4
    &&& segs.len() == 8
    &&& if gap {
        &&& t == pieces::join(head, ':') + seq![':', ':'] + end
        &&& head.len() + numbers.len() < 8
        &&& segs.take(head.len() as int) == group_numbers(head)
        &&& segs.skip(8 - numbers.len()) == numbers
        &&& forall|i: int| head.len() <= i < 8 - numbers.len() ==> segs[i] == 0
    } else {
        &&& t == end
        &&& head.len() == 0
        &&& segs == numbers
    }
}

proof fn lemma_groups_are_read(groups: Seq<Seq<char>>, octets: Seq<u8>, with_ipv4: bool)
    requires
        forall|i: int| 0 <= i < groups.len() ==> is_group(#[trigger] groups[i]),
        octets.len() == 0 || octets.len() == 4 && with_ipv4,
    ensures
        ({
            let t = pieces::join(with_octets(groups, octets), ':');
            &&& ip::colon_groups(t, with_ipv4) == Some(group_numbers(groups) + ip::segments(octets))
            &&& forall|k: int| !#[trigger] pieces::is_pair_at(t, ':', k)
            &&& t.len() > 0 ==> t.last() != ':'
        }),
{
    let parts = with_octets(groups, octets);
    let t = pieces::join(parts, ':');
    let numbers = group_numbers(groups);
    assert forall|i: int| 0 <= i < groups.len() implies !(#[trigger] groups[i]).contains(':')
        && !groups[i].contains('.') && groups[i].len() > 0 && ip::group_value(groups[i])
        == Some(numbers[i]) by {
        assert(is_group(groups[i]));
        text_laws::law_numerals_hold_digits(groups[i]);
        text::lemma_numeral_holds_digits(groups[i], 16, ':');
        text::lemma_numeral_holds_digits(groups[i], 16, '.');
    }
    assert(ip::group_values(groups) == Some(numbers)) by {
        assert(groups.map_values(|p: Seq<char>| ip::group_value(p)->0) =~= numbers);
    }
    if octets.len() == 4 {
        law_ipv4_round_trip(octets);
        lemma_ipv4_holds_no_colon(ip::ipv4_text(octets));
        text_laws::law_split(ip::ipv4_text(octets), '.');
        assert(ip::ipv4_text(octets).len() > 0) by {
            if ip::ipv4_text(octets).len() == 0 {
                assert(!ip::ipv4_text(octets).contains('.'));
                pieces::lemma_split_whole(ip::ipv4_text(octets), '.');
            }
        }
    }
    if parts.len() > 0 {
        assert forall|i: int| 0 <= i < parts.len() implies !(#[trigger] parts[i]).contains(':')
            && parts[i].len() > 0 by {
            if i < groups.len() {
                assert(parts[i] == groups[i]);
            }
        }
        pieces::law_split_join(parts, ':');
        pieces::lemma_join_no_pair(parts, ':');
        if octets.len() == 4 {
            assert(parts.drop_last() =~= groups);
        } else {
            assert(parts.last() == groups[groups.len() - 1]);
            pieces::lemma_split_whole(parts.last(), '.');
            assert(numbers + ip::segments(octets) =~= numbers);
        }
    } else {
        assert(numbers + ip::segments(octets) =~= seq![]);
    }
}

/// Whatever spells an IPv6 address is read as that address: all eight groups, or fewer with two
/// colons for the zeros among them, with digits of either case and with zeros in front of them
/// or not, and with the last two segments as groups or in dotted decimal.
pub proof fn law_ipv6_is_read(
    t: Seq<char>,
    head: Seq<Seq<char>>,
    gap: bool,
    tail: Seq<Seq<char>>,
    octets: Seq<u8>,
    segs: Seq<u16>,
)
    requires
        spells(t, head, gap, tail, octets, segs),
    ensures
        ip::ipv6_value(t) == Some(segs),
{
    lemma_groups_are_read(tail, octets, true);
    let numbers = group_numbers(tail) + ip::segments(octets);
    if gap {
        lemma_groups_are_read(head, seq![], false);
        assert(group_numbers(head) + ip::segments(seq![]) =~= group_numbers(head));
        let h = pieces::join(head, ':');
        let k = h.len() as int;
        assert(t[k] == ':' && t[k + 1] == ':');
        assert forall|j: int| 0 <= j < k implies !#[trigger] pieces::is_pair_at(t, ':', j) by {
            if j < k - 1 {
                assert(!pieces::is_pair_at(h, ':', j));
            } else {
                assert(t[j] == h.last());
            }
        }
        pieces::lemma_index_of_pair_is(t, ':', k);
        assert(t.take(k) =~= h);
        assert(t.skip(k + 2) =~= pieces::join(with_octets(tail, octets), ':'));
        let zeros = Seq::new((8 - head.len() - numbers.len()) as nat, |i: int| 0u16);
        let value = group_numbers(head) + zeros + numbers;
        assert forall|i: int| 0 <= i < 8 implies value[i] == segs[i] by {
            if i < head.len() {
                assert(segs.take(head.len() as int)[i] == segs[i]);
            } else if i >= 8 - numbers.len() {
                assert(segs.skip(8 - numbers.len())[i - (8 - numbers.len())] == segs[i]);
            }
        }
        assert(value =~= segs);
    } else {
        pieces::lemma_index_of_pair_is(t, ':', t.len() as int);
    }
}

proof fn lemma_groups_are_spelled(t: Seq<char>, with_ipv4: bool) -> (r: (
    Seq<Seq<char>>,
    Seq<u8>,
))
    requires
        ip::colon_groups(t, with_ipv4) is Some,
    ensures
        forall|i: int| 0 <= i < r.0.len() ==> is_group(#[trigger] r.0[i]),
        r.1.len() == 0 || r.1.len() == 4 && with_ipv4,
        t == pieces::join(with_octets(r.0, r.1), ':'),
        ip::colon_groups(t, with_ipv4)->0 == group_numbers(r.0) + ip::segments(r.1),
{
    let parts = pieces::split(t, ':');
    let segs = ip::colon_groups(t, with_ipv4)->0;
    pieces::law_join_split(t, ':');
    if t.len() == 0 {
        let none = Seq::<Seq<char>>::empty();
        assert(group_numbers(none) + ip::segments(seq![]) =~= segs);
        assert(pieces::join(none, ':') =~= t);
        (none, seq![])
    } else if with_ipv4 && ip::ipv4_value(parts.last()) is Some {
        let groups = parts.drop_last();
        let octets = ip::ipv4_value(parts.last())->0;
        law_ipv4_is_spelled(parts.last());
        assert(groups.push(parts.last()) =~= parts);
        lemma_group_values(groups);
        (groups, octets)
    } else {
        lemma_group_values(parts);
        assert(group_numbers(parts) + ip::segments(seq![]) =~= group_numbers(parts));
        (parts, seq![])
    }
}

proof fn lemma_group_values(groups: Seq<Seq<char>>)
    requires
        ip::group_values(groups) is Some,
    ensures
        forall|i: int| 0 <= i < groups.len() ==> is_group(#[trigger] groups[i]),
        ip::group_values(groups)->0 == group_numbers(groups),
{
    assert forall|i: int| 0 <= i < groups.len() implies is_group(#[trigger] groups[i])
        && ip::group_value(groups[i])->0 == text::numeral_value(groups[i], 16) as u16 by {
        assert(ip::group_value(groups[i]) is Some);
        text_laws::law_numerals_hold_digits(groups[i]);
    }
    assert(ip::group_values(groups)->0 =~= group_numbers(groups));
}

/// Nothing else is read as an IPv6 address: what is read as one spells it.
pub proof fn law_ipv6_is_spelled(t: Seq<char>)
    ensures
        ip::ipv6_value(t) matches Some(segs) ==> exists|
            head: Seq<Seq<char>>,
            gap: bool,
            tail: Seq<Seq<char>>,
            octets: Seq<u8>,
        | #[trigger]
            spells(t, head, gap, tail, octets, segs),
{
    if let Some(segs) = ip::ipv6_value(t) {
        text_laws::law_first_pair(t, ':');
        let k = pieces::index_of_pair(t, ':') as int;
        if k >= t.len() {
            let (tail, octets) = lemma_groups_are_spelled(t, true);
            assert(spells(t, seq![], false, tail, octets, segs));
        } else {
            let (head, none) = lemma_groups_are_spelled(t.take(k), false);
            let (tail, octets) = lemma_groups_are_spelled(t.skip(k + 2), true);
            let before = group_numbers(head);
            let numbers = group_numbers(tail) + ip::segments(octets);
            assert(before + ip::segments(none) =~= before);
            assert(t =~= t.take(k) + seq![':', ':'] + t.skip(k + 2));
            assert(segs.take(head.len() as int) =~= before);
            assert(segs.skip(8 - numbers.len()) =~= numbers);
            assert(spells(t, head, true, tail, octets, segs));
        }
    }
}

/// The text of an IPv4-mapped address ends in dotted decimal.
pub proof fn law_ipv6_text_of_mapped(segs: Seq<u16>)
    requires
        segs.len() == 8,
        forall|i: int| 0 <= i < 5 ==> segs[i] == 0,
        segs[5] == 0xffff,
    ensures
        ip::ipv6_text(segs) == "::ffff:"@ + ip::ipv4_text(
            seq![
                (segs[6] / 256) as u8,
                (segs[6] % 256) as u8,
                (segs[7] / 256) as u8,
                (segs[7] % 256) as u8,
            ],
        ),
{
    reveal_strlit("::ffff:");
    assert("::ffff:"@ =~= seq![':', ':', 'f', 'f', 'f', 'f', ':']);
    let low = segs.skip(6);
    assert(low[0] == segs[6] && low[1] == segs[7]);
    assert(ip::segment_octets(low) =~= seq![
        (segs[6] / 256) as u8,
        (segs[6] % 256) as u8,
        (segs[7] / 256) as u8,
        (segs[7] % 256) as u8,
    ]);
}

/// The hexadecimal texts of segments.
pub open spec fn hex_groups(segs: Seq<u16>) -> Seq<Seq<char>> {
    Seq::new(segs.len(), |i: int| text::lower_hex(segs[i] as nat))
}

/// Where two or more zeros stand together, the first of the longest such runs is written as two
/// colons, with the other segments in hexadecimal on both sides.
pub proof fn law_ipv6_text_of_zeros(segs: Seq<u16>, start: int, n: int)
    requires
        segs.len() == 8,
        (exists|i: int| 0 <= i < 5 && segs[i] != 0) || segs[5] != 0xffff,
        2 <= n,
        0 <= start,
        start + n <= 8,
        forall|i: int| start <= i < start + n ==> segs[i] == 0,
        forall|i: int, m: int|
            #![trigger segs.subrange(i, i + m)]
            0 <= i && n <= m && i + m <= 8 && (i < start || n < m) ==> exists|j: int|
                i <= j < i + m && segs[j] != 0,
    ensures
        ip::ipv6_text(segs) == pieces::join(hex_groups(segs.take(start)), ':') + seq![':', ':']
            + pieces::join(hex_groups(segs.skip(start + n)), ':'),
{
    assert(!ip::is_ipv4_mapped(segs));
    assert(ip::is_zero_run(segs, start, n));
    assert forall|i: int, m: int| #[trigger] ip::is_zero_run(segs, i, m) implies m <= n by {
        if m > n {
            let run = segs.subrange(i, i + m);
            let j = choose|j: int| i <= j < i + m && segs[j] != 0;
            assert(segs[j] == 0);
        }
    }
    assert forall|i: int| 0 <= i < start implies !#[trigger] ip::is_zero_run(segs, i, n) by {
        if ip::is_zero_run(segs, i, n) {
            let run = segs.subrange(i, i + n);
            let j = choose|j: int| i <= j < i + n && segs[j] != 0;
            assert(segs[j] == 0);
        }
    }
    ip::lemma_longest_zero_run_is(segs, start, n);
    lemma_colon_text_is(segs.take(start));
    lemma_colon_text_is(segs.skip(start + n));
}

/// Where no two zeros stand together, all segments are written in hexadecimal, with colons
/// between them.
pub proof fn law_ipv6_text_without_zeros(segs: Seq<u16>)
    requires
        segs.len() == 8,
        forall|i: int| #![trigger segs[i]] 0 <= i < 7 ==> segs[i] != 0 || segs[i + 1] != 0,
    ensures
        ip::ipv6_text(segs) == pieces::join(hex_groups(segs), ':'),
{
    assert(segs[0] != 0 || segs[1] != 0);
    assert(!ip::is_ipv4_mapped(segs)) by {
        if ip::is_ipv4_mapped(segs) {
            assert(segs[0] == 0 && segs[1] == 0);
        }
    }
    lemma_some_longest_zero_run(segs);
    let (start, n) = ip::longest_zero_run(segs);
    assert(n <= 1) by {
        if n > 1 {
            assert(segs[start] == 0 && segs[start + 1] == 0);
        }
    }
    lemma_colon_text_is(segs);
}

proof fn lemma_colon_text_is(segs: Seq<u16>)
    ensures
        ip::colon_text(segs) == pieces::join(hex_groups(segs), ':'),
{
    assert(segs.map_values(|s: u16| text::lower_hex(s as nat)) =~= hex_groups(segs));
}

/// An address of either family is its octets, and its text is that of its family.
pub proof fn law_families(v4: [u8; 4], v6: [u8; 16])
    ensures
        ip::ip_octets(IpAddress::V4(v4)) == v4@,
        ip::ip_octets(IpAddress::V6(v6)) == v6@,
        ip::ip_text(IpAddress::V4(v4)) == ip::ipv4_text(v4@),
        ip::ip_text(IpAddress::V6(v6)) == ip::ipv6_text(ip::segments(v6@)),
{
}

/// A text denotes an address exactly if it denotes one of either family, and then that one.
pub proof fn law_ip_value(t: Seq<char>)
    ensures
        ip::ipv4_value(t) matches Some(octets) ==> ip::ip_value(t) == Some(octets)
            && ip::ipv6_value(t) is None,
        ip::ipv6_value(t) matches Some(segs) ==> ip::ip_value(t) == Some(ip::segment_octets(segs))
            && ip::ipv4_value(t) is None,
        ip::ipv4_value(t) is None && ip::ipv6_value(t) is None ==> ip::ip_value(t) is None,
{
    if ip::ipv4_value(t) is Some {
        lemma_ipv4_holds_no_colon(t);
        text_laws::law_first_pair(t, ':');
        let k = pieces::index_of_pair(t, ':') as int;
        if k < t.len() {
            assert(t.contains(t[k]));
        }
        pieces::lemma_split_whole(t, ':');
        assert(ip::segments(ip::ipv4_value(t)->0).len() == 2);
        assert(ip::group_values(seq![t].drop_last())->0 =~= seq![]);
    }
}

} // verus!
