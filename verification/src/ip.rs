//! Internet addresses and their text.

use vstd::prelude::*;
use vstd::slice::slice_subrange;

use crate::pieces;
use crate::pieces::{find_pair, split_chars};
use crate::text;
use crate::text::{chars_of, push_decimal, push_lower_hex, read_numeral};

verus! {

/// An address of either family, as its octets in network order.
#[derive(Clone, Copy, Debug, PartialEq, Eq)]
pub enum IpAddress {
    V4([u8; 4]),
    V6([u8; 16]),
}

/// The octets of an address, in network order.
pub open spec fn ip_octets(ip: IpAddress) -> Seq<u8> {
    match ip {
        IpAddress::V4(o) => o@,
        IpAddress::V6(o) => o@,
    }
}

/// The number that two octets write in network order.
pub open spec fn be16(high: u8, low: u8) -> u16 {
    (high * 256 + low) as u16
}

/// The 16-bit segments that `octets` write in network order.
pub open spec fn segments(octets: Seq<u8>) -> Seq<u16> {
    Seq::new(octets.len() / 2, |i: int| be16(octets[2 * i], octets[2 * i + 1]))
}

/// The octets that write `segs` in network order.
pub open spec fn segment_octets(segs: Seq<u16>) -> Seq<u8> {
    Seq::new(
        2 * segs.len(),
        |i: int|
            if i % 2 == 0 {
                (segs[i / 2] / 256) as u8
            } else {
                (segs[i / 2] % 256) as u8
            },
    )
}

/// The value of a decimal octet: up to three digits, below 256, without a leading zero.
pub open spec fn octet_value(t: Seq<char>) -> Option<u8> {
    let n = text::numeral_value(t, 10);
    if 1 <= t.len() <= 3 && text::is_numeral(t, 10) && (t.len() == 1 || t[0] != '0') && n
        < 256 {
        Some(n as u8)
    } else {
        None
    }
}

/// The four octets that a dotted-decimal text denotes.
pub open spec fn ipv4_value(t: Seq<char>) -> Option<Seq<u8>> {
    let parts = pieces::split(t, '.');
    if parts.len() == 4 && (forall|i: int|
        0 <= i < 4 ==> octet_value(#[trigger] parts[i]) is Some) {
        Some(parts.map_values(|p: Seq<char>| octet_value(p)->0))
    } else {
        None
    }
}

/// The dotted-decimal text of four octets.
pub open spec fn ipv4_text(octets: Seq<u8>) -> Seq<char> {
    pieces::join(octets.map_values(|o: u8| text::decimal(o as nat)), '.')
}

/// The value of a hexadecimal group: one to four digits of either case.
pub open spec fn group_value(t: Seq<char>) -> Option<u16> {
    if 1 <= t.len() <= 4 && text::is_numeral(t, 16) {
        Some(text::numeral_value(t, 16) as u16)
    } else {
        None
    }
}

/// The values of `parts`, where each of them is a hexadecimal group.
pub open spec fn group_values(parts: Seq<Seq<char>>) -> Option<Seq<u16>> {
    if forall|i: int| 0 <= i < parts.len() ==> group_value(#[trigger] parts[i]) is Some {
        Some(parts.map_values(|p: Seq<char>| group_value(p)->0))
    } else {
        None
    }
}

/// The segments that a text of colon-separated groups denotes. Where `with_ipv4` holds, the
/// last group may be a dotted-decimal address, which counts for two segments.
pub open spec fn colon_groups(t: Seq<char>, with_ipv4: bool) -> Option<Seq<u16>> {
    let parts = pieces::split(t, ':');
    if t.len() == 0 {
        Some(seq![])
    } else if with_ipv4 && ipv4_value(parts.last()) is Some {
        match group_values(parts.drop_last()) {
            Some(front) => Some(front + segments(ipv4_value(parts.last())->0)),
            None => None,
        }
    } else {
        group_values(parts)
    }
}

/// The eight segments that an IPv6 text denotes. Two adjacent colons stand, once, for one or
/// more segments of zero.
pub open spec fn ipv6_value(t: Seq<char>) -> Option<Seq<u16>> {
    let k = pieces::index_of_pair(t, ':') as int;
    if k >= t.len() {
        match colon_groups(t, true) {
            Some(segs) if segs.len() == 8 => Some(segs),
            _ => None,
        }
    } else {
        match (colon_groups(t.take(k), false), colon_groups(t.skip(k + 2), true)) {
            (Some(head), Some(tail)) if head.len() + tail.len() <= 7 => Some(
                head + Seq::new((8 - head.len() - tail.len()) as nat, |i: int| 0u16) + tail,
            ),
            _ => None,
        }
    }
}

/// The hexadecimal text of `segs`, with colons between them.
pub open spec fn colon_text(segs: Seq<u16>) -> Seq<char> {
    pieces::join(segs.map_values(|s: u16| text::lower_hex(s as nat)), ':')
}

/// Whether the `n` segments from `start` on are all zero.
pub open spec fn is_zero_run(segs: Seq<u16>, start: int, n: int) -> bool {
    &&& 0 <= start
    &&& 0 <= n
    &&& start + n <= segs.len()
    &&& forall|i: int| start <= i < start + n ==> segs[i] == 0
}

/// Whether the run of `n` zeros at `start` is the longest one, and the first of that length.
pub open spec fn is_longest_zero_run(segs: Seq<u16>, start: int, n: int) -> bool {
    &&& is_zero_run(segs, start, n)
    &&& forall|i: int, m: int| #[trigger] is_zero_run(segs, i, m) ==> m <= n
    &&& forall|i: int| 0 <= i < start ==> !#[trigger] is_zero_run(segs, i, n)
}

/// Where the longest run of zero segments starts, and how long it is.
#[verifier::opaque]
pub open spec fn longest_zero_run(segs: Seq<u16>) -> (int, int) {
    choose|run: (int, int)| #[trigger] is_longest_zero_run(segs, run.0, run.1)
}

/// Whether the segments are those of an IPv4-mapped address, `::ffff:0:0/96`.
pub open spec fn is_ipv4_mapped(segs: Seq<u16>) -> bool {
    is_zero_run(segs, 0, 5) && segs[5] == 0xffff
}

/// The canonical text of eight segments: the longest run of two or more zeros is written as
/// two colons, and an IPv4-mapped address ends in dotted decimal.
pub open spec fn ipv6_text(segs: Seq<u16>) -> Seq<char> {
    let (start, n) = longest_zero_run(segs);
    if is_ipv4_mapped(segs) {
        seq![':', ':', 'f', 'f', 'f', 'f', ':'] + ipv4_text(segment_octets(segs.skip(6)))
    } else if n > 1 {
        colon_text(segs.take(start)) + seq![':', ':'] + colon_text(segs.skip(start + n))
    } else {
        colon_text(segs)
    }
}

/// The canonical text of an address.
pub open spec fn ip_text(ip: IpAddress) -> Seq<char> {
    match ip {
        IpAddress::V4(o) => ipv4_text(o@),
        IpAddress::V6(o) => ipv6_text(segments(o@)),
    }
}

/// The address that a text denotes, of either family, as octets.
pub open spec fn ip_value(t: Seq<char>) -> Option<Seq<u8>> {
    match ipv4_value(t) {
        Some(o) => Some(o),
        None => match ipv6_value(t) {
            Some(segs) => Some(segment_octets(segs)),
            None => None,
        },
    }
}

pub proof fn lemma_longest_zero_run_is(segs: Seq<u16>, start: int, n: int)
    requires
        is_longest_zero_run(segs, start, n),
    ensures
        longest_zero_run(segs) == (start, n),
{
    reveal(longest_zero_run);
    let run = (start, n);
    assert(is_longest_zero_run(segs, run.0, run.1));
    let other = longest_zero_run(segs);
    assert(is_longest_zero_run(segs, other.0, other.1));
    assert(other.1 == n);
    assert(!(other.0 < start));
    assert(!(start < other.0));
}

fn read_octet(t: &[char]) -> (o: Option<u8>)
    ensures
        o == octet_value(t@),
{
    if t.len() > 3 || (t.len() > 1 && t[0] == '0') {
        return None;
    }
    match read_numeral(t, 10) {
        Some(n) => if n < 256 {
            Some(n as u8)
        } else {
            None
        },
        None => None,
    }
}

/// Reads a dotted-decimal address.
pub fn parse_ipv4(t: &[char]) -> (r: Option<[u8; 4]>)
    ensures
        r matches Some(o) ==> ipv4_value(t@) == Some(o@),
        r is None ==> ipv4_value(t@) is None,
{
    let parts = split_chars(t, '.');
    let ghost pieces = pieces::split(t@, '.');
    proof {
        assert(pieces.len() == parts@.len());
        assert forall|i: int| 0 <= i < pieces.len() implies pieces[i] == parts@[i]@ by {
            assert(pieces::views(parts@)[i] == parts@[i]@);
        }
    }
    if parts.len() != 4 {
        return None;
    }
    let mut octets: [u8; 4] = [0, 0, 0, 0];
    let mut i: usize = 0;
    while i < 4
        invariant
            i <= 4,
            parts@.len() == 4,
            pieces == pieces::split(t@, '.'),
            pieces.len() == 4,
            forall|j: int| 0 <= j < 4 ==> #[trigger] pieces[j] == parts@[j]@,
            forall|j: int| 0 <= j < i ==> octet_value(#[trigger] pieces[j]) == Some(octets@[j]),
        decreases 4 - i,
    {
        match read_octet(parts[i].as_slice()) {
            Some(o) => {
                octets[i] = o;
            },
            None => {
                proof {
                    assert(octet_value(pieces[i as int]) is None);
                }
                return None;
            },
        }
        i += 1;
    }
    proof {
        assert(pieces.map_values(|p: Seq<char>| octet_value(p)->0) =~= octets@);
    }
    Some(octets)
}

fn read_group(t: &[char]) -> (g: Option<u16>)
    ensures
        g == group_value(t@),
{
    read_numeral(t, 16)
}

/// Reads colon-separated groups, the last of which may be dotted decimal where `with_ipv4`
/// holds.
fn parse_colon_groups(t: &[char], with_ipv4: bool) -> (r: Option<Vec<u16>>)
    ensures
        r matches Some(segs) ==> colon_groups(t@, with_ipv4) == Some(segs@),
        r is None ==> colon_groups(t@, with_ipv4) is None,
{
    let mut segs: Vec<u16> = Vec::new();
    if t.len() == 0 {
        return Some(segs);
    }
    let parts = split_chars(t, ':');
    let ghost pieces = pieces::split(t@, ':');
    proof {
        pieces::law_join_split(t@, ':');
        assert(pieces.len() == parts@.len());
        assert forall|i: int| 0 <= i < pieces.len() implies pieces[i] == parts@[i]@ by {
            assert(pieces::views(parts@)[i] == parts@[i]@);
        }
    }
    let mut count: usize = parts.len();
    let mut embedded: Option<[u8; 4]> = None;
    if with_ipv4 {
        embedded = parse_ipv4(parts[parts.len() - 1].as_slice());
        if embedded.is_some() {
            count = count - 1;
        }
    }
    let ghost front = pieces.take(count as int);
    proof {
        if embedded is Some {
            assert(front =~= pieces.drop_last());
        } else {
            assert(front =~= pieces);
        }
    }
    let mut i: usize = 0;
    while i < count
        invariant
            i <= count <= parts@.len(),
            front.len() == count,
            forall|j: int| 0 <= j < count ==> #[trigger] front[j] == parts@[j]@,
            segs@.len() == i,
            forall|j: int| 0 <= j < i ==> group_value(#[trigger] front[j]) == Some(segs@[j]),
            t@.len() > 0,
            pieces == pieces::split(t@, ':'),
            embedded is Some ==> with_ipv4 && ipv4_value(pieces.last()) is Some && front
                == pieces.drop_last(),
            embedded is None ==> !(with_ipv4 && ipv4_value(pieces.last()) is Some) && front
                == pieces,
        decreases count - i,
    {
        match read_group(parts[i].as_slice()) {
            Some(g) => {
                segs.push(g);
            },
            None => {
                proof {
                    assert(group_value(front[i as int]) is None);
                    assert(group_values(front) is None);
                }
                return None;
            },
        }
        i += 1;
    }
    proof {
        assert(front.map_values(|p: Seq<char>| group_value(p)->0) =~= segs@);
        assert(group_values(front) == Some(segs@));
    }
    match embedded {
        Some(o) => {
            let ghost before = segs@;
            segs.push((o[0] as u16) * 256 + o[1] as u16);
            segs.push((o[2] as u16) * 256 + o[3] as u16);
            proof {
                assert(segs@ =~= before + segments(o@));
            }
        },
        None => {},
    }
    Some(segs)
}

/// Reads an IPv6 address, as its eight segments.
fn parse_ipv6_segments(t: &[char]) -> (r: Option<Vec<u16>>)
    ensures
        r matches Some(segs) ==> ipv6_value(t@) == Some(segs@) && segs@.len() == 8,
        r is None ==> ipv6_value(t@) is None,
{
    let k = find_pair(t, ':');
    if k >= t.len() {
        match parse_colon_groups(t, true) {
            Some(segs) => if segs.len() == 8 {
                Some(segs)
            } else {
                None
            },
            None => None,
        }
    } else {
        proof {
            assert(t@.subrange(0, k as int) =~= t@.take(k as int));
            assert(t@.subrange(k + 2, t@.len() as int) =~= t@.skip(k + 2));
        }
        let head = match parse_colon_groups(slice_subrange(t, 0, k), false) {
            Some(head) => head,
            None => {
                return None;
            },
        };
        let tail = match parse_colon_groups(slice_subrange(t, k + 2, t.len()), true) {
            Some(tail) => tail,
            None => {
                return None;
            },
        };
        if head.len() > 7 || tail.len() > 7 - head.len() {
            return None;
        }
        let mut segs: Vec<u16> = head;
        let ghost zeros = Seq::new((8 - head@.len() - tail@.len()) as nat, |i: int| 0u16);
        while segs.len() < 8 - tail.len()
            invariant
                head@.len() + tail@.len() <= 7,
                head@.len() <= segs@.len() <= 8 - tail@.len(),
                zeros == Seq::new((8 - head@.len() - tail@.len()) as nat, |i: int| 0u16),
                segs@ == head@ + zeros.take(segs@.len() - head@.len()),
            decreases 8 - segs@.len(),
        {
            segs.push(0);
        }
        proof {
            assert(zeros.take(segs@.len() - head@.len()) =~= zeros);
        }
        let mut i: usize = 0;
        while i < tail.len()
            invariant
                i <= tail@.len() <= 7,
                segs@ == head@ + zeros + tail@.take(i as int),
            decreases tail@.len() - i,
        {
            segs.push(tail[i]);
            i += 1;
        }
        proof {
            assert(tail@.take(i as int) =~= tail@);
        }
        Some(segs)
    }
}

/// Reads an address of either family.
pub fn parse_ip(s: &str) -> (r: Option<IpAddress>)
    ensures
        r matches Some(ip) ==> ip_value(s@) == Some(ip_octets(ip)) && (ip is V4
            <==> ipv4_value(s@) is Some),
        r is None ==> ip_value(s@) is None,
{
    let t = chars_of(s);
    match parse_ipv4(t.as_slice()) {
        Some(o) => Some(IpAddress::V4(o)),
        None => match parse_ipv6_segments(t.as_slice()) {
            Some(segs) => {
                let mut octets: [u8; 16] = [0; 16];
                let mut i: usize = 0;
                while i < 8
                    invariant
                        i <= 8,
                        segs@.len() == 8,
                        forall|j: int|
                            0 <= j < 2 * i ==> octets@[j] == #[trigger] segment_octets(segs@)[j],
                    decreases 8 - i,
                {
                    octets[2 * i] = (segs[i] / 256) as u8;
                    octets[2 * i + 1] = (segs[i] % 256) as u8;
                    i += 1;
                }
                proof {
                    assert(octets@ =~= segment_octets(segs@));
                }
                Some(IpAddress::V6(octets))
            },
            None => None,
        },
    }
}

fn push_ipv4(out: &mut String, octets: [u8; 4])
    ensures
        final(out)@ == old(out)@ + ipv4_text(octets@),
{
    push_decimal(out, octets[0] as u16);
    out.push('.');
    push_decimal(out, octets[1] as u16);
    out.push('.');
    push_decimal(out, octets[2] as u16);
    out.push('.');
    push_decimal(out, octets[3] as u16);
    proof {
        let d = octets@.map_values(|o: u8| text::decimal(o as nat));
        reveal_with_fuel(pieces::join, 5);
        assert(d.drop_first().drop_first().drop_first()[0] == d[3]);
        assert(out@ =~= old(out)@ + pieces::join(d, '.'));
    }
}

fn push_colon_groups(out: &mut String, segs: &Vec<u16>, from: usize, to: usize)
    requires
        from <= to <= segs@.len(),
    ensures
        final(out)@ == old(out)@ + colon_text(segs@.subrange(from as int, to as int)),
    decreases to - from,
{
    let ghost part = segs@.subrange(from as int, to as int);
    let ghost d = part.map_values(|s: u16| text::lower_hex(s as nat));
    if from < to {
        push_lower_hex(out, segs[from]);
        if from + 1 < to {
            out.push(':');
            push_colon_groups(out, segs, from + 1, to);
            proof {
                let rest = segs@.subrange(from + 1, to as int);
                assert(d.drop_first() =~= rest.map_values(|s: u16| text::lower_hex(s as nat)));
                assert(out@ =~= old(out)@ + pieces::join(d, ':'));
            }
        }
    }
    proof {
        assert(out@ =~= old(out)@ + pieces::join(d, ':'));
    }
}

fn find_longest_zero_run(segs: &Vec<u16>) -> (run: (usize, usize))
    ensures
        longest_zero_run(segs@) == (run.0 as int, run.1 as int),
        run.0 + run.1 <= segs@.len(),
{
    let mut start: usize = 0;
    let mut n: usize = 0;
    let mut i: usize = 0;
    while i < segs.len()
        invariant
            i <= segs@.len(),
            is_zero_run(segs@, start as int, n as int),
            forall|j: int, m: int| 0 <= j < i && #[trigger] is_zero_run(segs@, j, m) ==> m <= n,
            forall|j: int| 0 <= j < start ==> !#[trigger] is_zero_run(segs@, j, n as int),
        decreases segs@.len() - i,
    {
        let mut end: usize = i;
        while end < segs.len() && segs[end] == 0
            invariant
                i <= end <= segs@.len(),
                is_zero_run(segs@, i as int, end - i),
            decreases segs@.len() - end,
        {
            end += 1;
        }
        proof {
            assert forall|m: int| #[trigger] is_zero_run(segs@, i as int, m) implies m <= end
                - i by {
                if m > end - i {
                    assert(segs@[end as int] == 0);
                }
            }
        }
        if end - i > n {
            start = i;
            n = end - i;
        }
        i += 1;
    }
    proof {
        assert forall|j: int, m: int| #[trigger] is_zero_run(segs@, j, m) implies m <= n by {
            if j >= segs@.len() {
                assert(m <= 0);
            }
        }
        lemma_longest_zero_run_is(segs@, start as int, n as int);
    }
    (start, n)
}

pub(crate) fn segments_of(octets: &[u8; 16]) -> (segs: Vec<u16>)
    ensures
        segs@ == segments(octets@),
        segs@.len() == 8,
{
    let mut segs: Vec<u16> = Vec::new();
    let mut i: usize = 0;
    while i < 8
        invariant
            i <= 8,
            segs@.len() == i,
            forall|j: int| 0 <= j < i ==> #[trigger] segs@[j] == segments(octets@)[j],
        decreases 8 - i,
    {
        segs.push((octets[2 * i] as u16) * 256 + octets[2 * i + 1] as u16);
        i += 1;
    }
    proof {
        assert(segs@ =~= segments(octets@));
    }
    segs
}

fn is_mapped(segs: &Vec<u16>) -> (b: bool)
    requires
        segs@.len() == 8,
    ensures
        b == is_ipv4_mapped(segs@),
{
    let b = segs[0] == 0 && segs[1] == 0 && segs[2] == 0 && segs[3] == 0 && segs[4] == 0 && segs[5]
        == 0xffff;
    proof {
        if is_ipv4_mapped(segs@) {
            assert(segs@[0] == 0 && segs@[1] == 0 && segs@[2] == 0 && segs@[3] == 0 && segs@[4]
                == 0);
        }
    }
    b
}

fn push_mapped(out: &mut String, octets: &[u8; 16])
    ensures
        final(out)@ == old(out)@ + (seq![':', ':', 'f', 'f', 'f', 'f', ':'] + ipv4_text(
            octets@.skip(12),
        )),
{
    out.push(':');
    out.push(':');
    out.push('f');
    out.push('f');
    out.push('f');
    out.push('f');
    out.push(':');
    let low: [u8; 4] = [octets[12], octets[13], octets[14], octets[15]];
    push_ipv4(out, low);
    proof {
        assert(low@ =~= octets@.skip(12));
        assert(out@ =~= old(out)@ + (seq![':', ':', 'f', 'f', 'f', 'f', ':'] + ipv4_text(low@)));
    }
}

fn push_compressed(out: &mut String, segs: &Vec<u16>, start: usize, n: usize)
    requires
        start + n <= segs@.len(),
    ensures
        final(out)@ == old(out)@ + (colon_text(segs@.take(start as int)) + seq![':', ':']
            + colon_text(segs@.skip(start + n))),
{
    let count = segs.len();
    push_colon_groups(out, segs, 0, start);
    out.push(':');
    out.push(':');
    push_colon_groups(out, segs, start + n, count);
    proof {
        assert(segs@.subrange(0, start as int) =~= segs@.take(start as int));
        assert(segs@.subrange(start + n, segs@.len() as int) =~= segs@.skip(start + n));
        let head = colon_text(segs@.take(start as int));
        let tail = colon_text(segs@.skip(start + n));
        assert(out@ =~= old(out)@ + (head + seq![':', ':'] + tail));
    }
}

fn push_ipv6(out: &mut String, octets: &[u8; 16])
    ensures
        final(out)@ == old(out)@ + ipv6_text(segments(octets@)),
{
    let segs = segments_of(octets);
    let (start, n) = find_longest_zero_run(&segs);
    if is_mapped(&segs) {
        push_mapped(out, octets);
        proof {
            lemma_last_segments(octets@);
        }
    } else if n > 1 {
        push_compressed(out, &segs, start, n);
    } else {
        push_colon_groups(out, &segs, 0, 8);
        proof {
            assert(segs@.subrange(0, 8) =~= segs@);
        }
    }
}

impl IpAddress {
    /// The canonical text of the address.
    pub fn to_text(&self) -> (s: String)
        ensures
            s@ == ip_text(*self),
    {
        let mut out = String::new();
        match self {
            IpAddress::V4(o) => {
                push_ipv4(&mut out, *o);
            },
            IpAddress::V6(o) => {
                push_ipv6(&mut out, o);
            },
        }
        proof {
            assert(out@ =~= ip_text(*self));
        }
        out
    }
}

/// The last two segments are the last four octets.
proof fn lemma_last_segments(octets: Seq<u8>)
    requires
        octets.len() == 16,
    ensures
        segment_octets(segments(octets).skip(6)) == octets.skip(12),
{
    let low = segments(octets).skip(6);
    assert(low[0] == octets[12] * 256 + octets[13]);
    assert(low[1] == octets[14] * 256 + octets[15]);
    assert(segment_octets(low) =~= octets.skip(12));
}

/// Octets and segments in network order say the same.
pub proof fn lemma_segment_octets(octets: Seq<u8>)
    requires
        octets.len() % 2 == 0,
    ensures
        segment_octets(segments(octets)) == octets,
{
    let segs = segments(octets);
    assert forall|i: int| 0 <= i < octets.len() implies segment_octets(segs)[i] == octets[i] by {
        let s = segs[i / 2];
        assert(s == octets[2 * (i / 2)] * 256 + octets[2 * (i / 2) + 1]);
    }
    assert(segment_octets(segs) =~= octets);
}

} // verus!
