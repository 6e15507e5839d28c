//! Text as pieces between separators.

use vstd::prelude::*;

verus! {

/// The index of the first `c` in `t`, or the length of `t` where there is none.
pub open spec fn index_of_char(t: Seq<char>, c: char) -> nat
    decreases t.len(),
{
    if t.len() == 0 || t[0] == c {
        0
    } else {
        1 + index_of_char(t.drop_first(), c)
    }
}

/// The pieces of `t` between the separators.
pub open spec fn split(t: Seq<char>, sep: char) -> Seq<Seq<char>>
    decreases t.len(),
{
    let k = index_of_char(t, sep) as int;
    if k >= t.len() {
        seq![t]
    } else {
        seq![t.take(k)] + split(t.skip(k + 1), sep)
    }
}

/// The pieces one behind the other, with a separator between each two.
pub open spec fn join(parts: Seq<Seq<char>>, sep: char) -> Seq<char>
    decreases parts.len(),
{
    if parts.len() == 0 {
        seq![]
    } else if parts.len() == 1 {
        parts[0]
    } else {
        parts[0] + seq![sep] + join(parts.drop_first(), sep)
    }
}

/// Whether two of the character `c` stand at `k` and right behind it.
pub open spec fn is_pair_at(t: Seq<char>, c: char, k: int) -> bool {
    0 <= k && k + 1 < t.len() && t[k] == c && t[k + 1] == c
}

/// The index of the first two adjacent `c` in `t`, or the length of `t` where there are none.
pub open spec fn index_of_pair(t: Seq<char>, c: char) -> nat
    decreases t.len(),
{
    if t.len() == 0 || is_pair_at(t, c, 0) {
        0
    } else {
        1 + index_of_pair(t.drop_first(), c)
    }
}

pub proof fn lemma_index_of_char(t: Seq<char>, c: char)
    ensures
        index_of_char(t, c) <= t.len(),
        forall|j: int| 0 <= j < index_of_char(t, c) ==> t[j] != c,
        index_of_char(t, c) < t.len() ==> t[index_of_char(t, c) as int] == c,
    decreases t.len(),
{
    if t.len() > 0 && t[0] != c {
        lemma_index_of_char(t.drop_first(), c);
        assert forall|j: int| 0 <= j < index_of_char(t, c) implies t[j] != c by {
            if j > 0 {
                assert(t[j] == t.drop_first()[j - 1]);
            }
        }
    }
}

proof fn lemma_index_of_char_is(t: Seq<char>, c: char, k: int)
    requires
        0 <= k <= t.len(),
        forall|j: int| 0 <= j < k ==> t[j] != c,
        k < t.len() ==> t[k] == c,
    ensures
        index_of_char(t, c) == k,
    decreases t.len(),
{
    if k > 0 {
        assert(t[0] != c);
        assert forall|j: int| 0 <= j < k - 1 implies t.drop_first()[j] != c by {
            assert(t.drop_first()[j] == t[j + 1]);
        }
        lemma_index_of_char_is(t.drop_first(), c, k - 1);
    }
}

pub proof fn lemma_index_of_pair_is(t: Seq<char>, c: char, k: int)
    requires
        0 <= k <= t.len(),
        forall|j: int| 0 <= j < k ==> !#[trigger] is_pair_at(t, c, j),
        k < t.len() ==> is_pair_at(t, c, k),
    ensures
        index_of_pair(t, c) == k,
    decreases t.len(),
{
    if k > 0 {
        assert(!is_pair_at(t, c, 0));
        let rest = t.drop_first();
        assert forall|j: int| 0 <= j < k - 1 implies !#[trigger] is_pair_at(rest, c, j) by {
            assert(!is_pair_at(t, c, j + 1));
        }
        lemma_index_of_pair_is(rest, c, k - 1);
    }
}

/// Splitting what was joined gives the pieces back, as long as no piece holds the
/// separator.
pub proof fn law_split_join(parts: Seq<Seq<char>>, sep: char)
    requires
        parts.len() > 0,
        forall|i: int| 0 <= i < parts.len() ==> !(#[trigger] parts[i]).contains(sep),
    ensures
        split(join(parts, sep), sep) == parts,
    decreases parts.len(),
{
    let t = join(parts, sep);
    let k = parts[0].len() as int;
    assert forall|j: int| 0 <= j < k implies t[j] != sep by {
        assert(t[j] == parts[0][j]);
        assert(parts[0].contains(parts[0][j]));
    }
    lemma_index_of_char_is(t, sep, k);
    if parts.len() > 1 {
        let rest = parts.drop_first();
        assert forall|i: int| 0 <= i < rest.len() implies !(#[trigger] rest[i]).contains(sep) by {
            assert(rest[i] == parts[i + 1]);
        }
        law_split_join(rest, sep);
        assert(t.take(k) =~= parts[0]);
        assert(t.skip(k + 1) =~= join(rest, sep));
        assert(seq![parts[0]] + rest =~= parts);
    } else {
        assert(seq![t] =~= parts);
    }
}

/// Joining what was split gives the text back, and there is always at least one piece.
pub proof fn law_join_split(t: Seq<char>, sep: char)
    ensures
        split(t, sep).len() > 0,
        join(split(t, sep), sep) == t,
    decreases t.len(),
{
    let k = index_of_char(t, sep) as int;
    lemma_index_of_char(t, sep);
    if k < t.len() {
        let rest = split(t.skip(k + 1), sep);
        law_join_split(t.skip(k + 1), sep);
        let parts = seq![t.take(k)] + rest;
        assert(parts.drop_first() =~= rest);
        assert(t =~= t.take(k) + seq![sep] + t.skip(k + 1));
    }
}

/// What a joined text holds besides separators comes out of one of its pieces.
pub proof fn lemma_join_contains(parts: Seq<Seq<char>>, sep: char, c: char)
    requires
        join(parts, sep).contains(c),
        c != sep,
    ensures
        exists|i: int| 0 <= i < parts.len() && (#[trigger] parts[i]).contains(c),
    decreases parts.len(),
{
    let t = join(parts, sep);
    let j = choose|j: int| 0 <= j < t.len() && t[j] == c;
    if parts.len() == 1 {
        assert(parts[0].contains(c));
    } else {
        if j < parts[0].len() {
            assert(parts[0][j] == c);
            assert(parts[0].contains(c));
        } else {
            let rest = parts.drop_first();
            let at = j - parts[0].len() - 1;
            assert(join(rest, sep)[at] == c);
            lemma_join_contains(rest, sep, c);
            let i = choose|i: int| 0 <= i < rest.len() && (#[trigger] rest[i]).contains(c);
            assert(parts[i + 1].contains(c));
        }
    }
}

/// A text without separators is one piece.
pub proof fn lemma_split_whole(t: Seq<char>, sep: char)
    requires
        !t.contains(sep),
    ensures
        split(t, sep) == seq![t],
{
    law_split_join(seq![t], sep);
}

/// Pieces that hold no separator and are not empty join to a text without two adjacent
/// separators, which neither starts nor ends with one.
pub proof fn lemma_join_no_pair(parts: Seq<Seq<char>>, sep: char)
    requires
        parts.len() > 0,
        forall|i: int|
            0 <= i < parts.len() ==> !(#[trigger] parts[i]).contains(sep) && parts[i].len() > 0,
    ensures
        join(parts, sep).len() > 0,
        join(parts, sep)[0] != sep,
        join(parts, sep).last() != sep,
        forall|k: int| !#[trigger] is_pair_at(join(parts, sep), sep, k),
    decreases parts.len(),
{
    let t = join(parts, sep);
    let n = parts[0].len() as int;
    assert forall|j: int| 0 <= j < n implies t[j] != sep by {
        assert(t[j] == parts[0][j]);
        assert(parts[0].contains(parts[0][j]));
    }
    if parts.len() > 1 {
        let rest = parts.drop_first();
        assert forall|i: int| 0 <= i < rest.len() implies !(#[trigger] rest[i]).contains(sep)
            && rest[i].len() > 0 by {
            assert(rest[i] == parts[i + 1]);
        }
        lemma_join_no_pair(rest, sep);
        let r = join(rest, sep);
        assert(t.last() == r.last());
        assert forall|k: int| !#[trigger] is_pair_at(t, sep, k) by {
            if k > n {
                assert(!is_pair_at(r, sep, k - n - 1));
            } else if k == n {
                assert(t[n + 1] == r[0]);
            }
        }
    }
}

/// The contents of vectors of characters.
pub open spec fn views(parts: Seq<Vec<char>>) -> Seq<Seq<char>> {
    parts.map_values(|p: Vec<char>| p@)
}

/// Splits `t` at every separator.
pub fn split_chars(t: &[char], sep: char) -> (parts: Vec<Vec<char>>)
    ensures
        views(parts@) == split(t@, sep),
        parts@.len() == split(t@, sep).len(),
        forall|i: int| 0 <= i < parts@.len() ==> (#[trigger] parts@[i])@ == split(t@, sep)[i],
{
    let mut parts: Vec<Vec<char>> = Vec::new();
    let mut piece: Vec<char> = Vec::new();
    let mut i: usize = 0;
    proof {
        assert(t@.skip(0) =~= t@);
        assert(views(parts@) =~= seq![]);
        assert(seq![] + split(t@, sep) =~= split(t@, sep));
    }
    while i < t.len()
        invariant
            i <= t@.len(),
            piece@.len() <= i,
            piece@ == t@.subrange(i - piece@.len(), i as int),
            !piece@.contains(sep),
            views(parts@) + split(t@.skip(i - piece@.len()), sep) == split(t@, sep),
        decreases t@.len() - i,
    {
        let ghost start = i - piece@.len();
        if t[i] == sep {
            proof {
                let rest = t@.skip(start);
                assert forall|j: int| 0 <= j < piece@.len() implies rest[j] != sep by {
                    assert(rest[j] == piece@[j]);
                    assert(piece@.contains(piece@[j]));
                }
                lemma_index_of_char_is(rest, sep, piece@.len() as int);
                assert(rest.take(piece@.len() as int) =~= piece@);
                assert(rest.skip(piece@.len() as int + 1) =~= t@.skip(i + 1));
                let before = views(parts@);
                assert(views(parts@.push(piece)) =~= before.push(piece@));
                assert(before.push(piece@) + split(t@.skip(i + 1), sep) =~= before + (seq![piece@]
                    + split(t@.skip(i + 1), sep)));
            }
            parts.push(piece);
            piece = Vec::new();
        } else {
            proof {
                let longer = piece@.push(t@[i as int]);
                assert forall|c: char| longer.contains(c) implies c != sep by {
                    let j = choose|j: int| 0 <= j < longer.len() && longer[j] == c;
                    if j < piece@.len() {
                        assert(piece@.contains(piece@[j]));
                    }
                }
            }
            piece.push(t[i]);
        }
        i += 1;
    }
    proof {
        let rest = t@.skip(i - piece@.len());
        assert(rest =~= piece@);
        assert forall|j: int| 0 <= j < piece@.len() implies rest[j] != sep by {
            assert(piece@.contains(piece@[j]));
        }
        lemma_index_of_char_is(rest, sep, piece@.len() as int);
        assert(views(parts@.push(piece)) =~= views(parts@) + seq![piece@]);
    }
    parts.push(piece);
    proof {
        assert forall|i: int| 0 <= i < parts@.len() implies (#[trigger] parts@[i])@ == split(
            t@,
            sep,
        )[i] by {
            assert(views(parts@)[i] == parts@[i]@);
        }
    }
    parts
}

/// Finds the first two adjacent `c`.
pub fn find_pair(t: &[char], c: char) -> (k: usize)
    ensures
        k == index_of_pair(t@, c),
        k < t@.len() ==> is_pair_at(t@, c, k as int),
        k <= t@.len(),
{
    let mut i: usize = 0;
    while i < t.len()
        invariant
            i <= t@.len(),
            forall|j: int| 0 <= j < i ==> !#[trigger] is_pair_at(t@, c, j),
        decreases t@.len() - i,
    {
        if t[i] == c && i < t.len() - 1 && t[i + 1] == c {
            proof {
                lemma_index_of_pair_is(t@, c, i as int);
            }
            return i;
        }
        i += 1;
    }
    proof {
        lemma_index_of_pair_is(t@, c, i as int);
    }
    i
}

} // verus!
