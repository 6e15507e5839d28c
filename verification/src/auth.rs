//! The password, as the client proves it: the hexadecimal text of its SHA-224 digest.

use sha2::{Digest, Sha224};
use vstd::prelude::*;
use vstd::utf8;

use crate::text;

verus! {

/// The SHA-224 digest of `message`.
pub uninterp spec fn sha224_digest(message: Seq<u8>) -> Seq<u8>;

/// SHA-224 counts the bits of a message in 64 bits, so a message must be shorter than this
/// many octets.
pub open spec fn message_limit() -> int {
    0x2000_0000_0000_0000
}

/// `Digest::digest` of `sha2::Sha224` computes the SHA-224 digest of the message, which is
/// always 28 octets long. The digest depends on the message alone. The count of the message's
/// bits overflows where the message is too long.
#[verifier::external_body]
fn sha224(message: &[u8]) -> (digest: Vec<u8>)
    requires
        message@.len() < message_limit(),
    ensures
        digest@ == sha224_digest(message@),
        digest@.len() == 28,
{
    Sha224::digest(message).to_vec()
}

/// The lower-case hexadecimal text of `octets`: two digits for each, the high one first.
pub open spec fn hex_text(octets: Seq<u8>) -> Seq<char> {
    Seq::new(
        2 * octets.len(),
        |i: int|
            text::digit_char(
                if i % 2 == 0 {
                    (octets[i / 2] / 16) as nat
                } else {
                    (octets[i / 2] % 16) as nat
                },
            ),
    )
}

/// `hex::encode` writes each octet as two lower-case hexadecimal digits, the high one first.
/// The text is twice as long as the octets and must fit in memory.
#[verifier::external_body]
fn hex_encode(octets: &[u8]) -> (s: String)
    requires
        2 * octets@.len() <= isize::MAX,
    ensures
        s@ == hex_text(octets@),
{
    hex::encode(octets)
}

/// What a client sends to prove that it knows `password`.
pub open spec fn password_hash(password: Seq<char>) -> Seq<char> {
    hex_text(sha224_digest(utf8::encode_utf8(password)))
}

proof fn lemma_hex_text_is_ascii(octets: Seq<u8>)
    ensures
        utf8::is_ascii_chars(hex_text(octets)),
        utf8::encode_utf8(hex_text(octets)).len() == 2 * octets.len(),
{
    let t = hex_text(octets);
    assert forall|i: int| 0 <= i < t.len() implies '\0' <= #[trigger] t[i] <= '\u{7f}' by {}
    utf8::is_ascii_chars_encode_utf8(t);
}

/// The hexadecimal text of the SHA-224 digest of `s`: 56 characters, of one octet each.
pub fn sha224_hex(s: &str) -> (hash: String)
    requires
        utf8::encode_utf8(s@).len() < message_limit(),
    ensures
        hash@ == password_hash(s@),
        hash@ == hex_text(sha224_digest(utf8::encode_utf8(s@))),
        hash@.len() == 56,
        utf8::encode_utf8(hash@).len() == 56,
{
    let digest = sha224(s.as_bytes());
    proof {
        lemma_hex_text_is_ascii(digest@);
    }
    hex_encode(digest.as_slice())
}

/// Holds the hash of the server's password, once it is known. It is set once and then kept.
pub struct PasswordCell {
    hash: Option<String>,
}

impl View for PasswordCell {
    type V = Option<Seq<char>>;

    closed spec fn view(&self) -> Option<Seq<char>> {
        match self.hash {
            Some(hash) => Some(hash@),
            None => None,
        }
    }
}

impl PasswordCell {
    /// A cell that holds no hash yet.
    pub fn new() -> (cell: PasswordCell)
        ensures
            cell@ is None,
    {
        PasswordCell { hash: None }
    }

    /// Tells whether the cell holds a hash.
    pub fn is_set(&self) -> (b: bool)
        ensures
            b == (self@ is Some),
    {
        self.hash.is_some()
    }
}

/// What a cell that held `held` holds once the hash of `password` was put into it.
pub open spec fn hash_after(held: Option<Seq<char>>, password: Seq<char>) -> Option<Seq<char>> {
    match held {
        Some(hash) => Some(hash),
        None => Some(password_hash(password)),
    }
}

/// What an empty cell holds once the hashes of `passwords` were put into it, one after the
/// other.
pub open spec fn hash_after_all(passwords: Seq<Seq<char>>) -> Option<Seq<char>>
    decreases passwords.len(),
{
    if passwords.len() == 0 {
        None
    } else {
        hash_after(hash_after_all(passwords.drop_last()), passwords.last())
    }
}

/// The first password wins: whatever passwords follow it, its hash is the one that is kept.
pub proof fn law_first_password_is_kept(passwords: Seq<Seq<char>>)
    requires
        passwords.len() > 0,
    ensures
        hash_after_all(passwords) == Some(password_hash(passwords[0])),
    decreases passwords.len(),
{
    if passwords.len() > 1 {
        law_first_password_is_kept(passwords.drop_last());
    } else {
        assert(hash_after_all(passwords.drop_last()) is None);
    }
}

/// Puts the hash of `password` into the cell, unless the cell holds a hash already.
pub fn init_password_hash(cell: &mut PasswordCell, password: &str)
    requires
        old(cell)@ is None ==> utf8::encode_utf8(password@).len() < message_limit(),
    ensures
        final(cell)@ == hash_after(old(cell)@, password@),
        old(cell)@ is Some ==> final(cell)@ == old(cell)@,
        old(cell)@ is None ==> final(cell)@ == Some(
            hex_text(sha224_digest(utf8::encode_utf8(password@))),
        ),
{
    if cell.hash.is_none() {
        cell.hash = Some(sha224_hex(password));
    }
}

/// The hash that the cell holds.
pub fn get_password_hash(cell: &PasswordCell) -> (hash: &str)
    requires
        cell@ is Some,
    ensures
        Some(hash@) == cell@,
{
    cell.hash.as_ref().unwrap().as_str()
}

/// Compares in a time that depends on the lengths alone.
pub fn constant_time_eq(a: &[u8], b: &[u8]) -> (equal: bool)
    ensures
        equal == (a@ == b@),
{
    if a.len() != b.len() {
        return false;
    }
    let mut result: u8 = 0;
    let mut i: usize = 0;
    proof {
        assert(a@.take(0) =~= b@.take(0));
    }
    while i < a.len()
        invariant
            i <= a@.len(),
            a@.len() == b@.len(),
            result == 0 <==> a@.take(i as int) == b@.take(i as int),
        decreases a@.len() - i,
    {
        let x = a[i];
        let y = b[i];
        let ghost before = result;
        result = result | (x ^ y);
        proof {
            assert((before | (x ^ y)) == 0 <==> before == 0 && x == y) by (bit_vector);
            let p = a@.take(i as int);
            let q = b@.take(i as int);
            assert(a@.take(i + 1) =~= p.push(x));
            assert(b@.take(i + 1) =~= q.push(y));
            if p.push(x) == q.push(y) {
                assert(p =~= p.push(x).drop_last());
                assert(q =~= q.push(y).drop_last());
                assert(p.push(x).last() == q.push(y).last());
            }
        }
        i += 1;
    }
    proof {
        assert(a@.take(i as int) =~= a@);
        assert(b@.take(i as int) =~= b@);
    }
    result == 0
}

/// The hash of a password is the hexadecimal text of the digest of all its octets.
pub proof fn law_whole_password_is_hashed(password: Seq<char>)
    ensures
        password_hash(password) == hex_text(sha224_digest(utf8::encode_utf8(password))),
        hash_after(None, password) == Some(
            hex_text(sha224_digest(utf8::encode_utf8(password))),
        ),
{
}

/// Octets are written as two hexadecimal digits each, in lower case and with the high one first,
/// so that the two digits are worth the octet; and one behind the other.
pub proof fn law_hex_text(octets: Seq<u8>, more: Seq<u8>, i: int)
    ensures
        hex_text(octets).len() == 2 * octets.len(),
        hex_text(octets + more) == hex_text(octets) + hex_text(more),
        0 <= i < octets.len() ==> ({
            let pair = hex_text(octets).subrange(2 * i, 2 * i + 2);
            &&& text::is_numeral(pair, 16)
            &&& text::numeral_value(pair, 16) == octets[i]
            &&& forall|j: int|
                0 <= j < 2 ==> '0' <= #[trigger] pair[j] <= '9' || 'a' <= pair[j] <= 'f'
        }),
{
    let t = hex_text(octets);
    assert(hex_text(octets + more) =~= t + hex_text(more)) by {
        let whole = hex_text(octets + more);
        assert forall|k: int| 0 <= k < whole.len() implies whole[k] == (t + hex_text(more))[k] by {
            if k >= t.len() {
                assert((octets + more)[k / 2] == more[(k - t.len()) / 2]);
            }
        }
    }
    if 0 <= i < octets.len() {
        let pair = t.subrange(2 * i, 2 * i + 2);
        let high = (octets[i] / 16) as nat;
        let low = (octets[i] % 16) as nat;
        assert(pair[0] == t[2 * i] && pair[1] == t[2 * i + 1]);
        assert(pair[0] == text::digit_char(high));
        assert(pair[1] == text::digit_char(low));
        assert(pair =~= seq![pair[0]].push(pair[1]));
        assert(pair.drop_last() =~= seq![].push(pair[0]));
        assert(pair.drop_last().drop_last() =~= seq![]);
        reveal_with_fuel(text::numeral_value, 3);
    }
}

} // verus!
