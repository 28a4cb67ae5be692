//! Thirty-two byte identifiers (event ids and public keys): their total
//! order and their lower-case hexadecimal rendering.
use vstd::prelude::*;

verus! {

/// Width in bytes of an event identifier or a public key.
pub const ID_LEN: usize = 32;

/// Byte-wise lexicographic "strictly less" on byte strings.
pub open spec fn bytes_lt(a: Seq<u8>, b: Seq<u8>) -> bool
    decreases a.len(),
{
    if a.len() == 0 || b.len() == 0 {
        false
    } else if a[0] != b[0] {
        a[0] < b[0]
    } else {
        bytes_lt(a.drop_first(), b.drop_first())
    }
}

pub proof fn lemma_bytes_lt_irreflexive(a: Seq<u8>)
    ensures
        !bytes_lt(a, a),
    decreases a.len(),
{
    if a.len() > 0 {
        lemma_bytes_lt_irreflexive(a.drop_first());
    }
}

pub proof fn lemma_bytes_lt_asymmetric(a: Seq<u8>, b: Seq<u8>)
    ensures
        !(bytes_lt(a, b) && bytes_lt(b, a)),
    decreases a.len(),
{
    if a.len() > 0 && b.len() > 0 && a[0] == b[0] {
        lemma_bytes_lt_asymmetric(a.drop_first(), b.drop_first());
    }
}

pub proof fn lemma_bytes_lt_transitive(a: Seq<u8>, b: Seq<u8>, c: Seq<u8>)
    requires
        bytes_lt(a, b),
        bytes_lt(b, c),
    ensures
        bytes_lt(a, c),
    decreases a.len(),
{
    if a[0] == b[0] && b[0] == c[0] {
        lemma_bytes_lt_transitive(a.drop_first(), b.drop_first(), c.drop_first());
    }
}

/// Two distinct byte strings of one length are ordered one way or the other.
pub proof fn lemma_bytes_lt_total(a: Seq<u8>, b: Seq<u8>)
    requires
        a.len() == b.len(),
        a != b,
    ensures
        bytes_lt(a, b) || bytes_lt(b, a),
    decreases a.len(),
{
    if a.len() == 0 {
        assert(a =~= b);
    } else if a[0] == b[0] {
        if a.drop_first() == b.drop_first() {
            assert(a =~= seq![a[0]] + a.drop_first());
            assert(b =~= seq![b[0]] + b.drop_first());
        }
        lemma_bytes_lt_total(a.drop_first(), b.drop_first());
    }
}

/// Whether two identifiers hold the same bytes.
pub fn same_id(a: &[u8; 32], b: &[u8; 32]) -> (r: bool)
    ensures
        r == (a@ == b@),
{
    let mut i: usize = 0;
    while i < ID_LEN
        invariant
            i <= ID_LEN,
            a@.len() == ID_LEN,
            b@.len() == ID_LEN,
            a@.take(i as int) == b@.take(i as int),
        decreases ID_LEN - i,
    {
        if a[i] != b[i] {
            return false;
        }
        assert(a@.take(i + 1) =~= a@.take(i as int).push(a@[i as int]));
        assert(b@.take(i + 1) =~= b@.take(i as int).push(b@[i as int]));
        i = i + 1;
    }
    assert(a@ =~= a@.take(ID_LEN as int));
    assert(b@ =~= b@.take(ID_LEN as int));
    true
}

/// Whether `a` comes strictly before `b` in byte-wise lexicographic order.
pub fn id_less(a: &[u8; 32], b: &[u8; 32]) -> (r: bool)
    ensures
        r == bytes_lt(a@, b@),
{
    let mut i: usize = 0;
    assert(a@.skip(0) =~= a@);
    assert(b@.skip(0) =~= b@);
    while i < ID_LEN
        invariant
            i <= ID_LEN,
            a@.len() == ID_LEN,
            b@.len() == ID_LEN,
            bytes_lt(a@, b@) == bytes_lt(a@.skip(i as int), b@.skip(i as int)),
        decreases ID_LEN - i,
    {
        let x = a[i];
        let y = b[i];
        assert(a@.skip(i as int)[0] == x);
        assert(b@.skip(i as int)[0] == y);
        if x != y {
            return x < y;
        }
        assert(a@.skip(i as int).drop_first() =~= a@.skip(i + 1));
        assert(b@.skip(i as int).drop_first() =~= b@.skip(i + 1));
        i = i + 1;
    }
    assert(a@.skip(ID_LEN as int).len() == 0);
    false
}

/// The sixteen lower-case hexadecimal digits.
pub open spec fn hex_digits() -> Seq<char> {
    seq!['0', '1', '2', '3', '4', '5', '6', '7', '8', '9', 'a', 'b', 'c', 'd', 'e', 'f']
}

/// Two lower-case hexadecimal digits for each byte, high nibble first.
pub open spec fn hex_of(b: Seq<u8>) -> Seq<char>
    decreases b.len(),
{
    if b.len() == 0 {
        Seq::empty()
    } else {
        hex_of(b.drop_last()) + seq![
            hex_digits()[(b.last() / 16) as int],
            hex_digits()[(b.last() % 16) as int],
        ]
    }
}

fn hex_digit(n: u8) -> (r: &'static str)
    requires
        n < 16,
    ensures
        r@ == seq![hex_digits()[n as int]],
{
    let digits = "0123456789abcdef";
    proof {
        reveal_strlit("0123456789abcdef");
        assert(digits@ =~= hex_digits());
    }
    let r = digits.substring_ascii(n as usize, n as usize + 1);
    assert(r@ =~= seq![hex_digits()[n as int]]);
    r
}

/// Appends the lower-case hexadecimal form of `id` to `out`.
pub fn push_hex(out: &mut String, id: &[u8; 32])
    ensures
        final(out)@ == old(out)@ + hex_of(id@),
{
    let ghost start = out@;
    let mut i: usize = 0;
    while i < ID_LEN
        invariant
            i <= ID_LEN,
            id@.len() == ID_LEN,
            out@ == start + hex_of(id@.take(i as int)),
        decreases ID_LEN - i,
    {
        let byte = id[i];
        out.append(hex_digit(byte / 16));
        out.append(hex_digit(byte % 16));
        assert(id@.take(i + 1).drop_last() =~= id@.take(i as int));
        i = i + 1;
    }
    assert(id@.take(ID_LEN as int) =~= id@);
}

/// The lower-case hexadecimal form of `id`.
pub fn to_hex(id: &[u8; 32]) -> (r: String)
    ensures
        r@ == hex_of(id@),
{
    let mut r = String::new();
    push_hex(&mut r, id);
    assert(r@ =~= hex_of(id@));
    r
}

} // verus!
