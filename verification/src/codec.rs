//! Order-preserving binary keys for log indices.
//!
//! A log index is stored under its eight big-endian bytes, so that the
//! byte-lexicographic order of the keys is the numeric order of the indices.

use byteorder::BigEndian;
use byteorder::ReadBytesExt;
use byteorder::WriteBytesExt;
use vstd::prelude::*;
use vstd::slice::slice_subrange;

verus! {

/// Number of bytes in an encoded log index.
pub const KEY_LEN: usize = 8;

/// The eight bytes of `n`, most significant first.
#[verifier::opaque]
pub open spec fn be_bytes(n: u64) -> Seq<u8> {
    seq![
        (n >> 56) as u8,
        ((n >> 48) & 0xff) as u8,
        ((n >> 40) & 0xff) as u8,
        ((n >> 32) & 0xff) as u8,
        ((n >> 24) & 0xff) as u8,
        ((n >> 16) & 0xff) as u8,
        ((n >> 8) & 0xff) as u8,
        (n & 0xff) as u8,
    ]
}

/// The number whose big-endian bytes are the first eight bytes of `s`.
#[verifier::opaque]
pub open spec fn be_value(s: Seq<u8>) -> u64 {
    ((s[0] as u64) << 56) | ((s[1] as u64) << 48) | ((s[2] as u64) << 40) | ((s[3] as u64) << 32)
        | ((s[4] as u64) << 24) | ((s[5] as u64) << 16) | ((s[6] as u64) << 8) | (s[7] as u64)
}

/// Byte-lexicographic order: `a` sorts strictly before `b`.
pub open spec fn lex_lt(a: Seq<u8>, b: Seq<u8>) -> bool
    decreases a.len(),
{
    if b.len() == 0 {
        false
    } else if a.len() == 0 {
        true
    } else if a[0] != b[0] {
        a[0] < b[0]
    } else {
        lex_lt(a.drop_first(), b.drop_first())
    }
}

/// Byte-lexicographic order: `a` sorts before `b` or equals it.
pub open spec fn lex_le(a: Seq<u8>, b: Seq<u8>) -> bool {
    a == b || lex_lt(a, b)
}

/// Appends the big-endian bytes of `n` to `buf`.
///
/// Trusted: the body is `byteorder::WriteBytesExt::write_u64::<BigEndian>` on a
/// `Vec<u8>`, which formats `n` with `u64::to_be_bytes` and appends the eight
/// bytes; writing to a `Vec<u8>` does not fail.
#[verifier::external_body]
pub(crate) fn write_u64_be(buf: &mut Vec<u8>, n: u64)
    ensures
        final(buf)@ == old(buf)@ + be_bytes(n),
{
    buf.write_u64::<BigEndian>(n).unwrap();
}

/// Reads a big-endian number from the first eight bytes of `buf`.
///
/// Trusted: the body is `byteorder::ReadBytesExt::read_u64::<BigEndian>` on a
/// byte slice, which takes the first eight bytes and combines them with
/// `u64::from_be_bytes`; it fails only when fewer than eight bytes are there.
#[verifier::external_body]
fn read_u64_be(buf: &[u8]) -> (n: u64)
    requires
        buf@.len() >= 8,
    ensures
        n == be_value(buf@),
{
    let mut reader = buf;
    reader.read_u64::<BigEndian>().unwrap()
}

/// Encodes a log index as its storage key.
pub fn id_to_bin(id: u64) -> (buf: Vec<u8>)
    ensures
        buf@ == be_bytes(id),
{
    let mut buf = Vec::with_capacity(KEY_LEN);
    write_u64_be(&mut buf, id);
    buf
}

/// Decodes the log index held in the first eight bytes of a storage key.
pub fn bin_to_id(buf: &[u8]) -> (id: u64)
    requires
        buf@.len() >= 8,
    ensures
        id == be_value(buf@),
        buf@.len() == 8 ==> be_bytes(id) == buf@,
{
    let head = slice_subrange(buf, 0, KEY_LEN);
    proof {
        lemma_value_of_prefix(buf@);
        if buf@.len() == 8 {
            lemma_bytes_of_value(buf@);
        }
    }
    read_u64_be(head)
}

/// Reads the big-endian number that starts at byte `at` of `buf`.
pub(crate) fn read_u64_at(buf: &[u8], at: usize) -> (n: u64)
    requires
        at + 8 <= buf@.len(),
    ensures
        n == be_value(buf@.subrange(at as int, at + 8)),
{
    let len = buf.len();
    let field = slice_subrange(buf, at, at + KEY_LEN);
    read_u64_be(field)
}

/// Only the first eight bytes of a key count for the index it decodes to.
pub proof fn lemma_value_of_prefix(key: Seq<u8>)
    requires
        key.len() >= 8,
    ensures
        be_value(key.subrange(0, 8)) == be_value(key),
{
    reveal(be_value);
}

/// Decoding a key gives back the index it was made from.
pub proof fn lemma_decode_encode(id: u64)
    ensures
        be_bytes(id).len() == 8,
        be_value(be_bytes(id)) == id,
{
    reveal(be_bytes);
    reveal(be_value);
    let b0: u8 = (id >> 56) as u8;
    let b1: u8 = ((id >> 48) & 0xff) as u8;
    let b2: u8 = ((id >> 40) & 0xff) as u8;
    let b3: u8 = ((id >> 32) & 0xff) as u8;
    let b4: u8 = ((id >> 24) & 0xff) as u8;
    let b5: u8 = ((id >> 16) & 0xff) as u8;
    let b6: u8 = ((id >> 8) & 0xff) as u8;
    let b7: u8 = (id & 0xff) as u8;
    assert(((b0 as u64) << 56) | ((b1 as u64) << 48) | ((b2 as u64) << 40) | ((b3 as u64) << 32)
        | ((b4 as u64) << 24) | ((b5 as u64) << 16) | ((b6 as u64) << 8) | (b7 as u64) == id)
        by (bit_vector)
        requires
            b0 == (id >> 56) as u8,
            b1 == ((id >> 48) & 0xff) as u8,
            b2 == ((id >> 40) & 0xff) as u8,
            b3 == ((id >> 32) & 0xff) as u8,
            b4 == ((id >> 24) & 0xff) as u8,
            b5 == ((id >> 16) & 0xff) as u8,
            b6 == ((id >> 8) & 0xff) as u8,
            b7 == (id & 0xff) as u8,
    ;
}

/// Every eight-byte key is the encoding of the index it decodes to.
pub proof fn lemma_bytes_of_value(key: Seq<u8>)
    requires
        key.len() == 8,
    ensures
        be_bytes(be_value(key)) == key,
{
    reveal(be_bytes);
    reveal(be_value);
    let b0 = key[0];
    let b1 = key[1];
    let b2 = key[2];
    let b3 = key[3];
    let b4 = key[4];
    let b5 = key[5];
    let b6 = key[6];
    let b7 = key[7];
    let n: u64 = be_value(key);
    assert((n >> 56) as u8 == b0 && ((n >> 48) & 0xff) as u8 == b1 && ((n >> 40) & 0xff) as u8
        == b2 && ((n >> 32) & 0xff) as u8 == b3 && ((n >> 24) & 0xff) as u8 == b4 && ((n >> 16)
        & 0xff) as u8 == b5 && ((n >> 8) & 0xff) as u8 == b6 && (n & 0xff) as u8 == b7)
        by (bit_vector)
        requires
            n == ((b0 as u64) << 56) | ((b1 as u64) << 48) | ((b2 as u64) << 40) | ((b3 as u64)
                << 32) | ((b4 as u64) << 24) | ((b5 as u64) << 16) | ((b6 as u64) << 8) | (
            b7 as u64),
    ;
    assert(be_bytes(n) =~= key);
}

/// No byte string sorts before itself.
pub proof fn lemma_lex_irreflexive(a: Seq<u8>)
    ensures
        !lex_lt(a, a),
    decreases a.len(),
{
    if a.len() > 0 {
        lemma_lex_irreflexive(a.drop_first());
    }
}

/// Of two byte strings at most one sorts before the other.
pub proof fn lemma_lex_asymmetric(a: Seq<u8>, b: Seq<u8>)
    ensures
        !(lex_lt(a, b) && lex_lt(b, a)),
    decreases a.len(),
{
    if a.len() > 0 && b.len() > 0 && a[0] == b[0] {
        lemma_lex_asymmetric(a.drop_first(), b.drop_first());
    }
}

/// The byte-lexicographic order is transitive.
pub proof fn lemma_lex_transitive(a: Seq<u8>, b: Seq<u8>, c: Seq<u8>)
    requires
        lex_lt(a, b),
        lex_lt(b, c),
    ensures
        lex_lt(a, c),
    decreases a.len(),
{
    if a.len() > 0 && b.len() > 0 && c.len() > 0 && a[0] == b[0] && b[0] == c[0] {
        lemma_lex_transitive(a.drop_first(), b.drop_first(), c.drop_first());
    }
}

/// Any two byte strings are equal or one sorts before the other.
pub proof fn lemma_lex_total(a: Seq<u8>, b: Seq<u8>)
    ensures
        a == b || lex_lt(a, b) || lex_lt(b, a),
    decreases a.len(),
{
    if a.len() > 0 && b.len() > 0 && a[0] == b[0] {
        lemma_lex_total(a.drop_first(), b.drop_first());
        if a.drop_first() == b.drop_first() {
            assert(a =~= seq![a[0]] + a.drop_first());
            assert(b =~= seq![b[0]] + b.drop_first());
        }
    } else if a.len() == 0 && b.len() == 0 {
        assert(a =~= b);
    }
}

/// For two eight-byte strings, the order is decided at the first byte in
/// which they differ.
proof fn lemma_lex_lt_eight(a: Seq<u8>, b: Seq<u8>)
    requires
        a.len() == 8,
        b.len() == 8,
    ensures
        lex_lt(a, b) == if a[0] != b[0] {
            a[0] < b[0]
        } else if a[1] != b[1] {
            a[1] < b[1]
        } else if a[2] != b[2] {
            a[2] < b[2]
        } else if a[3] != b[3] {
            a[3] < b[3]
        } else if a[4] != b[4] {
            a[4] < b[4]
        } else if a[5] != b[5] {
            a[5] < b[5]
        } else if a[6] != b[6] {
            a[6] < b[6]
        } else {
            a[7] < b[7]
        },
{
    reveal_with_fuel(lex_lt, 10);
    let a1 = a.drop_first();
    let a2 = a1.drop_first();
    let a3 = a2.drop_first();
    let a4 = a3.drop_first();
    let a5 = a4.drop_first();
    let a6 = a5.drop_first();
    let a7 = a6.drop_first();
    let b1 = b.drop_first();
    let b2 = b1.drop_first();
    let b3 = b2.drop_first();
    let b4 = b3.drop_first();
    let b5 = b4.drop_first();
    let b6 = b5.drop_first();
    let b7 = b6.drop_first();
    assert(a7[0] == a[7] && a6[0] == a[6] && a5[0] == a[5] && a4[0] == a[4] && a3[0] == a[3]
        && a2[0] == a[2] && a1[0] == a[1]);
    assert(b7[0] == b[7] && b6[0] == b[6] && b5[0] == b[5] && b4[0] == b[4] && b3[0] == b[3]
        && b2[0] == b[2] && b1[0] == b[1]);
    assert(a7.drop_first().len() == 0 && b7.drop_first().len() == 0);
}

/// Keys sort as their indices do: the byte-lexicographic order of two
/// encoded indices is the numeric order of the indices.
pub proof fn lemma_encode_preserves_order(x: u64, y: u64)
    ensures
        x < y <==> lex_lt(be_bytes(x), be_bytes(y)),
        x == y <==> be_bytes(x) == be_bytes(y),
{
    reveal(be_bytes);
    lemma_lex_lt_eight(be_bytes(x), be_bytes(y));
    lemma_decode_encode(x);
    lemma_decode_encode(y);
    let a0: u8 = (x >> 56) as u8;
    let a1: u8 = ((x >> 48) & 0xff) as u8;
    let a2: u8 = ((x >> 40) & 0xff) as u8;
    let a3: u8 = ((x >> 32) & 0xff) as u8;
    let a4: u8 = ((x >> 24) & 0xff) as u8;
    let a5: u8 = ((x >> 16) & 0xff) as u8;
    let a6: u8 = ((x >> 8) & 0xff) as u8;
    let a7: u8 = (x & 0xff) as u8;
    let b0: u8 = (y >> 56) as u8;
    let b1: u8 = ((y >> 48) & 0xff) as u8;
    let b2: u8 = ((y >> 40) & 0xff) as u8;
    let b3: u8 = ((y >> 32) & 0xff) as u8;
    let b4: u8 = ((y >> 24) & 0xff) as u8;
    let b5: u8 = ((y >> 16) & 0xff) as u8;
    let b6: u8 = ((y >> 8) & 0xff) as u8;
    let b7: u8 = (y & 0xff) as u8;
    assert((x < y) == (if a0 != b0 {
        a0 < b0
    } else if a1 != b1 {
        a1 < b1
    } else if a2 != b2 {
        a2 < b2
    } else if a3 != b3 {
        a3 < b3
    } else if a4 != b4 {
        a4 < b4
    } else if a5 != b5 {
        a5 < b5
    } else if a6 != b6 {
        a6 < b6
    } else {
        a7 < b7
    })) by (bit_vector)
        requires
            a0 == (x >> 56) as u8,
            a1 == ((x >> 48) & 0xff) as u8,
            a2 == ((x >> 40) & 0xff) as u8,
            a3 == ((x >> 32) & 0xff) as u8,
            a4 == ((x >> 24) & 0xff) as u8,
            a5 == ((x >> 16) & 0xff) as u8,
            a6 == ((x >> 8) & 0xff) as u8,
            a7 == (x & 0xff) as u8,
            b0 == (y >> 56) as u8,
            b1 == ((y >> 48) & 0xff) as u8,
            b2 == ((y >> 40) & 0xff) as u8,
            b3 == ((y >> 32) & 0xff) as u8,
            b4 == ((y >> 24) & 0xff) as u8,
            b5 == ((y >> 16) & 0xff) as u8,
            b6 == ((y >> 8) & 0xff) as u8,
            b7 == (y & 0xff) as u8,
    ;
}

} // verus!
