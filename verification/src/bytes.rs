//! Byte-wise lexicographic order on keys, and fixed-width big-endian fields.
//!
//! Keys are compared as raw byte strings; the key encoder guarantees that
//! this order matches the intended semantic order.

use vstd::prelude::*;

verus! {

/// Strict lexicographic order on byte strings: `a` sorts before `b`.
pub open spec fn lex_lt(a: Seq<u8>, b: Seq<u8>) -> bool
    decreases a.len(),
{
    if b.len() == 0 {
        false
    } else if a.len() == 0 {
        true
    } else if a[0] < b[0] {
        true
    } else if a[0] > b[0] {
        false
    } else {
        lex_lt(a.drop_first(), b.drop_first())
    }
}

/// Non-strict lexicographic order: `a` sorts no later than `b`.
pub open spec fn lex_le(a: Seq<u8>, b: Seq<u8>) -> bool {
    !lex_lt(b, a)
}

/// The strict order is transitive.
pub proof fn lemma_lex_transitive(a: Seq<u8>, b: Seq<u8>, c: Seq<u8>)
    requires
        lex_lt(a, b),
        lex_lt(b, c),
    ensures
        lex_lt(a, c),
    decreases a.len(),
{
    if b.len() > 0 && c.len() > 0 && a.len() > 0 && a[0] == b[0] && b[0] == c[0] {
        lemma_lex_transitive(a.drop_first(), b.drop_first(), c.drop_first());
    }
}

/// The order is total: two byte strings neither of which sorts before the
/// other are equal.
pub proof fn lemma_lex_connex(a: Seq<u8>, b: Seq<u8>)
    requires
        !lex_lt(a, b),
        !lex_lt(b, a),
    ensures
        a =~= b,
    decreases a.len(),
{
    if a.len() > 0 && b.len() > 0 {
        lemma_lex_connex(a.drop_first(), b.drop_first());
        assert(a =~= seq![a[0]] + a.drop_first());
        assert(b =~= seq![b[0]] + b.drop_first());
    }
}

/// Compares two keys byte-wise: returns whether `a` sorts strictly before
/// `b`.
pub fn bytes_lt(a: &Vec<u8>, b: &Vec<u8>) -> (r: bool)
    ensures
        r == lex_lt(a@, b@),
{
    let mut i: usize = 0;
    proof {
        assert(a@.skip(0) =~= a@);
        assert(b@.skip(0) =~= b@);
    }
    loop
        invariant
            i <= a.len(),
            i <= b.len(),
            lex_lt(a@, b@) == lex_lt(a@.skip(i as int), b@.skip(i as int)),
        decreases a@.len() - i,
    {
        if i >= b.len() {
            return false;
        }
        if i >= a.len() {
            return true;
        }
        let x = a[i];
        let y = b[i];
        proof {
            assert(a@.skip(i as int).len() > 0);
            assert(b@.skip(i as int).len() > 0);
            assert(a@.skip(i as int)[0] == a@[i as int]);
            assert(b@.skip(i as int)[0] == b@[i as int]);
            assert(a@.skip(i as int).drop_first() =~= a@.skip(i + 1));
            assert(b@.skip(i as int).drop_first() =~= b@.skip(i + 1));
        }
        if x < y {
            return true;
        }
        if x > y {
            return false;
        }
        i = i + 1;
    }
}

/// Tests two keys for byte-wise equality.
pub fn bytes_eq(a: &Vec<u8>, b: &Vec<u8>) -> (r: bool)
    ensures
        r == (a@ =~= b@),
{
    if a.len() != b.len() {
        return false;
    }
    let mut i: usize = 0;
    while i < a.len()
        invariant
            a@.len() == b@.len(),
            i <= a.len(),
            forall|j: int| 0 <= j < i ==> a@[j] == b@[j],
        decreases a@.len() - i,
    {
        if a[i] != b[i] {
            return false;
        }
        i = i + 1;
    }
    true
}

/// Copies a byte string.
pub fn copy_bytes(src: &Vec<u8>) -> (r: Vec<u8>)
    ensures
        r@ =~= src@,
{
    let mut r: Vec<u8> = Vec::new();
    let mut i: usize = 0;
    while i < src.len()
        invariant
            i <= src.len(),
            r@ =~= src@.take(i as int),
        decreases src@.len() - i,
    {
        r.push(src[i]);
        i = i + 1;
    }
    proof {
        assert(src@.take(src@.len() as int) =~= src@);
    }
    r
}

/// The big-endian reading of the four bytes of `b` starting at `off`.
pub open spec fn be32(b: Seq<u8>, off: int) -> int
    recommends
        0 <= off,
        off + 4 <= b.len(),
{
    b[off] * 0x1000000 + b[off + 1] * 0x10000 + b[off + 2] * 0x100 + b[off + 3]
}

/// Reads a big-endian 32-bit field from a key.
pub fn read_be32(b: &Vec<u8>, off: usize) -> (r: u32)
    requires
        off + 4 <= b@.len(),
    ensures
        r == be32(b@, off as int),
{
    let n: usize = b.len();
    proof {
        assert(off + 4 <= n);
    }
    b[off] as u32 * 0x1000000 + b[off + 1] as u32 * 0x10000 + b[off + 2] as u32 * 0x100 + b[off
        + 3] as u32
}

/// The reserved account sentinel: a key whose first four bytes are the
/// big-endian encoding of the largest 32-bit account id marks store-internal
/// metadata.
pub open spec fn is_reserved_account(k: Seq<u8>) -> bool
    recommends
        k.len() >= 4,
{
    be32(k, 0) == 0xFFFFFFFF
}

/// Tests a key for the reserved account sentinel.
pub fn has_reserved_account(k: &Vec<u8>) -> (r: bool)
    requires
        k@.len() >= 4,
    ensures
        r == is_reserved_account(k@),
{
    let account = read_be32(k, 0);
    proof {
        if k@[0] == 0xFF && k@[1] == 0xFF && k@[2] == 0xFF && k@[3] == 0xFF {
            assert(be32(k@, 0) == 0xFFFFFFFF);
        }
    }
    account == 0xFFFFFFFF
}

} // verus!
