//! Big-endian byte strings: the storage keys of records and the length
//! prefix of the record format.
use vstd::prelude::*;

verus! {

/// `256^n`.
pub open spec fn pow256(n: nat) -> nat
    decreases n,
{
    if n == 0 {
        1
    } else {
        256 * pow256((n - 1) as nat)
    }
}

/// The number that the bytes of `s` spell in big-endian order.
pub open spec fn be_value(s: Seq<u8>) -> nat
    decreases s.len(),
{
    if s.len() == 0 {
        0
    } else {
        be_value(s.drop_last()) * 256 + s.last() as nat
    }
}

/// The `n` low bytes of `v`, most significant first.
pub open spec fn be_bytes(v: nat, n: nat) -> Seq<u8>
    decreases n,
{
    if n == 0 {
        Seq::empty()
    } else {
        be_bytes(v / 256, (n - 1) as nat).push((v % 256) as u8)
    }
}

/// The storage key of the record with id `id`: eight bytes, big-endian.
pub open spec fn key_of(id: u64) -> Seq<u8> {
    be_bytes(id as nat, 8)
}

/// `a` comes strictly before `b` in the lexicographic order of byte strings
/// (a proper prefix comes first).
pub open spec fn lex_lt(a: Seq<u8>, b: Seq<u8>) -> bool {
    exists|i: int|
        0 <= i <= a.len() && i <= b.len() && #[trigger] a.take(i) == b.take(i) && ((i == a.len()
            && i < b.len()) || (i < a.len() && i < b.len() && a[i] < b[i]))
}

pub proof fn lemma_be_bytes_len(v: nat, n: nat)
    ensures
        be_bytes(v, n).len() == n,
    decreases n,
{
    if n > 0 {
        lemma_be_bytes_len(v / 256, (n - 1) as nat);
    }
}

/// A big-endian string of `n` bytes spells a number below `256^n`.
pub proof fn lemma_be_value_bound(s: Seq<u8>)
    ensures
        be_value(s) < pow256(s.len()),
    decreases s.len(),
{
    if s.len() > 0 {
        let p = s.drop_last();
        lemma_be_value_bound(p);
        let a = be_value(p);
        let q = pow256(p.len());
        let x = s.last() as nat;
        assert(a * 256 + x < q * 256) by (nonlinear_arith)
            requires
                a < q,
                x < 256,
        ;
    }
}

/// Spelling `v` in `n` bytes and reading it back gives `v`, where it fits.
pub proof fn lemma_be_round_trip(v: nat, n: nat)
    requires
        v < pow256(n),
    ensures
        be_value(be_bytes(v, n)) == v,
    decreases n,
{
    if n > 0 {
        let q = pow256((n - 1) as nat);
        assert(v / 256 < q) by (nonlinear_arith)
            requires
                v < 256 * q,
        ;
        lemma_be_round_trip(v / 256, (n - 1) as nat);
        let s = be_bytes(v, n);
        assert(s.drop_last() == be_bytes(v / 256, (n - 1) as nat));
        assert(v == (v / 256) * 256 + v % 256) by (nonlinear_arith);
    }
}

/// Reading `n` bytes and spelling the number in `n` bytes gives them back.
pub proof fn lemma_be_bytes_of_value(s: Seq<u8>)
    ensures
        be_bytes(be_value(s), s.len()) == s,
    decreases s.len(),
{
    if s.len() > 0 {
        let p = s.drop_last();
        lemma_be_bytes_of_value(p);
        let v = be_value(s);
        let x = s.last() as nat;
        assert(v / 256 == be_value(p) && v % 256 == x) by (nonlinear_arith)
            requires
                v == be_value(p) * 256 + x,
                x < 256,
        ;
        assert(s == p.push(s.last()));
    }
}

/// Concatenation of big-endian strings.
pub proof fn lemma_be_value_concat(a: Seq<u8>, b: Seq<u8>)
    ensures
        be_value(a + b) == be_value(a) * pow256(b.len()) + be_value(b),
    decreases b.len(),
{
    if b.len() == 0 {
        assert(a + b == a);
        assert(pow256(0) == 1);
        assert(be_value(a) * 1 == be_value(a));
    } else {
        let b1 = b.drop_last();
        lemma_be_value_concat(a, b1);
        assert((a + b).drop_last() == a + b1);
        assert((a + b).last() == b.last());
        let va = be_value(a);
        let q = pow256(b1.len());
        let vb1 = be_value(b1);
        let x = b.last() as nat;
        assert(pow256(b.len()) == 256 * q);
        assert(be_value(a + b) == be_value(a + b1) * 256 + x);
        assert(be_value(b) == vb1 * 256 + x);
        assert((va * q + vb1) * 256 + x == va * (256 * q) + (vb1 * 256 + x)) by (nonlinear_arith);
    }
}

/// On strings of one length, the lexicographic order is the order of the
/// numbers they spell.
pub proof fn lemma_lex_lt_be_value(a: Seq<u8>, b: Seq<u8>)
    requires
        a.len() == b.len(),
        lex_lt(a, b),
    ensures
        be_value(a) < be_value(b),
{
    let i = choose|i: int|
        0 <= i <= a.len() && i <= b.len() && #[trigger] a.take(i) == b.take(i) && ((i == a.len()
            && i < b.len()) || (i < a.len() && i < b.len() && a[i] < b[i]));
    let p = a.take(i);
    let ra = a.skip(i + 1);
    let rb = b.skip(i + 1);
    assert(a == p.push(a[i]) + ra);
    assert(b == p.push(b[i]) + rb);
    lemma_be_value_concat(p.push(a[i]), ra);
    lemma_be_value_concat(p.push(b[i]), rb);
    assert(p.push(a[i]).drop_last() == p);
    assert(p.push(b[i]).drop_last() == p);
    lemma_be_value_bound(ra);
    let q = pow256(ra.len());
    let vp = be_value(p);
    let xa = a[i] as nat;
    let xb = b[i] as nat;
    let va = be_value(ra);
    let vb = be_value(rb);
    assert((vp * 256 + xa) * q + va < (vp * 256 + xb) * q + vb) by (nonlinear_arith)
        requires
            xa < xb,
            va < q,
    ;
}

/// Eight big-endian bytes of `id`, the key under which its record is stored.
pub fn storage_key(id: u64) -> (r: Vec<u8>)
    ensures
        r@ == key_of(id),
{
    be_encode(id, 8)
}

/// The `n` low bytes of `v`, most significant first.
pub fn be_encode(v: u64, n: usize) -> (r: Vec<u8>)
    requires
        n <= 8,
    ensures
        r@ == be_bytes(v as nat, n as nat),
    decreases n,
{
    if n == 0 {
        Vec::new()
    } else {
        let mut r = be_encode(v / 256, n - 1);
        r.push((v % 256) as u8);
        r
    }
}

/// The number that `b[start..start + n]` spells in big-endian order.
pub fn be_decode(b: &[u8], start: usize, n: usize) -> (r: u64)
    requires
        n <= 8,
        start + n <= b@.len(),
    ensures
        r as nat == be_value(b@.subrange(start as int, start + n)),
{
    let len = b.len();
    let mut acc: u64 = 0;
    let mut i: usize = 0;
    while i < n
        invariant
            i <= n <= 8,
            start + n <= b@.len() == len,
            acc as nat == be_value(b@.subrange(start as int, start + i)),
        decreases n - i,
    {
        let ghost s = b@.subrange(start as int, start + i + 1);
        assert(s.drop_last() == b@.subrange(start as int, start + i));
        proof {
            lemma_be_value_bound(b@.subrange(start as int, start + i));
            assert(pow256(i as nat) <= pow256(7)) by {
                lemma_pow256_mono(i as nat, 7);
            }
            reveal_with_fuel(pow256, 8);
            assert(pow256(7) == 0x100000000000000nat);
            let a = acc as nat;
            assert(a * 256 + 255 <= 0xffff_ffff_ffff_ffffnat) by (nonlinear_arith)
                requires
                    a < 0x100000000000000nat,
            ;
        }
        acc = acc * 256 + b[start + i] as u64;
        i = i + 1;
    }
    acc
}

pub proof fn lemma_pow256_mono(m: nat, n: nat)
    requires
        m <= n,
    ensures
        pow256(m) <= pow256(n),
    decreases n,
{
    if m < n {
        lemma_pow256_mono(m, (n - 1) as nat);
    }
}

/// The id that an eight-byte storage key names.
pub fn key_id(key: &[u8]) -> (r: u64)
    requires
        key@.len() == 8,
    ensures
        r as nat == be_value(key@),
        key_of(r) == key@,
{
    let r = be_decode(key, 0, 8);
    assert(key@.subrange(0, 8) == key@);
    proof {
        lemma_be_bytes_of_value(key@);
    }
    r
}

} // verus!
