//! Big-endian numbers: their value as a sequence of bytes, and the calls
//! into `byteorder` that read and write them.

use byteorder::{BigEndian, ByteOrder};
use vstd::prelude::*;

verus! {

/// The unsigned number that `b` spells in big-endian order.
pub open spec fn be_value(b: Seq<u8>) -> nat
    decreases b.len(),
{
    if b.len() == 0 {
        0
    } else {
        be_value(b.drop_last()) * 256 + b.last() as nat
    }
}

/// Relies on `BigEndian::read_u16`: the first two bytes, most significant first.
#[verifier::external_body]
pub(crate) fn read_u16_be(b: &[u8]) -> (r: u16)
    requires
        b@.len() >= 2,
    ensures
        r as nat == be_value(b@.take(2)),
{
    BigEndian::read_u16(b)
}

/// Relies on `BigEndian::read_u32`: the first four bytes, most significant first.
#[verifier::external_body]
pub(crate) fn read_u32_be(b: &[u8]) -> (r: u32)
    requires
        b@.len() >= 4,
    ensures
        r as nat == be_value(b@.take(4)),
{
    BigEndian::read_u32(b)
}

/// Relies on `BigEndian::read_u64`: the first eight bytes, most significant first.
#[verifier::external_body]
pub(crate) fn read_u64_be(b: &[u8]) -> (r: u64)
    requires
        b@.len() >= 8,
    ensures
        r as nat == be_value(b@.take(8)),
{
    BigEndian::read_u64(b)
}

/// Relies on `BigEndian::write_u16`: `n` as two bytes, most significant first.
#[verifier::external_body]
pub(crate) fn u16_be(n: u16) -> (r: [u8; 2])
    ensures
        r@.len() == 2,
        be_value(r@) == n as nat,
{
    let mut buf = [0u8; 2];
    BigEndian::write_u16(&mut buf, n);
    buf
}

/// Relies on `BigEndian::write_u32`: `n` as four bytes, most significant first.
#[verifier::external_body]
pub(crate) fn u32_be(n: u32) -> (r: [u8; 4])
    ensures
        r@.len() == 4,
        be_value(r@) == n as nat,
{
    let mut buf = [0u8; 4];
    BigEndian::write_u32(&mut buf, n);
    buf
}

/// Relies on `BigEndian::write_u64`: `n` as eight bytes, most significant first.
#[verifier::external_body]
pub(crate) fn u64_be(n: u64) -> (r: [u8; 8])
    ensures
        r@.len() == 8,
        be_value(r@) == n as nat,
{
    let mut buf = [0u8; 8];
    BigEndian::write_u64(&mut buf, n);
    buf
}

/// A sequence of `n` bytes spells a number below `256^n`.
pub proof fn lemma_be_value_bound(b: Seq<u8>)
    ensures
        be_value(b) < pow256(b.len()),
    decreases b.len(),
{
    if b.len() > 0 {
        lemma_be_value_bound(b.drop_last());
        let p = pow256((b.len() - 1) as nat);
        let v = be_value(b.drop_last());
        assert(v * 256 + b.last() < p * 256) by (nonlinear_arith)
            requires
                v < p,
                b.last() < 256,
        ;
    }
}

/// `256` raised to `n`.
pub open spec fn pow256(n: nat) -> nat
    decreases n,
{
    if n == 0 {
        1
    } else {
        pow256((n - 1) as nat) * 256
    }
}

/// Two sequences of one length that spell the same number are equal.
pub proof fn lemma_be_value_injective(a: Seq<u8>, b: Seq<u8>)
    requires
        a.len() == b.len(),
        be_value(a) == be_value(b),
    ensures
        a == b,
    decreases a.len(),
{
    if a.len() > 0 {
        let va = be_value(a.drop_last());
        let vb = be_value(b.drop_last());
        let la = a.last() as int;
        let lb = b.last() as int;
        assert(la == lb && va == vb) by (nonlinear_arith)
            requires
                va * 256 + la == vb * 256 + lb,
                0 <= la < 256,
                0 <= lb < 256,
                va >= 0,
                vb >= 0,
        ;
        lemma_be_value_injective(a.drop_last(), b.drop_last());
        assert(a =~= a.drop_last().push(a.last()));
        assert(b =~= b.drop_last().push(b.last()));
    }
}

/// `n` as `k` bytes, most significant first (the low `k` bytes of `n`).
pub open spec fn be_bytes(n: nat, k: nat) -> Seq<u8>
    decreases k,
{
    if k == 0 {
        Seq::empty()
    } else {
        be_bytes(n / 256, (k - 1) as nat).push((n % 256) as u8)
    }
}

/// `be_bytes` gives `k` bytes.
pub proof fn lemma_be_bytes_len(n: nat, k: nat)
    ensures
        be_bytes(n, k).len() == k,
    decreases k,
{
    if k > 0 {
        lemma_be_bytes_len(n / 256, (k - 1) as nat);
    }
}

/// A number below `256^k`, written as `k` bytes, reads back as itself.
pub proof fn lemma_be_bytes_value(n: nat, k: nat)
    requires
        n < pow256(k),
    ensures
        be_value(be_bytes(n, k)) == n,
    decreases k,
{
    if k > 0 {
        let p = pow256((k - 1) as nat);
        assert(n / 256 < p) by (nonlinear_arith)
            requires
                n < p * 256,
        ;
        lemma_be_bytes_value(n / 256, (k - 1) as nat);
        let s = be_bytes(n, k);
        assert(s.drop_last() =~= be_bytes(n / 256, (k - 1) as nat));
        assert((n / 256) * 256 + n % 256 == n) by (nonlinear_arith);
    } else {
        assert(n == 0);
    }
}

/// The only `k` bytes that read as `n` are `be_bytes(n, k)`.
pub proof fn lemma_be_bytes_unique(b: Seq<u8>, n: nat, k: nat)
    requires
        b.len() == k,
        be_value(b) == n,
    ensures
        b == be_bytes(n, k),
{
    lemma_be_value_bound(b);
    lemma_be_bytes_value(n, k);
    lemma_be_bytes_len(n, k);
    lemma_be_value_injective(b, be_bytes(n, k));
}

} // verus!
