use vstd::prelude::*;
use vstd::endian::{endianness, Endian};

verus! {

/// Number of bytes of a frame's length header: the width of a `usize`.
///
/// The library is for targets whose `usize` is 8 bytes wide (64-bit
/// targets): the header wrappers below exchange a `usize` for an `[u8; 8]`,
/// which std only offers there.
pub const SIZE: usize = 8;

/// The number that a byte sequence denotes when its first byte is the least significant.
pub open spec fn le_value(s: Seq<u8>) -> nat
    decreases s.len(),
{
    if s.len() == 0 {
        0
    } else {
        s[0] as nat + 256 * le_value(s.drop_first())
    }
}

/// The `k` bytes of `n`, least significant first (`n` reduced modulo 256^k).
pub open spec fn le_bytes(n: nat, k: nat) -> Seq<u8>
    decreases k,
{
    if k == 0 {
        Seq::empty()
    } else {
        seq![(n % 256) as u8] + le_bytes(n / 256, (k - 1) as nat)
    }
}

/// The number that a byte sequence denotes in the byte order of the machine.
pub open spec fn ne_value(s: Seq<u8>) -> nat {
    match endianness() {
        Endian::Little => le_value(s),
        Endian::Big => le_value(s.reverse()),
    }
}

/// The `SIZE` bytes of `n` in the byte order of the machine.
pub open spec fn ne_bytes(n: nat) -> Seq<u8> {
    match endianness() {
        Endian::Little => le_bytes(n, SIZE as nat),
        Endian::Big => le_bytes(n, SIZE as nat).reverse(),
    }
}

/// 256 to the power `k`.
pub open spec fn pow256(k: nat) -> nat
    decreases k,
{
    if k == 0 {
        1
    } else {
        256 * pow256((k - 1) as nat)
    }
}

proof fn lemma_div_bound(n: nat, p: nat)
    requires
        p > 0,
        n < 256 * p,
    ensures
        n / 256 < p,
        n == n % 256 + 256 * (n / 256),
{
    assert(n / 256 < p) by (nonlinear_arith)
        requires
            p > 0,
            n < 256 * p,
    ;
    assert(n == n % 256 + 256 * (n / 256)) by (nonlinear_arith);
}

proof fn lemma_le_bytes_value(n: nat, k: nat)
    requires
        n < pow256(k),
    ensures
        le_bytes(n, k).len() == k,
        le_value(le_bytes(n, k)) == n,
    decreases k,
{
    if k > 0 {
        let p = pow256((k - 1) as nat);
        assert(pow256(k) == 256 * p);
        lemma_div_bound(n, p);
        lemma_le_bytes_value(n / 256, (k - 1) as nat);
        let s = le_bytes(n, k);
        assert(s.drop_first() =~= le_bytes(n / 256, (k - 1) as nat));
    }
}

proof fn lemma_le_value_bytes(s: Seq<u8>)
    ensures
        le_value(s) < pow256(s.len()),
        le_bytes(le_value(s), s.len()) == s,
    decreases s.len(),
{
    if s.len() > 0 {
        let t = s.drop_first();
        lemma_le_value_bytes(t);
        let v = le_value(s);
        let p = pow256(t.len());
        assert(pow256(s.len()) == 256 * p);
        assert(v < 256 * p) by (nonlinear_arith)
            requires
                v == s[0] as nat + 256 * le_value(t),
                le_value(t) < p,
                s[0] < 256,
        ;
        assert(v % 256 == s[0] as nat && v / 256 == le_value(t)) by (nonlinear_arith)
            requires
                v == s[0] as nat + 256 * le_value(t),
                s[0] < 256,
        ;
        assert(le_bytes(v, s.len()) =~= s);
    }
}

proof fn lemma_pow_256_8()
    ensures
        pow256(8) == 0x1_0000_0000_0000_0000,
{
    reveal_with_fuel(pow256, 9);
}

proof fn lemma_reverse_reverse(s: Seq<u8>)
    ensures
        s.reverse().len() == s.len(),
        s.reverse().reverse() == s,
{
    if s.len() > 0 {
        assert(s.reverse().len() == s.len());
        assert(s.reverse().reverse() =~= s);
    } else {
        assert(s.reverse().reverse() =~= s);
    }
}

/// Decoding the native-order bytes of a number that fits in a header gives the number back.
pub proof fn lemma_ne_bytes_value(n: nat)
    requires
        n <= usize::MAX,
    ensures
        ne_bytes(n).len() == SIZE,
        ne_value(ne_bytes(n)) == n,
{
    lemma_pow_256_8();
    lemma_le_bytes_value(n, SIZE as nat);
    lemma_reverse_reverse(le_bytes(n, SIZE as nat));
}

/// A header is the native-order bytes of the number it denotes.
pub proof fn lemma_ne_value_bytes(s: Seq<u8>)
    requires
        s.len() == SIZE,
    ensures
        ne_bytes(ne_value(s)) == s,
        ne_value(s) < 0x1_0000_0000_0000_0000,
{
    lemma_pow_256_8();
    lemma_reverse_reverse(s);
    lemma_le_value_bytes(s);
    lemma_le_value_bytes(s.reverse());
}

/// std's `usize::to_ne_bytes`: the bytes of `x` in the byte order of the machine.
#[verifier::external_body]
pub(crate) fn usize_to_ne_bytes(x: usize) -> (res: [u8; 8])
    ensures
        res@ == ne_bytes(x as nat),
{
    x.to_ne_bytes()
}

/// std's `usize::from_ne_bytes`: the number that the bytes denote in the byte order
/// of the machine.
#[verifier::external_body]
pub(crate) fn usize_from_ne_bytes(b: [u8; 8]) -> (res: usize)
    ensures
        res as nat == ne_value(b@),
{
    usize::from_ne_bytes(b)
}

} // verus!
