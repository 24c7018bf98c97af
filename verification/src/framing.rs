//! Frames that carry serialised messages over a stream: eight bytes of
//! length, least significant first, then the payload.
use vstd::prelude::*;

use crate::events::{le_bytes, push_all, push_le};

verus! {

/// Bytes of the length that starts each frame.
pub const FRAME_HEADER: usize = 8;

/// `256` to the power `n`.
pub open spec fn pow256(n: nat) -> nat
    decreases n,
{
    if n == 0 {
        1
    } else {
        256 * pow256((n - 1) as nat)
    }
}

/// The number that a little-endian byte string denotes.
pub open spec fn le_value(s: Seq<u8>) -> nat
    decreases s.len(),
{
    if s.len() == 0 {
        0
    } else {
        s[0] as nat + 256 * le_value(s.drop_first())
    }
}

proof fn lemma_le_value_bound(s: Seq<u8>)
    ensures
        le_value(s) < pow256(s.len()),
    decreases s.len(),
{
    if s.len() > 0 {
        lemma_le_value_bound(s.drop_first());
        let a = s[0] as nat;
        let b = le_value(s.drop_first());
        let p = pow256(s.drop_first().len());
        assert(a + 256 * b < 256 * p) by (nonlinear_arith)
            requires
                a < 256,
                b < p,
        ;
    }
}

/// Reading back the bytes of a number gives the number, where it fits.
pub proof fn lemma_le_roundtrip(x: nat, n: nat)
    requires
        x < pow256(n),
    ensures
        le_value(le_bytes(x, n)) == x,
        le_bytes(x, n).len() == n,
    decreases n,
{
    if n > 0 {
        let q = x / 256;
        let r = x % 256;
        assert(x == r + 256 * q && r < 256) by (nonlinear_arith)
            requires
                q == x / 256,
                r == x % 256,
        ;
        assert(q < pow256((n - 1) as nat)) by (nonlinear_arith)
            requires
                x == r + 256 * q,
                x < 256 * pow256((n - 1) as nat),
                r >= 0,
        ;
        lemma_le_roundtrip(q, (n - 1) as nat);
        let s = le_bytes(x, n);
        assert(s.drop_first() =~= le_bytes(q, (n - 1) as nat));
    }
}

/// Writing the bytes of what a byte string denotes gives the byte string
/// back.
pub proof fn lemma_le_bytes_of_value(s: Seq<u8>)
    ensures
        le_bytes(le_value(s), s.len()) == s,
    decreases s.len(),
{
    if s.len() > 0 {
        let a = s[0] as nat;
        let b = le_value(s.drop_first());
        let v = a + 256 * b;
        assert(v % 256 == a && v / 256 == b) by (nonlinear_arith)
            requires
                v == a + 256 * b,
                a < 256,
        ;
        lemma_le_bytes_of_value(s.drop_first());
        assert(le_bytes(v, s.len()) =~= s);
    }
}

/// A frame holding `payload`.
pub fn encode_frame(payload: &[u8]) -> (r: Vec<u8>)
    ensures
        r@ == le_bytes(payload@.len(), FRAME_HEADER as nat) + payload@,
{
    let mut r: Vec<u8> = Vec::new();
    push_le(&mut r, payload.len() as u128, FRAME_HEADER);
    push_all(&mut r, payload);
    r
}

/// Length of the payload that a frame header announces.
pub fn frame_len(header: &[u8]) -> (r: u64)
    requires
        header@.len() == FRAME_HEADER,
    ensures
        r == le_value(header@),
        le_bytes(r as nat, FRAME_HEADER as nat) == header@,
{
    let mut v: u128 = 0;
    let mut i: usize = FRAME_HEADER;
    assert(header@.skip(8) =~= Seq::<u8>::empty());
    while i > 0
        invariant
            0 <= i <= FRAME_HEADER,
            header@.len() == FRAME_HEADER,
            v == le_value(header@.skip(i as int)),
            v < pow256((FRAME_HEADER - i) as nat),
        decreases i,
    {
        proof {
            assert(header@.skip(i - 1).drop_first() =~= header@.skip(i as int));
            assert(pow256((FRAME_HEADER - i) as nat) <= pow256(7)) by {
                lemma_pow256_monotone((FRAME_HEADER - i) as nat, 7);
            }
            assert(pow256(7) == 72057594037927936) by {
                reveal_with_fuel(pow256, 8);
            }
        }
        v = header[i - 1] as u128 + 256 * v;
        proof {
            lemma_le_value_bound(header@.skip(i - 1));
        }
        i = i - 1;
    }
    assert(header@.skip(0) =~= header@);
    proof {
        assert(pow256(8) == 18446744073709551616) by {
            reveal_with_fuel(pow256, 9);
        }
        lemma_le_bytes_of_value(header@);
    }
    v as u64
}

proof fn lemma_pow256_monotone(a: nat, b: nat)
    requires
        a <= b,
    ensures
        pow256(a) <= pow256(b),
    decreases b,
{
    if a < b {
        lemma_pow256_monotone(a, (b - 1) as nat);
    }
}

/// The header of a frame announces the length of its payload.
pub proof fn lemma_frame_roundtrip(payload: Seq<u8>)
    requires
        payload.len() < pow256(FRAME_HEADER as nat),
    ensures
        ({
            let f = le_bytes(payload.len(), FRAME_HEADER as nat) + payload;
            &&& le_value(f.take(FRAME_HEADER as int)) == payload.len()
            &&& f.skip(FRAME_HEADER as int) == payload
        }),
{
    let h = le_bytes(payload.len(), FRAME_HEADER as nat);
    lemma_le_roundtrip(payload.len(), FRAME_HEADER as nat);
    let f = h + payload;
    assert(f.take(FRAME_HEADER as int) =~= h);
    assert(f.skip(FRAME_HEADER as int) =~= payload);
}

} // verus!
