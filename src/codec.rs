//! Big-endian conversion between integers and the operand bytes of the
//! instruction stream. A float operand travels as its 64-bit pattern, so
//! the same conversion carries it bit for bit.

use vstd::arithmetic::div_mod::{
    lemma_fundamental_div_mod_converse_div, lemma_fundamental_div_mod_converse_mod,
    lemma_mod_breakdown,
};
use vstd::prelude::*;

verus! {

/// The unsigned value of `b`, most significant byte first.
pub open spec fn be_value(b: Seq<u8>) -> nat
    decreases b.len(),
{
    if b.len() == 0 {
        0
    } else {
        be_value(b.drop_last()) * 256 + b.last() as nat
    }
}

/// The `n` low-order bytes of `v`, most significant first.
pub open spec fn be_bytes(v: nat, n: nat) -> Seq<u8>
    decreases n,
{
    if n == 0 {
        Seq::empty()
    } else {
        be_bytes(v / 256, (n - 1) as nat).push((v % 256) as u8)
    }
}

/// 256 to the power `n`.
pub open spec fn pow256(n: nat) -> nat
    decreases n,
{
    if n == 0 {
        1
    } else {
        256 * pow256((n - 1) as nat)
    }
}

/// The four operand bytes of an unsigned 32-bit value.
pub open spec fn encode_u32(v: u32) -> Seq<u8> {
    be_bytes(v as nat, 4)
}

/// The unsigned 32-bit value of four operand bytes.
pub open spec fn decode_u32(b: Seq<u8>) -> u32 {
    be_value(b) as u32
}

/// The four operand bytes of a signed 32-bit value (two's complement).
pub open spec fn encode_i32(v: i32) -> Seq<u8> {
    encode_u32(#[verifier::truncate] (v as u32))
}

/// The signed 32-bit value of four operand bytes (two's complement).
pub open spec fn decode_i32(b: Seq<u8>) -> i32 {
    #[verifier::truncate] (decode_u32(b) as i32)
}

/// The eight operand bytes of a 64-bit pattern.
pub open spec fn encode_u64(v: u64) -> Seq<u8> {
    be_bytes(v as nat, 8)
}

/// The 64-bit pattern of eight operand bytes.
pub open spec fn decode_u64(b: Seq<u8>) -> u64 {
    be_value(b) as u64
}

pub proof fn lemma_pow256_positive(n: nat)
    ensures
        pow256(n) > 0,
    decreases n,
{
    if n > 0 {
        lemma_pow256_positive((n - 1) as nat);
    }
}

pub proof fn lemma_be_bytes_len(v: nat, n: nat)
    ensures
        be_bytes(v, n).len() == n,
    decreases n,
{
    if n > 0 {
        lemma_be_bytes_len(v / 256, (n - 1) as nat);
    }
}

/// A sequence of bytes is worth less than 256 to the power of its length.
pub proof fn lemma_be_value_bound(b: Seq<u8>)
    ensures
        be_value(b) < pow256(b.len()),
    decreases b.len(),
{
    if b.len() > 0 {
        lemma_be_value_bound(b.drop_last());
        let p = pow256((b.len() - 1) as nat);
        assert(be_value(b.drop_last()) * 256 + b.last() < 256 * p) by (nonlinear_arith)
            requires
                be_value(b.drop_last()) < p,
                b.last() < 256,
        ;
    }
}

/// Reading back the bytes of `v` gives `v` modulo the width.
pub proof fn lemma_value_of_bytes(v: nat, n: nat)
    ensures
        be_value(be_bytes(v, n)) == v % pow256(n),
    decreases n,
{
    lemma_be_bytes_len(v, n);
    if n > 0 {
        let m = (n - 1) as nat;
        lemma_value_of_bytes(v / 256, m);
        lemma_be_bytes_len(v / 256, m);
        let b = be_bytes(v, n);
        assert(b.drop_last() =~= be_bytes(v / 256, m));
        lemma_pow256_positive(m);
        lemma_mod_breakdown(v as int, 256, pow256(m) as int);
        assert(((v / 256) % pow256(m)) * 256 == 256 * ((v / 256) % pow256(m))) by (nonlinear_arith);
    }
}

/// Writing out the value of a byte sequence gives the same bytes.
pub proof fn lemma_bytes_of_value(b: Seq<u8>)
    ensures
        be_bytes(be_value(b), b.len()) == b,
    decreases b.len(),
{
    if b.len() > 0 {
        let front = b.drop_last();
        lemma_bytes_of_value(front);
        let x = be_value(b);
        lemma_fundamental_div_mod_converse_div(
            x as int,
            256,
            be_value(front) as int,
            b.last() as int,
        );
        lemma_fundamental_div_mod_converse_mod(
            x as int,
            256,
            be_value(front) as int,
            b.last() as int,
        );
        assert(be_bytes(x, b.len()) =~= front.push(b.last()));
        assert(front.push(b.last()) =~= b);
    }
}

/// Every operand width round-trips exactly: a value written out and read
/// back is the same value, and bytes read and written out again are the same
/// bytes (so any 64-bit float pattern, NaN payloads included, survives).
pub proof fn lemma_operand_round_trip(a: u8, u: u32, i: i32, f: u64, b4: Seq<u8>, b8: Seq<u8>)
    requires
        b4.len() == 4,
        b8.len() == 8,
    ensures
        be_value(be_bytes(a as nat, 1)) == a,
        encode_u32(u).len() == 4,
        decode_u32(encode_u32(u)) == u,
        encode_i32(i).len() == 4,
        decode_i32(encode_i32(i)) == i,
        encode_u64(f).len() == 8,
        decode_u64(encode_u64(f)) == f,
        encode_u32(decode_u32(b4)) == b4,
        encode_i32(decode_i32(b4)) == b4,
        encode_u64(decode_u64(b8)) == b8,
{
    assert(pow256(1) == 0x100 && pow256(4) == 0x100000000 && pow256(8) == 0x10000000000000000)
        by {
        reveal_with_fuel(pow256, 9);
    }
    lemma_value_of_bytes(a as nat, 1);
    lemma_value_of_bytes(u as nat, 4);
    let iu = #[verifier::truncate] (i as u32);
    lemma_value_of_bytes(iu as nat, 4);
    lemma_value_of_bytes(f as nat, 8);
    lemma_be_bytes_len(u as nat, 4);
    lemma_be_bytes_len((i as u32) as nat, 4);
    lemma_be_bytes_len(f as nat, 8);
    assert(((i as u32) as i32) == i) by (bit_vector);
    lemma_be_value_bound(b4);
    lemma_be_value_bound(b8);
    lemma_bytes_of_value(b4);
    lemma_bytes_of_value(b8);
    let w = be_value(b4) as u32;
    assert((#[verifier::truncate] ((#[verifier::truncate] (w as i32)) as u32)) == w) by (bit_vector);
}

/// Reads `n` bytes at `at` as an unsigned big-endian number.
pub fn read_be(code: &[u8], at: usize, n: usize) -> (r: u64)
    requires
        at + n <= code.len(),
        n <= 8,
    ensures
        r == be_value(code@.subrange(at as int, at + n)),
        r < pow256(n as nat),
{
    let mut acc: u64 = 0;
    let mut i: usize = at;
    let end: usize = at + n;
    reveal_with_fuel(pow256, 9);
    while i < end
        invariant
            at <= i <= end,
            end == at + n,
            end <= code.len(),
            n <= 8,
            acc == be_value(code@.subrange(at as int, i as int)),
        decreases end - i,
    {
        proof {
            let s = code@.subrange(at as int, i as int);
            lemma_be_value_bound(s);
            assert(pow256(s.len()) <= pow256(7)) by {
                lemma_pow256_mono(s.len(), 7);
            }
            assert(pow256(7) == 0x100000000000000) by {
                reveal_with_fuel(pow256, 8);
            }
            assert(code@.subrange(at as int, i + 1).drop_last() =~= s);
        }
        acc = acc * 256 + code[i] as u64;
        i = i + 1;
    }
    proof {
        lemma_be_value_bound(code@.subrange(at as int, end as int));
    }
    acc
}

/// Reads the unsigned 32-bit operand at `at`.
pub fn read_u32(code: &[u8], at: usize) -> (r: u32)
    requires
        at + 4 <= code.len(),
    ensures
        r == decode_u32(code@.subrange(at as int, at + 4)),
{
    let x = read_be(code, at, 4);
    assert(pow256(4) == 0x100000000) by {
        reveal_with_fuel(pow256, 5);
    }
    x as u32
}

/// Reads the signed 32-bit operand at `at`.
pub fn read_i32(code: &[u8], at: usize) -> (r: i32)
    requires
        at + 4 <= code.len(),
    ensures
        r == decode_i32(code@.subrange(at as int, at + 4)),
{
    let x = read_u32(code, at);
    #[verifier::truncate]
    (x as i32)
}

/// Reads the 64-bit operand at `at`.
pub fn read_u64(code: &[u8], at: usize) -> (r: u64)
    requires
        at + 8 <= code.len(),
    ensures
        r == decode_u64(code@.subrange(at as int, at + 8)),
{
    read_be(code, at, 8)
}

proof fn lemma_pow256_mono(a: nat, b: nat)
    requires
        a <= b,
    ensures
        pow256(a) <= pow256(b),
    decreases b,
{
    if a < b {
        lemma_pow256_mono(a, (b - 1) as nat);
        lemma_pow256_positive((b - 1) as nat);
    }
}

/// Appends the `n` low-order bytes of `v`, most significant first.
pub fn push_be(code: &mut Vec<u8>, v: u64, n: usize)
    ensures
        final(code)@ == old(code)@ + be_bytes(v as nat, n as nat),
    decreases n,
{
    if n > 0 {
        push_be(code, v / 256, n - 1);
        code.push((v % 256) as u8);
        proof {
            assert(be_bytes(v as nat, n as nat) == be_bytes((v / 256) as nat, (n - 1) as nat).push(
                (v % 256) as u8,
            ));
        }
        assert(final(code)@ =~= old(code)@ + be_bytes(v as nat, n as nat));
    } else {
        assert(old(code)@ + be_bytes(v as nat, 0) =~= old(code)@);
    }
}

} // verus!
