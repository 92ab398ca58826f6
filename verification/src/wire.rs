//! Fixed-width integers as byte sequences, little-endian and big-endian.

use vstd::prelude::*;
use vstd::slice::slice_subrange;

verus! {

/// `256` to the power of `n`: how many values `n` bytes can hold.
pub open spec fn pow256(n: nat) -> nat
    decreases n,
{
    if n == 0 {
        1
    } else {
        256 * pow256((n - 1) as nat)
    }
}

/// The number that `s` spells with its least significant byte first.
pub open spec fn le_value(s: Seq<u8>) -> nat
    decreases s.len(),
{
    if s.len() == 0 {
        0
    } else {
        s[0] as nat + 256 * le_value(s.drop_first())
    }
}

/// The `n` lowest bytes of `v`, least significant first.
pub open spec fn le_bytes(v: nat, n: nat) -> Seq<u8>
    decreases n,
{
    if n == 0 {
        Seq::empty()
    } else {
        seq![(v % 256) as u8] + le_bytes(v / 256, (n - 1) as nat)
    }
}

/// The number that `s` spells with its most significant byte first.
pub open spec fn be_value(s: Seq<u8>) -> nat {
    le_value(s.reverse())
}

/// The `n` lowest bytes of `v`, most significant first.
pub open spec fn be_bytes(v: nat, n: nat) -> Seq<u8> {
    le_bytes(v, n).reverse()
}

/// `pow256` at the widths that the wire formats use.
pub proof fn pow256_values()
    ensures
        pow256(1) == 0x100,
        pow256(2) == 0x1_0000,
        pow256(4) == 0x1_0000_0000,
        pow256(8) == 0x1_0000_0000_0000_0000,
{
    reveal_with_fuel(pow256, 9);
}

pub proof fn le_bytes_len(v: nat, n: nat)
    ensures
        le_bytes(v, n).len() == n,
        be_bytes(v, n).len() == n,
    decreases n,
{
    if n > 0 {
        le_bytes_len(v / 256, (n - 1) as nat);
    }
}

/// A number that fits into `n` bytes is read back from its `n` bytes.
pub proof fn le_round_trip(v: nat, n: nat)
    requires
        v < pow256(n),
    ensures
        le_value(le_bytes(v, n)) == v,
        be_value(be_bytes(v, n)) == v,
    decreases n,
{
    assert(le_bytes(v, n).reverse().reverse() =~= le_bytes(v, n));
    if n > 0 {
        let rest = le_bytes(v / 256, (n - 1) as nat);
        le_round_trip(v / 256, (n - 1) as nat);
        assert(le_bytes(v, n).drop_first() =~= rest);
    }
}

/// What `s` spells fits into its length.
pub proof fn le_value_bound(s: Seq<u8>)
    ensures
        le_value(s) < pow256(s.len()),
        be_value(s) < pow256(s.len()),
    decreases s.len(),
{
    le_value_bound_step(s);
    le_value_bound_step(s.reverse());
}

proof fn le_value_bound_step(s: Seq<u8>)
    ensures
        le_value(s) < pow256(s.len()),
    decreases s.len(),
{
    if s.len() > 0 {
        le_value_bound_step(s.drop_first());
    }
}

/// A byte string is spelled again by the number that it spells.
pub proof fn le_bytes_of_value(s: Seq<u8>)
    ensures
        le_bytes(le_value(s), s.len()) == s,
    decreases s.len(),
{
    if s.len() > 0 {
        let rest = s.drop_first();
        le_bytes_of_value(rest);
        let v = le_value(s);
        assert(v % 256 == s[0] && v / 256 == le_value(rest)) by (nonlinear_arith)
            requires
                v == s[0] as nat + 256 * le_value(rest),
                s[0] < 256,
        ;
        assert(le_bytes(v, s.len()) =~= s);
    } else {
        assert(le_bytes(le_value(s), 0) =~= s);
    }
}

/// Appends `v` in `n` bytes, least significant first.
fn put_le(out: &mut Vec<u8>, v: u64, n: usize)
    ensures
        final(out)@ == old(out)@ + le_bytes(v as nat, n as nat),
{
    let mut rest: u64 = v;
    let mut i: usize = 0;
    assert(out@ + le_bytes(rest as nat, n as nat) =~= old(out)@ + le_bytes(v as nat, n as nat));
    while i < n
        invariant
            i <= n,
            out@ + le_bytes(rest as nat, (n - i) as nat) == old(out)@ + le_bytes(v as nat, n as nat),
        decreases n - i,
    {
        let ghost before = out@;
        let ghost tail = le_bytes((rest / 256) as nat, (n - i - 1) as nat);
        out.push((rest % 256) as u8);
        assert(out@ + tail =~= before + le_bytes(rest as nat, (n - i) as nat));
        rest = rest / 256;
        i = i + 1;
    }
    assert(out@ + le_bytes(rest as nat, 0) =~= out@);
}

/// Appends `v` in `n` bytes, most significant first.
fn put_be(out: &mut Vec<u8>, v: u64, n: usize)
    ensures
        final(out)@ == old(out)@ + be_bytes(v as nat, n as nat),
{
    let mut small: Vec<u8> = Vec::new();
    put_le(&mut small, v, n);
    assert(small@ =~= le_bytes(v as nat, n as nat));
    let mut i: usize = small.len();
    while i > 0
        invariant
            i <= small@.len(),
            out@ == old(out)@ + small@.subrange(i as int, small@.len() as int).reverse(),
        decreases i,
    {
        i = i - 1;
        out.push(small[i]);
        assert(out@ =~= old(out)@ + small@.subrange(i as int, small@.len() as int).reverse());
    }
    assert(small@.subrange(0, small@.len() as int) =~= small@);
}

/// Reads the number that `s` spells with its least significant byte first.
fn get_le(s: &[u8]) -> (v: u64)
    requires
        s@.len() <= 8,
    ensures
        v == le_value(s@),
{
    let mut v: u64 = 0;
    let mut i: usize = s.len();
    assert(s@.subrange(i as int, s@.len() as int) =~= Seq::empty());
    while i > 0
        invariant
            i <= s@.len() <= 8,
            v == le_value(s@.subrange(i as int, s@.len() as int)),
        decreases i,
    {
        i = i - 1;
        let ghost tail = s@.subrange(i as int + 1, s@.len() as int);
        let ghost whole = s@.subrange(i as int, s@.len() as int);
        proof {
            assert(whole.drop_first() =~= tail);
            le_value_bound(whole);
            reveal_with_fuel(pow256, 9);
        }
        v = v * 256 + s[i] as u64;
    }
    assert(s@.subrange(0, s@.len() as int) =~= s@);
    v
}

/// Reads the number that `s` spells with its most significant byte first.
fn get_be(s: &[u8]) -> (v: u64)
    requires
        s@.len() <= 8,
    ensures
        v == be_value(s@),
{
    let mut v: u64 = 0;
    let mut i: usize = 0;
    assert(s@.subrange(0, 0).reverse() =~= Seq::empty());
    while i < s.len()
        invariant
            i <= s@.len() <= 8,
            v == le_value(s@.subrange(0, i as int).reverse()),
        decreases s@.len() - i,
    {
        let ghost head = s@.subrange(0, i as int);
        let ghost more = s@.subrange(0, i as int + 1);
        proof {
            assert(more.reverse().drop_first() =~= head.reverse());
            le_value_bound(more.reverse());
            reveal_with_fuel(pow256, 9);
        }
        v = v * 256 + s[i] as u64;
        i = i + 1;
    }
    assert(s@.subrange(0, s@.len() as int) =~= s@);
    v
}

/// The `n` bytes of `buf` at `at`.
pub fn bytes_at(buf: &[u8], at: usize, n: usize) -> (part: &[u8])
    requires
        at + n <= buf@.len(),
    ensures
        part@ == buf@.subrange(at as int, at + n),
{
    let total: usize = buf.len();
    assert(at + n <= total);
    slice_subrange(buf, at, at + n)
}

pub fn put_u16_le(out: &mut Vec<u8>, v: u16)
    ensures
        final(out)@ == old(out)@ + le_bytes(v as nat, 2),
{
    put_le(out, v as u64, 2);
}

pub fn put_u32_le(out: &mut Vec<u8>, v: u32)
    ensures
        final(out)@ == old(out)@ + le_bytes(v as nat, 4),
{
    put_le(out, v as u64, 4);
}

pub fn put_u64_le(out: &mut Vec<u8>, v: u64)
    ensures
        final(out)@ == old(out)@ + le_bytes(v as nat, 8),
{
    put_le(out, v, 8);
}

/// The `n` lowest bytes of a length.
pub fn put_len_be(out: &mut Vec<u8>, len: usize, n: usize)
    ensures
        final(out)@ == old(out)@ + be_bytes(len as nat, n as nat),
{
    put_be(out, len as u64, n);
}

pub fn put_u32_be(out: &mut Vec<u8>, v: u32)
    ensures
        final(out)@ == old(out)@ + be_bytes(v as nat, 4),
{
    put_be(out, v as u64, 4);
}

pub fn put_u64_be(out: &mut Vec<u8>, v: u64)
    ensures
        final(out)@ == old(out)@ + be_bytes(v as nat, 8),
{
    put_be(out, v, 8);
}

/// The two bytes at `at`, least significant first.
pub fn u16_le_at(buf: &[u8], at: usize) -> (v: u16)
    requires
        at + 2 <= buf@.len(),
    ensures
        v == le_value(buf@.subrange(at as int, at + 2)),
{
    let part = bytes_at(buf, at, 2);
    proof {
        le_value_bound(part@);
        pow256_values();
    }
    get_le(part) as u16
}

/// The four bytes at `at`, least significant first.
pub fn u32_le_at(buf: &[u8], at: usize) -> (v: u32)
    requires
        at + 4 <= buf@.len(),
    ensures
        v == le_value(buf@.subrange(at as int, at + 4)),
{
    let part = bytes_at(buf, at, 4);
    proof {
        le_value_bound(part@);
        pow256_values();
    }
    get_le(part) as u32
}

/// The eight bytes at `at`, least significant first.
pub fn u64_le_at(buf: &[u8], at: usize) -> (v: u64)
    requires
        at + 8 <= buf@.len(),
    ensures
        v == le_value(buf@.subrange(at as int, at + 8)),
{
    get_le(bytes_at(buf, at, 8))
}

/// The two bytes at `at`, most significant first.
pub fn u16_be_at(buf: &[u8], at: usize) -> (v: u16)
    requires
        at + 2 <= buf@.len(),
    ensures
        v == be_value(buf@.subrange(at as int, at + 2)),
{
    let part = bytes_at(buf, at, 2);
    proof {
        le_value_bound(part@);
        pow256_values();
    }
    get_be(part) as u16
}

/// The four bytes at `at`, most significant first.
pub fn u32_be_at(buf: &[u8], at: usize) -> (v: u32)
    requires
        at + 4 <= buf@.len(),
    ensures
        v == be_value(buf@.subrange(at as int, at + 4)),
{
    let part = bytes_at(buf, at, 4);
    proof {
        le_value_bound(part@);
        pow256_values();
    }
    get_be(part) as u32
}

/// The eight bytes at `at`, most significant first.
pub fn u64_be_at(buf: &[u8], at: usize) -> (v: u64)
    requires
        at + 8 <= buf@.len(),
    ensures
        v == be_value(buf@.subrange(at as int, at + 8)),
{
    get_be(bytes_at(buf, at, 8))
}

} // verus!
