//! Little-endian numbers, the variable-length numbers of 7z headers, bit sets and UTF-16 names.

use crate::error::Result;
use vstd::arithmetic::div_mod::lemma_div_denominator;
use vstd::prelude::*;

verus! {

// ---------------------------------------------------------------------------------------------
// Little-endian numbers
// ---------------------------------------------------------------------------------------------
/// The `n` low bytes of `v`, the lowest first.
pub open spec fn le_bytes(v: nat, n: nat) -> Seq<u8>
    decreases n,
{
    if n == 0 {
        Seq::empty()
    } else {
        seq![(v % 256) as u8] + le_bytes(v / 256, (n - 1) as nat)
    }
}

/// The number that bytes write, the lowest first.
pub open spec fn le_value(s: Seq<u8>) -> nat
    decreases s.len(),
{
    if s.len() == 0 {
        0
    } else {
        s[0] as nat + 256 * le_value(s.skip(1))
    }
}

/// `256` to the power of `n`.
pub open spec fn pow256(n: nat) -> nat
    decreases n,
{
    if n == 0 {
        1
    } else {
        256 * pow256((n - 1) as nat)
    }
}

/// `n` bytes are `n` bytes long, and hold the remainder of the division by `256^n`.
pub proof fn lemma_le_bytes(v: nat, n: nat)
    ensures
        le_bytes(v, n).len() == n,
        v == (v / pow256(n)) * pow256(n) + le_value(le_bytes(v, n)),
        le_value(le_bytes(v, n)) < pow256(n),
        pow256(n) > 0,
    decreases n,
{
    if n == 0 {
        let p = pow256(n);
        assert(p == 1);
        assert((v / p) * p == v) by (nonlinear_arith)
            requires
                p == 1,
        ;
    } else {
        let m = (n - 1) as nat;
        let t = le_bytes(v / 256, m);
        let s = le_bytes(v, n);
        lemma_le_bytes(v / 256, m);
        assert(s.skip(1) =~= t);
        assert(s[0] == (v % 256) as u8);
        lemma_div_denominator(v as int, 256, pow256(m) as int);
        assert(v == 256 * (v / 256) + v % 256);
        let p = pow256(m);
        let q = (v / 256) / p;
        assert(pow256(n) == 256 * p);
        assert(v / pow256(n) == q);
        assert(256 * (q * p) == q * (256 * p)) by (nonlinear_arith);
        assert(le_value(s) == v % 256 + 256 * le_value(t));
        assert(v == 256 * (q * p + le_value(t)) + v % 256);
        assert(256 * (q * p + le_value(t)) == 256 * (q * p) + 256 * le_value(t));
        assert(v == q * pow256(n) + le_value(s));
    }
}

/// Law: reading back the bytes of a number that fits gives the number.
pub proof fn law_le_bytes_read_back(v: nat, n: nat)
    requires
        v < pow256(n),
    ensures
        le_bytes(v, n).len() == n,
        le_value(le_bytes(v, n)) == v,
{
    lemma_le_bytes(v, n);
    assert(v / pow256(n) == 0) by (nonlinear_arith)
        requires
            v < pow256(n),
    ;
}

/// Appends the `n` low bytes of `v`, the lowest first.
pub fn push_le(h: &mut Vec<u8>, v: u64, n: u8)
    ensures
        final(h)@ == old(h)@ + le_bytes(v as nat, n as nat),
{
    let ghost start = h@;
    let mut rest: u64 = v;
    let mut left: u8 = n;
    assert(h@ + le_bytes(v as nat, n as nat) =~= start + le_bytes(v as nat, n as nat));
    while left > 0
        invariant
            h@ + le_bytes(rest as nat, left as nat) == start + le_bytes(v as nat, n as nat),
        decreases left,
    {
        let ghost before = h@;
        let ghost tail = le_bytes((rest / 256) as nat, (left - 1) as nat);
        let b: u8 = (rest % 256) as u8;
        h.push(b);
        assert(before + (seq![b] + tail) =~= h@ + tail);
        rest = rest / 256;
        left -= 1;
    }
    assert(h@ + Seq::<u8>::empty() =~= h@);
}

// ---------------------------------------------------------------------------------------------
// Variable-length numbers
// ---------------------------------------------------------------------------------------------
/// How many bytes follow the first byte of the number `v`.
pub open spec fn extra_bytes(v: u64) -> nat {
    if v < 0x80 {
        0
    } else if v < 0x4000 {
        1
    } else if v < 0x20_0000 {
        2
    } else if v < 0x1000_0000 {
        3
    } else if v < 0x8_0000_0000 {
        4
    } else if v < 0x400_0000_0000 {
        5
    } else if v < 0x2_0000_0000_0000 {
        6
    } else if v < 0x100_0000_0000_0000 {
        7
    } else {
        8
    }
}

/// The marker bits of a first byte that `n` bytes follow: `n` ones from the top.
pub open spec fn marker(n: nat) -> nat {
    if n == 0 {
        0
    } else if n == 1 {
        0x80
    } else if n == 2 {
        0xC0
    } else if n == 3 {
        0xE0
    } else if n == 4 {
        0xF0
    } else if n == 5 {
        0xF8
    } else if n == 6 {
        0xFC
    } else if n == 7 {
        0xFE
    } else {
        0xFF
    }
}

/// A number as 7z headers write it: the first byte says in its leading ones how many bytes
/// follow and holds the highest bits; the others follow from the lowest.
pub open spec fn number(v: u64) -> Seq<u8> {
    let n = extra_bytes(v);
    seq![(marker(n) + v as nat / pow256(n)) as u8] + le_bytes(v as nat, n)
}

/// How many bytes a first byte announces.
pub open spec fn announced(first: u8) -> nat {
    if first < 0x80 {
        0
    } else if first < 0xC0 {
        1
    } else if first < 0xE0 {
        2
    } else if first < 0xF0 {
        3
    } else if first < 0xF8 {
        4
    } else if first < 0xFC {
        5
    } else if first < 0xFE {
        6
    } else if first < 0xFF {
        7
    } else {
        8
    }
}

/// The number in front of `s`, and what follows it; `None` where `s` is too short.
pub open spec fn read_number(s: Seq<u8>) -> Option<(nat, Seq<u8>)> {
    let n = announced(s[0]);
    if s.len() < 1 + n {
        None
    } else {
        Some(
            (
                ((s[0] - marker(n)) * pow256(n)) as nat + le_value(s.subrange(1, 1 + n as int)),
                s.skip(1 + n as int),
            ),
        )
    }
}

/// The powers of 256 that fit a `u64`.
proof fn lemma_pow256()
    ensures
        pow256(0) == 1,
        pow256(1) == 0x100,
        pow256(2) == 0x1_0000,
        pow256(3) == 0x100_0000,
        pow256(4) == 0x1_0000_0000,
        pow256(5) == 0x100_0000_0000,
        pow256(6) == 0x1_0000_0000_0000,
        pow256(7) == 0x100_0000_0000_0000,
        pow256(8) == 0x1_0000_0000_0000_0000,
{
    reveal_with_fuel(pow256, 9);
}

/// What the first byte of a number holds beside its marker.
proof fn lemma_high(v: u64)
    ensures
        ({
            let n = extra_bytes(v);
            let high = v as nat / pow256(n);
            &&& n == 0 ==> high == v
            &&& n == 1 ==> high == v / 0x100
            &&& n == 2 ==> high == v / 0x1_0000
            &&& n == 3 ==> high == v / 0x100_0000
            &&& n == 4 ==> high == v / 0x1_0000_0000
            &&& n == 5 ==> high == v / 0x100_0000_0000
            &&& n == 6 ==> high == v / 0x1_0000_0000_0000
            &&& n == 7 ==> high == v / 0x100_0000_0000_0000
            &&& n == 8 ==> high == 0
            &&& marker(n) + high < 256
            &&& announced((marker(n) + high) as u8) == n
        }),
{
    lemma_pow256();
    let n = extra_bytes(v);
    let w = v as nat;
    if n == 0 {
        assert(w / pow256(n) == w / 1);
    } else if n == 1 {
        assert(w / pow256(n) == w / 0x100);
    } else if n == 2 {
        assert(w / pow256(n) == w / 0x1_0000);
    } else if n == 3 {
        assert(w / pow256(n) == w / 0x100_0000);
    } else if n == 4 {
        assert(w / pow256(n) == w / 0x1_0000_0000);
    } else if n == 5 {
        assert(w / pow256(n) == w / 0x100_0000_0000);
    } else if n == 6 {
        assert(w / pow256(n) == w / 0x1_0000_0000_0000);
    } else if n == 7 {
        assert(w / pow256(n) == w / 0x100_0000_0000_0000);
    } else {
        assert(w / pow256(n) == w / 0x1_0000_0000_0000_0000);
    }
}

/// Law: the number that was written is read back, whatever follows it.
pub proof fn law_number_reads_back(v: u64, rest: Seq<u8>)
    ensures
        read_number(number(v) + rest) == Some((v as nat, rest)),
        1 <= number(v).len() <= 9,
{
    let n = extra_bytes(v);
    lemma_high(v);
    lemma_le_bytes(v as nat, n);
    let s = number(v) + rest;
    let high = v as nat / pow256(n);
    assert(number(v).len() == 1 + n);
    assert(s.subrange(1, 1 + n as int) =~= le_bytes(v as nat, n));
    assert(s.skip(1 + n as int) =~= rest);
    assert(marker(n) + high < 256 && announced((marker(n) + high) as u8) == n);
    assert(s[0] == (marker(n) + high) as u8);
}

/// Appends a number as 7z headers write it.
pub fn write_u64(h: &mut Vec<u8>, value: u64) -> (r: Result<()>)
    ensures
        r is Ok,
        final(h)@ == old(h)@ + number(value),
{
    proof {
        lemma_high(value);
    }
    let (n, mark, unit): (u8, u64, u64) = if value < 0x80 {
        (0, 0, 1)
    } else if value < 0x4000 {
        (1, 0x80, 0x100)
    } else if value < 0x20_0000 {
        (2, 0xC0, 0x1_0000)
    } else if value < 0x1000_0000 {
        (3, 0xE0, 0x100_0000)
    } else if value < 0x8_0000_0000 {
        (4, 0xF0, 0x1_0000_0000)
    } else if value < 0x400_0000_0000 {
        (5, 0xF8, 0x100_0000_0000)
    } else if value < 0x2_0000_0000_0000 {
        (6, 0xFC, 0x1_0000_0000_0000)
    } else if value < 0x100_0000_0000_0000 {
        (7, 0xFE, 0x100_0000_0000_0000)
    } else {
        (8, 0xFF, 0)
    };
    let high: u64 = if n < 8 {
        value / unit
    } else {
        0
    };
    assert(high == value as nat / pow256(n as nat));
    assert(mark + high < 256);
    let first: u8 = (mark + high) as u8;
    let ghost before = h@;
    h.push(first);
    push_le(h, value, n);
    assert(h@ =~= before + number(value));
    Ok(())
}

// ---------------------------------------------------------------------------------------------
// Bit sets
// ---------------------------------------------------------------------------------------------
/// `1` where flag `i` is set.
pub open spec fn flag(flags: Seq<bool>, i: int) -> int {
    if 0 <= i < flags.len() && flags[i] {
        1
    } else {
        0
    }
}

/// Eight flags as one byte, the first flag in the highest bit.
pub open spec fn flag_byte(flags: Seq<bool>, i: int) -> int {
    128 * flag(flags, i) + 64 * flag(flags, i + 1) + 32 * flag(flags, i + 2) + 16 * flag(
        flags,
        i + 3,
    ) + 8 * flag(flags, i + 4) + 4 * flag(flags, i + 5) + 2 * flag(flags, i + 6) + flag(
        flags,
        i + 7,
    )
}

/// Flags as bytes, the first flag in the highest bit of the first byte.
pub open spec fn bit_set(flags: Seq<bool>) -> Seq<u8> {
    Seq::new(((flags.len() + 7) / 8) as nat, |b: int| flag_byte(flags, 8 * b) as u8)
}

/// The value of the bit for position `j` in a byte, counted from the top.
pub open spec fn bit_weight(j: int) -> int {
    if j == 0 {
        128
    } else if j == 1 {
        64
    } else if j == 2 {
        32
    } else if j == 3 {
        16
    } else if j == 4 {
        8
    } else if j == 5 {
        4
    } else if j == 6 {
        2
    } else {
        1
    }
}

/// Whether a bit set holds position `i`.
pub open spec fn bit_at(bits: Seq<u8>, i: int) -> bool {
    (bits[i / 8] as int / bit_weight(i % 8)) % 2 == 1
}

/// Law: each flag is read back from its bit.
pub proof fn law_bit_set_reads_back(flags: Seq<bool>, i: int)
    requires
        0 <= i < flags.len(),
    ensures
        bit_set(flags).len() == (flags.len() + 7) / 8,
        bit_at(bit_set(flags), i) == flags[i],
{
    let b = i / 8;
    let j = i % 8;
    assert(0 <= b < bit_set(flags).len());
    assert(i == 8 * b + j);
    assert(0 <= flag_byte(flags, 8 * b) < 256);
    assert(bit_set(flags)[b] as int == flag_byte(flags, 8 * b));
}

/// Flags as bytes, the first flag in the highest bit of the first byte.
pub fn bitset_bytes(flags: &[bool]) -> (r: Vec<u8>)
    ensures
        r@ == bit_set(flags@),
{
    let mut out: Vec<u8> = Vec::new();
    let mut i: usize = 0;
    while i < flags.len()
        invariant
            i == 8 * out@.len(),
            i < flags.len() + 8,
            out@.len() <= bit_set(flags@).len(),
            out@ == bit_set(flags@).take(out@.len() as int),
        decreases flags.len() + 8 - i,
    {
        let left: usize = flags.len() - i;
        let b: u8 = 128 * flag_near(flags, i, 0) + 64 * flag_near(flags, i, 1) + 32 * flag_near(
            flags,
            i,
            2,
        ) + 16 * flag_near(flags, i, 3) + 8 * flag_near(flags, i, 4) + 4 * flag_near(flags, i, 5)
            + 2 * flag_near(flags, i, 6) + flag_near(flags, i, 7);
        assert(b as int == flag_byte(flags@, i as int));
        assert(bit_set(flags@)[out@.len() as int] == b);
        out.push(b);
        assert(out@ =~= bit_set(flags@).take(out@.len() as int));
        if left <= 8 {
            assert(out@.len() == bit_set(flags@).len());
            assert(out@ =~= bit_set(flags@));
            return out;
        }
        i += 8;
    }
    assert(out@ =~= bit_set(flags@));
    out
}

fn flag_near(flags: &[bool], i: usize, j: usize) -> (r: u8)
    requires
        i < flags@.len(),
        j < 8,
    ensures
        r as int == flag(flags@, i + j),
        r <= 1,
{
    if flags.len() - i > j && flags[i + j] {
        1
    } else {
        0
    }
}

// ---------------------------------------------------------------------------------------------
// UTF-16
// ---------------------------------------------------------------------------------------------
/// One character in UTF-16, each unit with its low byte first.
pub open spec fn utf16_char(c: char) -> Seq<u8> {
    let n = (c as u32) as nat;
    if n < 0x1_0000 {
        le_bytes(n, 2)
    } else {
        le_bytes((0xD800 + (n - 0x1_0000) / 0x400) as nat, 2) + le_bytes(
            (0xDC00 + (n - 0x1_0000) % 0x400) as nat,
            2,
        )
    }
}

/// A text in UTF-16, each unit with its low byte first.
pub open spec fn utf16(s: Seq<char>) -> Seq<u8>
    decreases s.len(),
{
    if s.len() == 0 {
        Seq::empty()
    } else {
        utf16(s.drop_last()) + utf16_char(s.last())
    }
}

/// Appends a text in UTF-16.
pub fn push_utf16(h: &mut Vec<u8>, s: &[char])
    ensures
        final(h)@ == old(h)@ + utf16(s@),
{
    let ghost start = h@;
    let mut i: usize = 0;
    assert(s@.take(0) =~= Seq::<char>::empty());
    assert(h@ =~= start + Seq::<u8>::empty());
    while i < s.len()
        invariant
            i <= s.len(),
            h@ == start + utf16(s@.take(i as int)),
        decreases s.len() - i,
    {
        let n: u32 = s[i] as u32;
        let ghost before = h@;
        assert(s@.take(i + 1).drop_last() =~= s@.take(i as int));
        assert(s@.take(i + 1).last() == s@[i as int]);
        if n < 0x1_0000 {
            push_le(h, n as u64, 2);
        } else {
            let over: u32 = n - 0x1_0000;
            let lead: u64 = (0xD800 + over / 0x400) as u64;
            let trail: u64 = (0xDC00 + over % 0x400) as u64;
            push_le(h, lead, 2);
            push_le(h, trail, 2);
            assert(utf16_char(s@[i as int]) == le_bytes(lead as nat, 2) + le_bytes(trail as nat, 2));
        }
        assert(h@ =~= before + utf16_char(s@[i as int]));
        assert(h@ =~= start + utf16(s@.take(i + 1)));
        i += 1;
    }
    assert(s@.take(i as int) =~= s@);
}

} // verus!
