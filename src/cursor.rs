use vstd::prelude::*;

verus! {

/// Value of `n` bytes of `b` starting at `start`, read little-endian.
pub open spec fn le_value(b: Seq<u8>, start: int, n: nat) -> nat
    decreases n,
{
    if n == 0 {
        0
    } else {
        b[start] as nat + 256 * le_value(b, start + 1, (n - 1) as nat)
    }
}

pub open spec fn pow256(n: nat) -> nat
    decreases n,
{
    if n == 0 {
        1
    } else {
        256 * pow256((n - 1) as nat)
    }
}

/// The two's-complement reading of a 64-bit pattern.
pub open spec fn signed64(v: nat) -> int {
    if v < 0x8000_0000_0000_0000 {
        v as int
    } else {
        v - 0x1_0000_0000_0000_0000
    }
}

pub proof fn lemma_le_bound(b: Seq<u8>, start: int, n: nat)
    ensures
        le_value(b, start, n) < pow256(n),
    decreases n,
{
    if n > 0 {
        lemma_le_bound(b, start + 1, (n - 1) as nat);
    }
}

proof fn lemma_pow256_mono(m: nat, n: nat)
    requires
        m <= n,
    ensures
        pow256(m) <= pow256(n),
    decreases n,
{
    if m < n {
        lemma_pow256_mono(m, (n - 1) as nat);
    }
}

/// Reads `n` bytes (at most eight) of `code` from `pos`, little-endian.
pub fn read_le(code: &Vec<u8>, pos: usize, n: usize) -> (r: u64)
    requires
        n <= 8,
        pos + n <= code@.len(),
    ensures
        r == le_value(code@, pos as int, n as nat),
{
    let len: usize = code.len();
    let mut acc: u64 = 0;
    let mut i: usize = n;
    proof {
        reveal_with_fuel(pow256, 9);
    }
    while i > 0
        invariant
            i <= n <= 8,
            pos + n <= code@.len(),
            len == code@.len(),
            acc == le_value(code@, pos + i, (n - i) as nat),
            pow256(8) == 0x1_0000_0000_0000_0000,
        decreases i,
    {
        proof {
            lemma_le_bound(code@, pos + i, (n - i) as nat);
            lemma_pow256_mono((n - i) as nat, 7);
            reveal_with_fuel(pow256, 8);
        }
        i = i - 1;
        acc = code[pos + i] as u64 + 256 * acc;
    }
    acc
}

/// Reinterprets a 64-bit pattern as a two's-complement integer.
pub fn to_signed(v: u64) -> (r: i64)
    ensures
        r == signed64(v as nat),
{
    if v < 0x8000_0000_0000_0000 {
        v as i64
    } else {
        (v - 0x8000_0000_0000_0000) as i64 + i64::MIN
    }
}

} // verus!
