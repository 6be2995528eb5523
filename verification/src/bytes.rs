//! Byte-level building blocks of the canonical encodings: fixed-width
//! integers in big- and little-endian form, appending to a buffer, and the
//! lexicographic order on byte strings of equal length.

use vstd::prelude::*;

verus! {

/// The eight bytes of `x`, most significant first.
pub open spec fn u64_be_bytes(x: u64) -> Seq<u8> {
    seq![
        ((x / 0x100_0000_0000_0000) % 0x100) as u8,
        ((x / 0x1_0000_0000_0000) % 0x100) as u8,
        ((x / 0x100_0000_0000) % 0x100) as u8,
        ((x / 0x1_0000_0000) % 0x100) as u8,
        ((x / 0x100_0000) % 0x100) as u8,
        ((x / 0x1_0000) % 0x100) as u8,
        ((x / 0x100) % 0x100) as u8,
        (x % 0x100) as u8,
    ]
}

/// The eight bytes of `x`, least significant first.
pub open spec fn u64_le_bytes(x: u64) -> Seq<u8> {
    seq![
        (x % 0x100) as u8,
        ((x / 0x100) % 0x100) as u8,
        ((x / 0x1_0000) % 0x100) as u8,
        ((x / 0x100_0000) % 0x100) as u8,
        ((x / 0x1_0000_0000) % 0x100) as u8,
        ((x / 0x100_0000_0000) % 0x100) as u8,
        ((x / 0x1_0000_0000_0000) % 0x100) as u8,
        ((x / 0x100_0000_0000_0000) % 0x100) as u8,
    ]
}

/// The number that eight little-endian bytes stand for.
pub open spec fn u64_from_le_bytes(s: Seq<u8>) -> int {
    s[0] + s[1] * 0x100 + s[2] * 0x1_0000 + s[3] * 0x100_0000 + s[4] * 0x1_0000_0000 + s[5]
        * 0x100_0000_0000 + s[6] * 0x1_0000_0000_0000 + s[7] * 0x100_0000_0000_0000
}

/// The four bytes of `x`, most significant first.
pub open spec fn u32_be_bytes(x: u32) -> Seq<u8> {
    seq![
        ((x / 0x100_0000) % 0x100) as u8,
        ((x / 0x1_0000) % 0x100) as u8,
        ((x / 0x100) % 0x100) as u8,
        (x % 0x100) as u8,
    ]
}

/// A length as the protocol's 32-bit count field holds it: reduced modulo 2^32.
pub open spec fn count_u32(len: nat) -> u32 {
    (len % 0x1_0000_0000) as u32
}

/// The digits of `x` in base 256, least significant first, as the
/// encodings above compute them.
spec fn digit(x: u64, i: nat) -> int
    decreases i,
{
    if i == 0 {
        x as int % 0x100
    } else {
        digit((x / 0x100) as u64, (i - 1) as nat)
    }
}

proof fn lemma_digits(x: u64)
    ensures
        digit(x, 0) == x % 0x100,
        digit(x, 1) == (x / 0x100) % 0x100,
        digit(x, 2) == (x / 0x1_0000) % 0x100,
        digit(x, 3) == (x / 0x100_0000) % 0x100,
        digit(x, 4) == (x / 0x1_0000_0000) % 0x100,
        digit(x, 5) == (x / 0x100_0000_0000) % 0x100,
        digit(x, 6) == (x / 0x1_0000_0000_0000) % 0x100,
        digit(x, 7) == (x / 0x100_0000_0000_0000) % 0x100,
        x == digit(x, 0) + digit(x, 1) * 0x100 + digit(x, 2) * 0x1_0000 + digit(x, 3) * 0x100_0000
            + digit(x, 4) * 0x1_0000_0000 + digit(x, 5) * 0x100_0000_0000 + digit(x, 6)
            * 0x1_0000_0000_0000 + digit(x, 7) * 0x100_0000_0000_0000,
{
    let q1 = (x / 0x100) as u64;
    let q2 = (q1 / 0x100) as u64;
    let q3 = (q2 / 0x100) as u64;
    let q4 = (q3 / 0x100) as u64;
    let q5 = (q4 / 0x100) as u64;
    let q6 = (q5 / 0x100) as u64;
    let q7 = (q6 / 0x100) as u64;
    assert(q2 == x / 0x1_0000);
    assert(q3 == x / 0x100_0000);
    assert(q4 == x / 0x1_0000_0000);
    assert(q5 == x / 0x100_0000_0000);
    assert(q6 == x / 0x1_0000_0000_0000);
    assert(q7 == x / 0x100_0000_0000_0000);
    assert(q7 < 0x100);
    reveal_with_fuel(digit, 9);
    assert(digit(x, 1) == q1 % 0x100);
    assert(digit(x, 2) == q2 % 0x100);
    assert(digit(x, 3) == q3 % 0x100);
    assert(digit(x, 4) == q4 % 0x100);
    assert(digit(x, 5) == q5 % 0x100);
    assert(digit(x, 6) == q6 % 0x100);
    assert(digit(x, 7) == q7 % 0x100);
    assert(x == (x % 0x100) + q1 * 0x100);
    assert(q1 == (q1 % 0x100) + q2 * 0x100);
    assert(q2 == (q2 % 0x100) + q3 * 0x100);
    assert(q3 == (q3 % 0x100) + q4 * 0x100);
    assert(q4 == (q4 % 0x100) + q5 * 0x100);
    assert(q5 == (q5 % 0x100) + q6 * 0x100);
    assert(q6 == (q6 % 0x100) + q7 * 0x100);
}

/// Decoding undoes the little-endian encoding.
pub proof fn lemma_u64_le_roundtrip(x: u64)
    ensures
        u64_le_bytes(x).len() == 8,
        u64_from_le_bytes(u64_le_bytes(x)) == x,
{
    lemma_digits(x);
}

/// Appends `bytes` to `buf`.
pub fn append_bytes(buf: &mut Vec<u8>, bytes: &[u8])
    ensures
        final(buf)@ == old(buf)@ + bytes@,
{
    let ghost before = buf@;
    buf.extend_from_slice(bytes);
    assert(buf@ =~= before + bytes@);
}

/// Appends a `u64` as eight big-endian bytes.
pub fn push_u64(buf: &mut Vec<u8>, value: u64)
    ensures
        final(buf)@ == old(buf)@ + u64_be_bytes(value),
{
    let ghost before = buf@;
    buf.push(((value / 0x100_0000_0000_0000) % 0x100) as u8);
    buf.push(((value / 0x1_0000_0000_0000) % 0x100) as u8);
    buf.push(((value / 0x100_0000_0000) % 0x100) as u8);
    buf.push(((value / 0x1_0000_0000) % 0x100) as u8);
    buf.push(((value / 0x100_0000) % 0x100) as u8);
    buf.push(((value / 0x1_0000) % 0x100) as u8);
    buf.push(((value / 0x100) % 0x100) as u8);
    buf.push((value % 0x100) as u8);
    assert(buf@ =~= before + u64_be_bytes(value));
}

/// Appends a `u64` as eight little-endian bytes.
pub fn push_u64_le(buf: &mut Vec<u8>, value: u64)
    ensures
        final(buf)@ == old(buf)@ + u64_le_bytes(value),
{
    let ghost before = buf@;
    buf.push((value % 0x100) as u8);
    buf.push(((value / 0x100) % 0x100) as u8);
    buf.push(((value / 0x1_0000) % 0x100) as u8);
    buf.push(((value / 0x100_0000) % 0x100) as u8);
    buf.push(((value / 0x1_0000_0000) % 0x100) as u8);
    buf.push(((value / 0x100_0000_0000) % 0x100) as u8);
    buf.push(((value / 0x1_0000_0000_0000) % 0x100) as u8);
    buf.push(((value / 0x100_0000_0000_0000) % 0x100) as u8);
    assert(buf@ =~= before + u64_le_bytes(value));
}

/// Appends a `u32` as four big-endian bytes.
pub fn push_u32(buf: &mut Vec<u8>, value: u32)
    ensures
        final(buf)@ == old(buf)@ + u32_be_bytes(value),
{
    let ghost before = buf@;
    buf.push(((value / 0x100_0000) % 0x100) as u8);
    buf.push(((value / 0x1_0000) % 0x100) as u8);
    buf.push(((value / 0x100) % 0x100) as u8);
    buf.push((value % 0x100) as u8);
    assert(buf@ =~= before + u32_be_bytes(value));
}

/// Appends a length as the 32-bit big-endian count field.
pub fn push_count(buf: &mut Vec<u8>, len: usize)
    ensures
        final(buf)@ == old(buf)@ + u32_be_bytes(count_u32(len as nat)),
{
    let reduced: u64 = (len as u64) % 0x1_0000_0000;
    push_u32(buf, reduced as u32);
}

/// `a` comes before `b` in byte-lexicographic order: at the first position
/// where they differ, the byte of `a` is the smaller one. Meant for byte
/// strings of equal length.
pub open spec fn lex_lt(a: Seq<u8>, b: Seq<u8>) -> bool {
    exists|k: int| first_difference(a, b, k) && a[k] < b[k]
}

/// `a` and `b` agree before position `k` and differ at `k`.
pub open spec fn first_difference(a: Seq<u8>, b: Seq<u8>, k: int) -> bool {
    &&& 0 <= k < a.len()
    &&& k < b.len()
    &&& a[k] != b[k]
    &&& forall|j: int| 0 <= j < k ==> a[j] == b[j]
}

/// No byte string comes before itself, and of two at most one comes before the other.
pub proof fn lemma_lex_lt_asymmetric(a: Seq<u8>, b: Seq<u8>)
    ensures
        !lex_lt(a, a),
        !(lex_lt(a, b) && lex_lt(b, a)),
{
    if lex_lt(a, b) && lex_lt(b, a) {
        let k1 = choose|k: int| first_difference(a, b, k) && a[k] < b[k];
        let k2 = choose|k: int| first_difference(b, a, k) && b[k] < a[k];
        assert(first_difference(a, b, k2));
    }
}

/// The order is transitive.
pub proof fn lemma_lex_lt_transitive(a: Seq<u8>, b: Seq<u8>, c: Seq<u8>)
    requires
        lex_lt(a, b),
        lex_lt(b, c),
    ensures
        lex_lt(a, c),
{
    let k1 = choose|k: int| first_difference(a, b, k) && a[k] < b[k];
    let k2 = choose|k: int| first_difference(b, c, k) && b[k] < c[k];
    let k = if k1 <= k2 {
        k1
    } else {
        k2
    };
    assert(first_difference(a, c, k) && a[k] < c[k]);
}

/// Where two byte strings of equal length agree on their first `n` bytes
/// and are not equal, they have a first difference at `n` or later.
proof fn lemma_find_difference(a: Seq<u8>, b: Seq<u8>, n: int) -> (k: int)
    requires
        a.len() == b.len(),
        a != b,
        0 <= n <= a.len(),
        forall|j: int| 0 <= j < n ==> a[j] == b[j],
    ensures
        first_difference(a, b, k),
    decreases a.len() - n,
{
    if n == a.len() {
        assert(a =~= b);
        0
    } else if a[n] != b[n] {
        n
    } else {
        lemma_find_difference(a, b, n + 1)
    }
}

/// Of two different byte strings of equal length, one comes before the other.
pub proof fn lemma_lex_lt_total(a: Seq<u8>, b: Seq<u8>)
    requires
        a.len() == b.len(),
    ensures
        a == b || lex_lt(a, b) || lex_lt(b, a),
{
    if a != b {
        let k = lemma_find_difference(a, b, 0);
        if a[k] < b[k] {
            assert(first_difference(a, b, k) && a[k] < b[k]);
        } else {
            assert(first_difference(b, a, k) && b[k] < a[k]);
        }
    }
}

} // verus!
