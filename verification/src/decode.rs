use vstd::prelude::*;

verus! {

/// The number whose base-256 digits are `s`, least significant first.
pub open spec fn le_value(s: Seq<u8>) -> nat
    decreases s.len(),
{
    if s.len() == 0 {
        0
    } else {
        (s[0] + 256 * le_value(s.drop_first())) as nat
    }
}

/// The number whose base-256 digits are `s`, most significant first.
pub open spec fn be_value(s: Seq<u8>) -> nat
    decreases s.len(),
{
    if s.len() == 0 {
        0
    } else {
        (be_value(s.drop_last()) * 256 + s.last()) as nat
    }
}

/// 256 to the power `n`.
pub open spec fn pow256(n: nat) -> nat
    decreases n,
{
    if n == 0 {
        1
    } else {
        256 * pow256((n - 1) as nat)
    }
}

/// The powers of 256 that bound the integer widths.
pub proof fn lemma_pow256_widths()
    ensures
        pow256(1) == 0x100,
        pow256(2) == 0x1_0000,
        pow256(4) == 0x1_0000_0000,
        pow256(8) == 0x1_0000_0000_0000_0000,
{
    reveal_with_fuel(pow256, 9);
}

/// The signed number that `x` stands for in two's complement, where `half` is the
/// smallest value whose sign bit is set.
pub open spec fn twos_complement(x: nat, half: nat) -> int {
    if x < half {
        x as int
    } else {
        x - 2 * half
    }
}

proof fn lemma_pow256_monotonic(a: nat, b: nat)
    requires
        a <= b,
    ensures
        pow256(a) <= pow256(b),
    decreases b,
{
    if a < b {
        lemma_pow256_monotonic(a, (b - 1) as nat);
    }
}

/// Reading digits most significant first gives the number that the reversed digits give
/// least significant first.
pub proof fn lemma_be_is_reversed_le(s: Seq<u8>)
    ensures
        be_value(s) == le_value(s.reverse()),
    decreases s.len(),
{
    if s.len() > 0 {
        lemma_be_is_reversed_le(s.drop_last());
        assert(s.reverse().drop_first() =~= s.drop_last().reverse());
    }
}

/// The number that `n` digits give is below 256 to the power `n`.
pub proof fn lemma_le_value_bound(s: Seq<u8>)
    ensures
        le_value(s) < pow256(s.len()),
    decreases s.len(),
{
    if s.len() > 0 {
        lemma_le_value_bound(s.drop_first());
        assert(pow256(s.len()) == 256 * pow256(s.drop_first().len()));
    }
}

/// Digits of equal count that give the same number, least significant first, are the same.
pub proof fn lemma_le_value_injective(s1: Seq<u8>, s2: Seq<u8>)
    requires
        s1.len() == s2.len(),
        le_value(s1) == le_value(s2),
    ensures
        s1 == s2,
    decreases s1.len(),
{
    if s1.len() > 0 {
        let a = s1[0] as int;
        let b = s2[0] as int;
        let x = le_value(s1.drop_first()) as int;
        let y = le_value(s2.drop_first()) as int;
        assert(a == b && x == y) by (nonlinear_arith)
            requires
                a + 256 * x == b + 256 * y,
                0 <= a < 256,
                0 <= b < 256,
        ;
        lemma_le_value_injective(s1.drop_first(), s2.drop_first());
        assert(s1 =~= seq![s1[0]] + s1.drop_first());
        assert(s2 =~= seq![s2[0]] + s2.drop_first());
    }
}

/// Least significant first, the first digit is the number's lowest base-256 digit.
pub proof fn lemma_le_value_low_digit(s: Seq<u8>)
    requires
        s.len() > 0,
    ensures
        le_value(s) % 256 == s[0],
{
    let a = s[0] as int;
    let x = le_value(s.drop_first()) as int;
    assert((a + 256 * x) % 256 == a) by (nonlinear_arith)
        requires
            0 <= a < 256,
            x >= 0,
    ;
}

/// Most significant first, the last digit is the number's lowest base-256 digit.
pub proof fn lemma_be_value_low_digit(s: Seq<u8>)
    requires
        s.len() > 0,
    ensures
        be_value(s) % 256 == s.last(),
{
    let a = s.last() as int;
    let x = be_value(s.drop_last()) as int;
    assert((x * 256 + a) % 256 == a) by (nonlinear_arith)
        requires
            0 <= a < 256,
            x >= 0,
    ;
}

/// A number and the signed number it stands for in two's complement agree in their lowest
/// base-256 digit, where the sign bit lies above it.
pub proof fn lemma_twos_complement_low_digit(x: nat, half: nat)
    requires
        half % 128 == 0,
    ensures
        twos_complement(x, half) % 256 == x % 256,
{
    let h = half as int;
    let xi = x as int;
    assert((xi - 2 * h) % 256 == xi % 256) by (nonlinear_arith)
        requires
            h % 128 == 0,
    ;
}

/// The number that `n` digits give, most significant first, is below 256 to the power `n`.
pub proof fn lemma_be_value_bound(s: Seq<u8>)
    ensures
        be_value(s) < pow256(s.len()),
{
    lemma_be_is_reversed_le(s);
    lemma_le_value_bound(s.reverse());
}

/// Digits of equal count that give the same number, most significant first, are the same.
pub proof fn lemma_be_value_injective(s1: Seq<u8>, s2: Seq<u8>)
    requires
        s1.len() == s2.len(),
        be_value(s1) == be_value(s2),
    ensures
        s1 == s2,
{
    lemma_be_is_reversed_le(s1);
    lemma_be_is_reversed_le(s2);
    lemma_le_value_injective(s1.reverse(), s2.reverse());
    assert(s1 =~= s1.reverse().reverse());
    assert(s2 =~= s2.reverse().reverse());
}

/// Decodes the first `n` bytes, least significant first.
pub(crate) fn decode_le(bytes: &[u8], n: usize) -> (v: u64)
    requires
        n <= 8,
        n <= bytes@.len(),
    ensures
        v == le_value(bytes@.take(n as int)),
        v < pow256(n as nat),
{
    let mut v: u64 = 0;
    let mut i: usize = n;
    proof {
        lemma_pow256_widths();
    }
    while i > 0
        invariant
            i <= n <= 8,
            n <= bytes@.len(),
            v == le_value(bytes@.subrange(i as int, n as int)),
            v < pow256((n - i) as nat),
            pow256(8) == 0x1_0000_0000_0000_0000,
        decreases i,
    {
        proof {
            lemma_pow256_monotonic((n - i + 1) as nat, 8);
        }
        i = i - 1;
        assert(bytes@.subrange(i as int, n as int).drop_first() =~= bytes@.subrange(
            i + 1,
            n as int,
        ));
        v = bytes[i] as u64 + 256 * v;
    }
    assert(bytes@.subrange(0, n as int) =~= bytes@.take(n as int));
    v
}

/// Decodes the first `n` bytes, most significant first.
pub(crate) fn decode_be(bytes: &[u8], n: usize) -> (v: u64)
    requires
        n <= 8,
        n <= bytes@.len(),
    ensures
        v == be_value(bytes@.take(n as int)),
        v < pow256(n as nat),
{
    let mut v: u64 = 0;
    let mut i: usize = 0;
    proof {
        lemma_pow256_widths();
    }
    while i < n
        invariant
            i <= n <= 8,
            n <= bytes@.len(),
            v == be_value(bytes@.take(i as int)),
            v < pow256(i as nat),
            pow256(8) == 0x1_0000_0000_0000_0000,
        decreases n - i,
    {
        proof {
            lemma_pow256_monotonic((i + 1) as nat, 8);
        }
        assert(bytes@.take(i + 1).drop_last() =~= bytes@.take(i as int));
        v = v * 256 + bytes[i] as u64;
        i = i + 1;
    }
    v
}

} // verus!
