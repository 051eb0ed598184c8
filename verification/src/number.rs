use vstd::prelude::*;
use vstd::arithmetic::power2::*;

verus! {

/// Numbers are single-precision binary floating-point numbers. The library
/// never computes with them: it carries each as its 32-bit pattern (sign bit,
/// eight exponent bits, 23 fraction bits) and decides on that pattern what can
/// be decided exactly: order, sign change, and the conversion from and to
/// indices.

pub const SIGN_BIT: u32 = 0x8000_0000;

pub const HIDDEN_BIT: u32 = 0x80_0000;

/// The first index that not every pattern can hold exactly.
pub const EXACT_LIMIT: usize = 0x100_0000;

/// The pattern of the number one.
pub const ONE: u32 = 0x3f80_0000;

pub open spec fn is_negative(bits: u32) -> bool {
    bits >= SIGN_BIT
}

/// The pattern without its sign.
pub open spec fn magnitude(bits: u32) -> int {
    if bits >= SIGN_BIT {
        bits - SIGN_BIT
    } else {
        bits as int
    }
}

pub open spec fn exponent(bits: u32) -> int {
    magnitude(bits) / (HIDDEN_BIT as int)
}

pub open spec fn fraction(bits: u32) -> int {
    magnitude(bits) % (HIDDEN_BIT as int)
}

pub open spec fn is_nan(bits: u32) -> bool {
    exponent(bits) == 255 && fraction(bits) != 0
}

/// Where a pattern that is no NaN stands on the number line, relative to the
/// others: patterns are ordered as sign and magnitude, and both zeros share
/// a place.
pub open spec fn place(bits: u32) -> int {
    if is_negative(bits) {
        -magnitude(bits)
    } else {
        magnitude(bits)
    }
}

pub open spec fn spec_equal(a: u32, b: u32) -> bool {
    !is_nan(a) && !is_nan(b) && place(a) == place(b)
}

pub open spec fn spec_less(a: u32, b: u32) -> bool {
    !is_nan(a) && !is_nan(b) && place(a) < place(b)
}

pub open spec fn spec_negate(bits: u32) -> u32 {
    if bits >= SIGN_BIT {
        (bits - SIGN_BIT) as u32
    } else {
        (bits + SIGN_BIT) as u32
    }
}

/// The significand of a normal pattern, hidden bit included.
pub open spec fn significand(bits: u32) -> int {
    fraction(bits) + HIDDEN_BIT
}

/// The whole part of the absolute value of a finite pattern.
pub open spec fn whole_part(bits: u32) -> nat {
    let e = exponent(bits);
    if e < 127 {
        0
    } else if e <= 150 {
        (significand(bits) / (pow2((150 - e) as nat) as int)) as nat
    } else {
        (significand(bits) * pow2((e - 150) as nat)) as nat
    }
}

/// True when the pattern is finite and has no fractional part.
pub open spec fn is_integral(bits: u32) -> bool {
    let e = exponent(bits);
    if magnitude(bits) == 0 {
        true
    } else if e < 127 {
        false
    } else if e <= 150 {
        significand(bits) % (pow2((150 - e) as nat) as int) == 0
    } else {
        e < 255
    }
}

/// The index that a number stands for: its whole part, with zero for NaN and
/// for negative numbers and the largest index for what is too large.
pub open spec fn spec_to_index(bits: u32) -> usize {
    if is_nan(bits) || is_negative(bits) {
        0
    } else if exponent(bits) == 255 || whole_part(bits) > usize::MAX {
        usize::MAX
    } else {
        whole_part(bits) as usize
    }
}

/// The pattern that holds the index `n` exactly.
pub open spec fn holds_index(bits: u32, n: usize) -> bool {
    &&& !is_negative(bits)
    &&& is_integral(bits)
    &&& spec_to_index(bits) == n
}

fn magnitude_of(bits: u32) -> (m: u32)
    ensures
        m == magnitude(bits),
{
    if bits >= SIGN_BIT {
        bits - SIGN_BIT
    } else {
        bits
    }
}

pub fn nan(bits: u32) -> (r: bool)
    ensures
        r == is_nan(bits),
{
    let m = magnitude_of(bits);
    m / HIDDEN_BIT == 255 && m % HIDDEN_BIT != 0
}

/// Equality of two numbers: false when either is NaN, and the two zeros are equal.
pub fn equal(a: u32, b: u32) -> (r: bool)
    ensures
        r == spec_equal(a, b),
{
    if nan(a) || nan(b) {
        return false;
    }
    let ma = magnitude_of(a);
    let mb = magnitude_of(b);
    if ma == 0 && mb == 0 {
        return true;
    }
    a == b
}

/// Strict order of two numbers: false when either is NaN.
pub fn less(a: u32, b: u32) -> (r: bool)
    ensures
        r == spec_less(a, b),
{
    if nan(a) || nan(b) {
        return false;
    }
    let ma = magnitude_of(a);
    let mb = magnitude_of(b);
    let na = a >= SIGN_BIT;
    let nb = b >= SIGN_BIT;
    if na && nb {
        mb < ma
    } else if na {
        ma != 0 || mb != 0
    } else if nb {
        false
    } else {
        ma < mb
    }
}

pub fn less_or_equal(a: u32, b: u32) -> (r: bool)
    ensures
        r == (spec_less(a, b) || spec_equal(a, b)),
{
    less(a, b) || equal(a, b)
}

/// The number with the opposite sign.
pub fn negate(bits: u32) -> (r: u32)
    ensures
        r == spec_negate(bits),
{
    if bits >= SIGN_BIT {
        bits - SIGN_BIT
    } else {
        bits + SIGN_BIT
    }
}

/// True when a number is finite and whole.
pub fn integral(bits: u32) -> (r: bool)
    ensures
        r == is_integral(bits),
{
    let m = magnitude_of(bits);
    let e = m / HIDDEN_BIT;
    if m == 0 {
        true
    } else if e < 127 {
        false
    } else if e <= 150 {
        let s = m % HIDDEN_BIT + HIDDEN_BIT;
        let d = power_of_two(150 - e);
        s % d == 0
    } else {
        e < 255
    }
}

/// Two to the power `e`, for the shifts that a significand can take.
fn power_of_two(e: u32) -> (p: u32)
    requires
        e <= 23,
    ensures
        p == pow2(e as nat),
        0 < p <= HIDDEN_BIT,
{
    let mut p: u32 = 1;
    let mut i: u32 = 0;
    proof {
        lemma2_to64();
    }
    while i < e
        invariant
            i <= e <= 23,
            p == pow2(i as nat),
            0 < p,
            p <= pow2(23),
            pow2(23) == 0x80_0000,
        decreases e - i,
    {
        proof {
            lemma_pow2_unfold((i + 1) as nat);
            if i + 1 < 23 {
                lemma_pow2_strictly_increases((i + 1) as nat, 23);
            }
        }
        p = p * 2;
        i = i + 1;
    }
    p
}

/// The index that a number stands for.
pub fn to_index(bits: u32) -> (n: usize)
    ensures
        n == spec_to_index(bits),
{
    if nan(bits) || bits >= SIGN_BIT {
        return 0;
    }
    let e = bits / HIDDEN_BIT;
    if e == 255 {
        return usize::MAX;
    }
    if e < 127 {
        return 0;
    }
    let s = bits % HIDDEN_BIT + HIDDEN_BIT;
    if e <= 150 {
        let d = power_of_two(150 - e);
        return (s / d) as usize;
    }
    let mut value: u128 = s as u128;
    let mut i: u32 = 150;
    let limit: u128 = usize::MAX as u128;
    proof {
        lemma2_to64();
        assert(s * pow2(0) == s) by (nonlinear_arith)
            requires
                pow2(0) == 1,
        ;
    }
    while i < e
        invariant
            150 <= i <= e < 255,
            value == s * pow2((i - 150) as nat),
            value <= limit,
            limit == usize::MAX,
            0x80_0000 <= s < 0x100_0000,
            magnitude(bits) == bits,
            exponent(bits) == e,
            significand(bits) == s,
        decreases e - i,
    {
        proof {
            let d = pow2((i - 150) as nat);
            lemma_pow2_unfold((i + 1 - 150) as nat);
            assert(s * (2 * d) == 2 * (s * d)) by (nonlinear_arith);
            assert(2 * value == s * pow2((i + 1 - 150) as nat));
        }
        if value > limit / 2 {
            proof {
                lemma_whole_part_grows(s as int, (i + 1 - 150) as nat, (e - 150) as nat);
                assert(magnitude(bits) == bits);
                assert(exponent(bits) == e);
                assert(significand(bits) == s);
                assert(whole_part(bits) == s * pow2((e - 150) as nat));
            }
            return usize::MAX;
        }
        value = value * 2;
        i = i + 1;
    }
    value as usize
}

proof fn lemma_whole_part_grows(s: int, a: nat, b: nat)
    requires
        0 < s,
        a <= b,
    ensures
        s * pow2(a) <= s * pow2(b),
{
    if a < b {
        lemma_pow2_strictly_increases(a, b);
    }
    assert(s * pow2(a) <= s * pow2(b)) by (nonlinear_arith)
        requires
            0 < s,
            pow2(a) <= pow2(b),
    ;
}

/// The pattern of the significand `s` at the exponent `e`, brought to normal
/// form: the significand is doubled until its hidden bit is set.
pub open spec fn normal_pattern(s: nat, e: nat) -> u32
    decreases e,
{
    if s >= HIDDEN_BIT || e <= 127 {
        (e * HIDDEN_BIT + (s - HIDDEN_BIT)) as u32
    } else {
        normal_pattern(2 * s, (e - 1) as nat)
    }
}

/// The pattern under which an index is written.
pub open spec fn index_pattern(n: nat) -> u32 {
    if n == 0 {
        0
    } else {
        normal_pattern(n, 150)
    }
}

/// The number that holds an index exactly, for the indices that have one.
pub fn from_index(n: usize) -> (r: Option<u32>)
    ensures
        r is Some <==> n < EXACT_LIMIT,
        r matches Some(bits) ==> bits == index_pattern(n as nat) && holds_index(bits, n),
{
    if n >= EXACT_LIMIT {
        return None;
    }
    if n == 0 {
        return Some(0);
    }
    let mut s: u32 = n as u32;
    let mut e: u32 = 150;
    proof {
        lemma2_to64();
        assert(n * pow2(0) == n) by (nonlinear_arith)
            requires
                pow2(0) == 1,
        ;
    }
    while s < HIDDEN_BIT
        invariant
            0 < n < EXACT_LIMIT,
            0 < s < 0x100_0000,
            127 <= e <= 150,
            s == n * pow2((150 - e) as nat),
            s >= pow2((150 - e) as nat),
            index_pattern(n as nat) == normal_pattern(s as nat, e as nat),
        decreases e,
    {
        proof {
            let d = pow2((150 - e) as nat);
            lemma2_to64();
            assert(e > 127);
            lemma_pow2_unfold((150 - e + 1) as nat);
            assert(pow2((150 - (e - 1)) as nat) == 2 * d);
            assert(n * (2 * d) == 2 * (n * d)) by (nonlinear_arith);
            assert(n * d >= d) by (nonlinear_arith)
                requires
                    n >= 1,
                    d >= 0,
            ;
        }
        s = s * 2;
        e = e - 1;
    }
    let bits: u32 = e * HIDDEN_BIT + (s - HIDDEN_BIT);
    proof {
        let d = pow2((150 - e) as nat) as int;
        lemma_pow2_pos((150 - e) as nat);
        assert(magnitude(bits) == bits);
        assert(exponent(bits) == e);
        assert(fraction(bits) == s - HIDDEN_BIT);
        assert(significand(bits) == s);
        assert(s == n * d);
        assert((n * d) / d == n && (n * d) % d == 0) by (nonlinear_arith)
            requires
                d > 0,
        ;
    }
    Some(bits)
}

/// The four bytes of a pattern, least significant first.
pub open spec fn spec_le_bytes(bits: u32) -> Seq<u8> {
    seq![
        (bits % 256) as u8,
        ((bits / 0x100) % 256) as u8,
        ((bits / 0x1_0000) % 256) as u8,
        ((bits / 0x100_0000) % 256) as u8,
    ]
}

/// The pattern whose bytes, least significant first, begin `bytes`.
pub open spec fn spec_from_le_bytes(bytes: Seq<u8>) -> u32
    recommends
        bytes.len() >= 4,
{
    (bytes[0] as int + bytes[1] as int * 0x100 + bytes[2] as int * 0x1_0000 + bytes[3] as int
        * 0x100_0000) as u32
}

pub fn to_le_bytes(bits: u32) -> (bytes: [u8; 4])
    ensures
        bytes@ == spec_le_bytes(bits),
{
    let bytes = [
        (bits % 256) as u8,
        ((bits / 0x100) % 256) as u8,
        ((bits / 0x1_0000) % 256) as u8,
        ((bits / 0x100_0000) % 256) as u8,
    ];
    assert(bytes@ =~= spec_le_bytes(bits));
    bytes
}

pub fn from_le_bytes(bytes: [u8; 4]) -> (bits: u32)
    ensures
        bits == spec_from_le_bytes(bytes@),
{
    bytes[0] as u32 + bytes[1] as u32 * 0x100 + bytes[2] as u32 * 0x1_0000 + bytes[3] as u32
        * 0x100_0000
}

/// Writing a pattern as bytes and reading the bytes back gives the pattern,
/// bit for bit.
pub proof fn lemma_le_bytes_round_trip(bits: u32)
    ensures
        spec_from_le_bytes(spec_le_bytes(bits)) == bits,
        spec_le_bytes(bits).len() == 4,
{
    let q1 = bits / 0x100;
    let q2 = q1 / 0x100;
    let q3 = q2 / 0x100;
    assert(bits / 0x1_0000 == q2);
    assert(bits / 0x100_0000 == q3);
    assert(q3 < 256);
}

/// Reading four bytes as a pattern and writing it back gives the four bytes.
pub proof fn lemma_from_le_bytes_round_trip(bytes: Seq<u8>)
    requires
        bytes.len() == 4,
    ensures
        spec_le_bytes(spec_from_le_bytes(bytes)) == bytes,
{
    let b0 = bytes[0] as int;
    let b1 = bytes[1] as int;
    let b2 = bytes[2] as int;
    let b3 = bytes[3] as int;
    let v = b0 + b1 * 0x100 + b2 * 0x1_0000 + b3 * 0x100_0000;
    assert(spec_from_le_bytes(bytes) == v);
    let q1 = b1 + b2 * 0x100 + b3 * 0x1_0000;
    let q2 = b2 + b3 * 0x100;
    assert(v == q1 * 0x100 + b0);
    assert(v / 0x100 == q1 && v % 0x100 == b0);
    assert(q1 == q2 * 0x100 + b1);
    assert(q1 / 0x100 == q2 && q1 % 0x100 == b1);
    assert(v / 0x1_0000 == q2);
    assert(q2 / 0x100 == b3 && q2 % 0x100 == b2);
    assert(v / 0x100_0000 == b3);
    assert(spec_le_bytes(spec_from_le_bytes(bytes)) =~= bytes);
}

/// The pattern under which an index is written holds the index exactly.
pub proof fn lemma_index_pattern(n: usize)
    requires
        n < EXACT_LIMIT,
    ensures
        holds_index(index_pattern(n as nat), n),
        spec_to_index(spec_from_le_bytes(spec_le_bytes(index_pattern(n as nat)))) == n,
{
    lemma2_to64();
    assert(n * pow2(0) == n) by (nonlinear_arith)
        requires
            pow2(0) == 1,
    ;
    lemma_index_pattern_holds(n as nat, n as nat, 150);
    lemma_le_bytes_round_trip(index_pattern(n as nat));
}

proof fn lemma_index_pattern_holds(n: nat, s: nat, e: nat)
    requires
        n < EXACT_LIMIT,
        127 <= e <= 150,
        s == n * pow2((150 - e) as nat),
        s < 0x100_0000,
        n > 0 ==> s >= pow2((150 - e) as nat),
    ensures
        n > 0 ==> holds_index(normal_pattern(s, e), n as usize),
        n == 0 ==> holds_index(0, 0),
    decreases e,
{
    lemma2_to64();
    if n > 0 {
        let d = pow2((150 - e) as nat);
        lemma_pow2_pos((150 - e) as nat);
        if s >= HIDDEN_BIT || e <= 127 {
            if e == 127 {
                assert(pow2(23) == 0x80_0000);
            }
            let bits = (e * HIDDEN_BIT + (s - HIDDEN_BIT)) as u32;
            assert(magnitude(bits) == bits);
            assert(exponent(bits) == e);
            assert(fraction(bits) == s - HIDDEN_BIT);
            assert(significand(bits) == s);
            let ni = n as int;
            let di = d as int;
            assert((ni * di) / di == ni && (ni * di) % di == 0) by (nonlinear_arith)
                requires
                    di > 0,
            ;
        } else {
            lemma_pow2_unfold((150 - e + 1) as nat);
            assert(pow2((150 - (e - 1)) as nat) == 2 * d);
            assert(n * (2 * d) == 2 * (n * d)) by (nonlinear_arith);
            assert(n * d >= d) by (nonlinear_arith)
                requires
                    n >= 1,
                    d >= 0,
            ;
            lemma_index_pattern_holds(n, 2 * s, (e - 1) as nat);
        }
    } else {
        assert(magnitude(0) == 0);
    }
}

/// An index that a pattern holds exactly is read back from its bytes.
pub proof fn lemma_index_round_trip(bits: u32, n: usize)
    requires
        holds_index(bits, n),
    ensures
        spec_to_index(spec_from_le_bytes(spec_le_bytes(bits))) == n,
{
    lemma_le_bytes_round_trip(bits);
}

} // verus!
