//! The range of `f64`: which float literals are too large to hold.
use vstd::prelude::*;
use crate::ast::Text;
use crate::lexical::{digits_value, is_digit};

verus! {

pub open spec fn pow10(n: nat) -> int
    decreases n,
{
    if n == 0 {
        1
    } else {
        10 * pow10((n - 1) as nat)
    }
}

pub open spec fn pow2(n: nat) -> int
    decreases n,
{
    if n == 0 {
        1
    } else {
        2 * pow2((n - 1) as nat)
    }
}

/// 2^1024 - 2^970: the least magnitude that rounds to infinity as an `f64`.
pub open spec fn f64_overflow_bound() -> int {
    pow2(1024) - pow2(970)
}

/// The decimal digits of `f64_overflow_bound()`, most significant first.
pub open spec fn bound_digits() -> Seq<u8> {
    seq![1u8, 7u8, 9u8, 7u8, 6u8, 9u8, 3u8, 1u8, 3u8, 4u8, 8u8, 6u8, 2u8, 3u8, 1u8, 5u8, 8u8, 0u8, 7u8, 9u8, 3u8, 7u8, 2u8, 8u8, 9u8, 7u8, 1u8, 4u8, 0u8, 5u8, 3u8, 0u8, 3u8, 4u8, 1u8, 5u8, 0u8, 7u8, 9u8, 9u8, 3u8, 4u8, 1u8, 3u8, 2u8, 7u8, 1u8, 0u8, 0u8, 3u8, 7u8, 8u8, 2u8, 6u8, 9u8, 3u8, 6u8, 1u8, 7u8, 3u8, 7u8, 7u8, 8u8, 9u8, 8u8, 0u8, 4u8, 4u8, 4u8, 9u8, 6u8, 8u8, 2u8, 9u8, 2u8, 7u8, 6u8, 4u8, 7u8, 5u8, 0u8, 9u8, 4u8, 6u8, 6u8, 4u8, 9u8, 0u8, 1u8, 7u8, 9u8, 7u8, 7u8, 5u8, 8u8, 7u8, 2u8, 0u8, 7u8, 0u8, 9u8, 6u8, 3u8, 3u8, 0u8, 2u8, 8u8, 6u8, 4u8, 1u8, 6u8, 6u8, 9u8, 2u8, 8u8, 8u8, 7u8, 9u8, 1u8, 0u8, 9u8, 4u8, 6u8, 5u8, 5u8, 5u8, 5u8, 4u8, 7u8, 8u8, 5u8, 1u8, 9u8, 4u8, 0u8, 4u8, 0u8, 2u8, 6u8, 3u8, 0u8, 6u8, 5u8, 7u8, 4u8, 8u8, 8u8, 6u8, 7u8, 1u8, 5u8, 0u8, 5u8, 8u8, 2u8, 0u8, 6u8, 8u8, 1u8, 9u8, 0u8, 8u8, 9u8, 0u8, 2u8, 0u8, 0u8, 0u8, 7u8, 0u8, 8u8, 3u8, 8u8, 3u8, 6u8, 7u8, 6u8, 2u8, 7u8, 3u8, 8u8, 5u8, 4u8, 8u8, 4u8, 5u8, 8u8, 1u8, 7u8, 7u8, 1u8, 1u8, 5u8, 3u8, 1u8, 7u8, 6u8, 4u8, 4u8, 7u8, 5u8, 7u8, 3u8, 0u8, 2u8, 7u8, 0u8, 0u8, 6u8, 9u8, 8u8, 5u8, 5u8, 5u8, 7u8, 1u8, 3u8, 6u8, 6u8, 9u8, 5u8, 9u8, 6u8, 2u8, 2u8, 8u8, 4u8, 2u8, 9u8, 1u8, 4u8, 8u8, 1u8, 9u8, 8u8, 6u8, 0u8, 8u8, 3u8, 4u8, 9u8, 3u8, 6u8, 4u8, 7u8, 5u8, 2u8, 9u8, 2u8, 7u8, 1u8, 9u8, 0u8, 7u8, 4u8, 1u8, 6u8, 8u8, 4u8, 4u8, 4u8, 3u8, 6u8, 5u8, 5u8, 1u8, 0u8, 7u8, 0u8, 4u8, 3u8, 4u8, 2u8, 7u8, 1u8, 1u8, 5u8, 5u8, 9u8, 6u8, 9u8, 9u8, 5u8, 0u8, 8u8, 0u8, 9u8, 3u8, 0u8, 4u8, 2u8, 8u8, 8u8, 0u8, 1u8, 7u8, 7u8, 9u8, 0u8, 4u8, 1u8, 7u8, 4u8, 4u8, 9u8, 7u8, 7u8, 9u8, 2u8]
}

/// The number that the first `n` digits of the bound spell.
pub open spec fn bound_prefix(n: nat) -> int
    decreases n,
{
    if n == 0 {
        0
    } else {
        bound_prefix((n - 1) as nat) * 10 + bound_digits()[n - 1] as int
    }
}

/// The decimal value of a sequence of digits.
pub open spec fn seq_value(x: Seq<char>) -> int
    decreases x.len(),
{
    if x.len() == 0 {
        0
    } else {
        seq_value(x.drop_last()) * 10 + (x.last() as int - '0' as int)
    }
}

/// The integer part of the number `0.ds × 10^k`: its first `k` digits, with
/// zeros past the end of `ds`; empty when `k` is not positive.
pub open spec fn integer_part(ds: Seq<char>, k: int) -> Seq<char> {
    Seq::new(
        if k > 0 {
            k as nat
        } else {
            0
        },
        |j: int|
            if j < ds.len() {
                ds[j]
            } else {
                '0'
            },
    )
}

/// A float with significant digits `ds` and `k` digits before the point is
/// too large for an `f64`. Since the bound is an integer, comparing the
/// integer part with it is comparing the magnitude.
pub open spec fn float_too_large(ds: Seq<char>, k: int) -> bool {
    seq_value(integer_part(ds, k)) >= f64_overflow_bound()
}

pub open spec fn all_digits(x: Seq<char>) -> bool {
    forall|j: int| 0 <= j < x.len() ==> is_digit(#[trigger] x[j])
}

/// The number that digits `a .. a + k` of the bound spell.
pub open spec fn bound_span(a: nat, k: nat) -> int
    decreases k,
{
    if k == 0 {
        0
    } else {
        bound_span(a, (k - 1) as nat) * 10 + bound_digits()[a + k - 1] as int
    }
}

proof fn lemma_span_split(a: nat, k: nat)
    ensures
        bound_prefix(a + k) == bound_prefix(a) * pow10(k) + bound_span(a, k),
    decreases k,
{
    if k > 0 {
        lemma_span_split(a, (k - 1) as nat);
        let x = bound_prefix(a);
        let y = pow10((k - 1) as nat);
        assert((x * y) * 10 == x * (10 * y)) by (nonlinear_arith);
        assert(bound_prefix(a + k) == bound_prefix((a + k - 1) as nat) * 10 + bound_digits()[a + k
            - 1] as int);
    }
}

#[verifier::rlimit(100)]
proof fn lemma_bound_chunk_0()
    ensures
        bound_prefix(30) == bound_prefix(0) * pow10(30) + 179769313486231580793728971405,
{
    lemma_span_split(0, 30);
    reveal_with_fuel(bound_span, 31);
    reveal_with_fuel(pow10, 31);
}

#[verifier::rlimit(100)]
proof fn lemma_bound_chunk_1()
    ensures
        bound_prefix(60) == bound_prefix(30) * pow10(30) + 303415079934132710037826936173,
{
    lemma_span_split(30, 30);
    reveal_with_fuel(bound_span, 31);
    reveal_with_fuel(pow10, 31);
}

#[verifier::rlimit(100)]
proof fn lemma_bound_chunk_2()
    ensures
        bound_prefix(90) == bound_prefix(60) * pow10(30) + 778980444968292764750946649017,
{
    lemma_span_split(60, 30);
    reveal_with_fuel(bound_span, 31);
    reveal_with_fuel(pow10, 31);
}

#[verifier::rlimit(100)]
proof fn lemma_bound_chunk_3()
    ensures
        bound_prefix(120) == bound_prefix(90) * pow10(30) + 977587207096330286416692887910,
{
    lemma_span_split(90, 30);
    reveal_with_fuel(bound_span, 31);
    reveal_with_fuel(pow10, 31);
}

#[verifier::rlimit(100)]
proof fn lemma_bound_chunk_4()
    ensures
        bound_prefix(150) == bound_prefix(120) * pow10(30) + 946555547851940402630657488671,
{
    lemma_span_split(120, 30);
    reveal_with_fuel(bound_span, 31);
    reveal_with_fuel(pow10, 31);
}

#[verifier::rlimit(100)]
proof fn lemma_bound_chunk_5()
    ensures
        bound_prefix(180) == bound_prefix(150) * pow10(30) + 505820681908902000708383676273,
{
    lemma_span_split(150, 30);
    reveal_with_fuel(bound_span, 31);
    reveal_with_fuel(pow10, 31);
}

#[verifier::rlimit(100)]
proof fn lemma_bound_chunk_6()
    ensures
        bound_prefix(210) == bound_prefix(180) * pow10(30) + 854845817711531764475730270069,
{
    lemma_span_split(180, 30);
    reveal_with_fuel(bound_span, 31);
    reveal_with_fuel(pow10, 31);
}

#[verifier::rlimit(100)]
proof fn lemma_bound_chunk_7()
    ensures
        bound_prefix(240) == bound_prefix(210) * pow10(30) + 855571366959622842914819860834,
{
    lemma_span_split(210, 30);
    reveal_with_fuel(bound_span, 31);
    reveal_with_fuel(pow10, 31);
}

#[verifier::rlimit(100)]
proof fn lemma_bound_chunk_8()
    ensures
        bound_prefix(270) == bound_prefix(240) * pow10(30) + 936475292719074168444365510704,
{
    lemma_span_split(240, 30);
    reveal_with_fuel(bound_span, 31);
    reveal_with_fuel(pow10, 31);
}

#[verifier::rlimit(100)]
proof fn lemma_bound_chunk_9()
    ensures
        bound_prefix(300) == bound_prefix(270) * pow10(30) + 342711559699508093042880177904,
{
    lemma_span_split(270, 30);
    reveal_with_fuel(bound_span, 31);
    reveal_with_fuel(pow10, 31);
}

#[verifier::rlimit(100)]
proof fn lemma_bound_chunk_10()
    ensures
        bound_prefix(309) == bound_prefix(300) * pow10(9) + 174497792,
{
    lemma_span_split(300, 9);
    reveal_with_fuel(bound_span, 10);
    reveal_with_fuel(pow10, 10);
}

proof fn lemma_pow2_add(a: nat, b: nat)
    ensures
        pow2(a + b) == pow2(a) * pow2(b),
    decreases b,
{
    if b > 0 {
        lemma_pow2_add(a, (b - 1) as nat);
        let x = pow2(a);
        let y = pow2((b - 1) as nat);
        assert(2 * (x * y) == x * (2 * y)) by (nonlinear_arith);
    }
}

proof fn lemma_pow10_add(a: nat, b: nat)
    ensures
        pow10(a + b) == pow10(a) * pow10(b),
    decreases b,
{
    if b > 0 {
        lemma_pow10_add(a, (b - 1) as nat);
        let x = pow10(a);
        let y = pow10((b - 1) as nat);
        assert(10 * (x * y) == x * (10 * y)) by (nonlinear_arith);
    }
}

proof fn lemma_pow2_64()
    ensures
        pow2(64) == 0x1_0000_0000_0000_0000,
{
    reveal_with_fuel(pow2, 65);
}

proof fn lemma_pow10_30()
    ensures
        pow10(30) == 1_000_000_000_000_000_000_000_000_000_000,
{
    reveal_with_fuel(pow10, 31);
}

proof fn lemma_bound_value()
    ensures
        bound_prefix(309) == f64_overflow_bound(),
{
    lemma_bound_chunk_0();
    lemma_bound_chunk_1();
    lemma_bound_chunk_2();
    lemma_bound_chunk_3();
    lemma_bound_chunk_4();
    lemma_bound_chunk_5();
    lemma_bound_chunk_6();
    lemma_bound_chunk_7();
    lemma_bound_chunk_8();
    lemma_bound_chunk_9();
    lemma_bound_chunk_10();
    reveal_with_fuel(pow10, 10);
    assert(pow10(9) == 1_000_000_000);
    lemma_pow10_30();
    lemma_pow2_64();
    lemma_pow2_add(64, 64);
    lemma_pow2_add(128, 64);
    lemma_pow2_add(192, 64);
    lemma_pow2_add(256, 64);
    lemma_pow2_add(320, 64);
    lemma_pow2_add(384, 64);
    lemma_pow2_add(448, 64);
    lemma_pow2_add(512, 64);
    lemma_pow2_add(576, 64);
    lemma_pow2_add(640, 64);
    lemma_pow2_add(704, 64);
    lemma_pow2_add(768, 64);
    lemma_pow2_add(832, 64);
    lemma_pow2_add(896, 64);
    lemma_pow2_add(960, 64);
    lemma_pow2_add(960, 10);
    reveal_with_fuel(pow2, 11);
    assert(pow2(10) == 1024);
}

proof fn lemma_scale(b: int, c: int, m: int, lo: int, hi: int)
    requires
        lo <= b < hi,
        0 <= c < m,
    ensures
        lo * m <= b * m + c < hi * m,
{
    assert(lo * m <= b * m) by (nonlinear_arith)
        requires
            lo <= b,
            m >= 0,
    ;
    assert((b + 1) * m == b * m + m) by (nonlinear_arith);
    assert((b + 1) * m <= hi * m) by (nonlinear_arith)
        requires
            b + 1 <= hi,
            m >= 0,
    ;
}

#[verifier::rlimit(100)]
proof fn lemma_bound_facts()
    ensures
        bound_prefix(309) == f64_overflow_bound(),
        pow10(308) <= f64_overflow_bound() < pow10(309),
        bound_digits().len() == 309,
{
    lemma_bound_value();
    reveal_with_fuel(pow10, 31);
    assert(pow10(9) == 1_000_000_000);
    assert(pow10(29) == 100_000_000_000_000_000_000_000_000_000);
    lemma_pow10_30();
    lemma_bound_chunk_0();
    assert(bound_prefix(0) == 0);
    assert(pow10(29) <= bound_prefix(30) < pow10(30));
    lemma_bound_chunk_1();
    lemma_pow10_add(29, 30);
    lemma_pow10_add(30, 30);
    lemma_scale(bound_prefix(30), 303415079934132710037826936173, pow10(30), pow10(29), pow10(30));
    lemma_bound_chunk_2();
    lemma_pow10_add(59, 30);
    lemma_pow10_add(60, 30);
    lemma_scale(bound_prefix(60), 778980444968292764750946649017, pow10(30), pow10(59), pow10(60));
    lemma_bound_chunk_3();
    lemma_pow10_add(89, 30);
    lemma_pow10_add(90, 30);
    lemma_scale(bound_prefix(90), 977587207096330286416692887910, pow10(30), pow10(89), pow10(90));
    lemma_bound_chunk_4();
    lemma_pow10_add(119, 30);
    lemma_pow10_add(120, 30);
    lemma_scale(bound_prefix(120), 946555547851940402630657488671, pow10(30), pow10(119), pow10(120));
    lemma_bound_chunk_5();
    lemma_pow10_add(149, 30);
    lemma_pow10_add(150, 30);
    lemma_scale(bound_prefix(150), 505820681908902000708383676273, pow10(30), pow10(149), pow10(150));
    lemma_bound_chunk_6();
    lemma_pow10_add(179, 30);
    lemma_pow10_add(180, 30);
    lemma_scale(bound_prefix(180), 854845817711531764475730270069, pow10(30), pow10(179), pow10(180));
    lemma_bound_chunk_7();
    lemma_pow10_add(209, 30);
    lemma_pow10_add(210, 30);
    lemma_scale(bound_prefix(210), 855571366959622842914819860834, pow10(30), pow10(209), pow10(210));
    lemma_bound_chunk_8();
    lemma_pow10_add(239, 30);
    lemma_pow10_add(240, 30);
    lemma_scale(bound_prefix(240), 936475292719074168444365510704, pow10(30), pow10(239), pow10(240));
    lemma_bound_chunk_9();
    lemma_pow10_add(269, 30);
    lemma_pow10_add(270, 30);
    lemma_scale(bound_prefix(270), 342711559699508093042880177904, pow10(30), pow10(269), pow10(270));
    lemma_bound_chunk_10();
    lemma_pow10_add(299, 9);
    lemma_pow10_add(300, 9);
    lemma_scale(bound_prefix(300), 174497792, pow10(9), pow10(299), pow10(300));
}

proof fn lemma_pow10_pos(n: nat)
    ensures
        1 <= pow10(n),
    decreases n,
{
    if n > 0 {
        lemma_pow10_pos((n - 1) as nat);
    }
}

proof fn lemma_pow10_mono(a: nat, b: nat)
    requires
        a <= b,
    ensures
        1 <= pow10(a) <= pow10(b),
    decreases b,
{
    lemma_pow10_pos(a);
    if a < b {
        lemma_pow10_mono(a, (b - 1) as nat);
    }
}

proof fn lemma_take_step(x: Seq<char>, j: int)
    requires
        0 <= j < x.len(),
    ensures
        seq_value(x.take(j + 1)) == seq_value(x.take(j)) * 10 + (x[j] as int - '0' as int),
{
    assert(x.take(j + 1).drop_last() =~= x.take(j));
}

proof fn lemma_grows(x: Seq<char>, j: int)
    requires
        0 <= j <= x.len(),
        all_digits(x),
    ensures
        0 <= seq_value(x.take(j)) <= seq_value(x),
    decreases x.len() - j,
{
    if j < x.len() {
        lemma_grows(x, j + 1);
        lemma_take_step(x, j);
        assert(is_digit(x[j]));
    } else {
        assert(x.take(j) =~= x);
        lemma_nonneg(x);
    }
}

proof fn lemma_nonneg(x: Seq<char>)
    requires
        all_digits(x),
    ensures
        seq_value(x) >= 0,
    decreases x.len(),
{
    if x.len() > 0 {
        assert(is_digit(x[x.len() - 1]));
        lemma_nonneg(x.drop_last());
    }
}

proof fn lemma_zero_tail(x: Seq<char>, j: int)
    requires
        0 <= j <= x.len(),
        seq_value(x.take(j)) == 0,
        forall|k: int| j <= k < x.len() ==> #[trigger] x[k] == '0',
    ensures
        seq_value(x) == 0,
    decreases x.len() - j,
{
    if j < x.len() {
        lemma_take_step(x, j);
        lemma_zero_tail(x, j + 1);
    } else {
        assert(x.take(j) =~= x);
    }
}

fn bound_digit(k: usize) -> (d: u8)
    requires
        k < 309,
    ensures
        d == bound_digits()[k as int],
{
    let a: [u8; 309] = [1, 7, 9, 7, 6, 9, 3, 1, 3, 4, 8, 6, 2, 3, 1, 5, 8, 0, 7, 9, 3, 7, 2, 8, 9, 7, 1, 4, 0, 5, 3, 0, 3, 4, 1, 5, 0, 7, 9, 9, 3, 4, 1, 3, 2, 7, 1, 0, 0, 3, 7, 8, 2, 6, 9, 3, 6, 1, 7, 3, 7, 7, 8, 9, 8, 0, 4, 4, 4, 9, 6, 8, 2, 9, 2, 7, 6, 4, 7, 5, 0, 9, 4, 6, 6, 4, 9, 0, 1, 7, 9, 7, 7, 5, 8, 7, 2, 0, 7, 0, 9, 6, 3, 3, 0, 2, 8, 6, 4, 1, 6, 6, 9, 2, 8, 8, 7, 9, 1, 0, 9, 4, 6, 5, 5, 5, 5, 4, 7, 8, 5, 1, 9, 4, 0, 4, 0, 2, 6, 3, 0, 6, 5, 7, 4, 8, 8, 6, 7, 1, 5, 0, 5, 8, 2, 0, 6, 8, 1, 9, 0, 8, 9, 0, 2, 0, 0, 0, 7, 0, 8, 3, 8, 3, 6, 7, 6, 2, 7, 3, 8, 5, 4, 8, 4, 5, 8, 1, 7, 7, 1, 1, 5, 3, 1, 7, 6, 4, 4, 7, 5, 7, 3, 0, 2, 7, 0, 0, 6, 9, 8, 5, 5, 5, 7, 1, 3, 6, 6, 9, 5, 9, 6, 2, 2, 8, 4, 2, 9, 1, 4, 8, 1, 9, 8, 6, 0, 8, 3, 4, 9, 3, 6, 4, 7, 5, 2, 9, 2, 7, 1, 9, 0, 7, 4, 1, 6, 8, 4, 4, 4, 3, 6, 5, 5, 1, 0, 7, 0, 4, 3, 4, 2, 7, 1, 1, 5, 5, 9, 6, 9, 9, 5, 0, 8, 0, 9, 3, 0, 4, 2, 8, 8, 0, 1, 7, 7, 9, 0, 4, 1, 7, 4, 4, 9, 7, 7, 9, 2];
    assert(a@ =~= bound_digits());
    a[k]
}

/// Whether the float with integer digits `s[q..ie]`, fraction digits
/// `s[fs..fe]` and exponent digits `s[xs..xe]` (negative when `xneg`) is too
/// large for an `f64`.
#[verifier::rlimit(100)]
pub fn float_too_large_at(
    s: &Vec<char>,
    q: usize,
    ie: usize,
    fs: usize,
    fe: usize,
    xs: usize,
    xe: usize,
    xneg: bool,
) -> (r: bool)
    requires
        q <= ie <= fs <= fe <= s.len(),
        xs <= xe <= s.len(),
        forall|k: int| q <= k < ie ==> is_digit(#[trigger] s@[k]),
        forall|k: int| fs <= k < fe ==> is_digit(#[trigger] s@[k]),
        forall|k: int| xs <= k < xe ==> is_digit(#[trigger] s@[k]),
    ensures
        r == float_too_large(
            s@.subrange(q as int, ie as int) + s@.subrange(fs as int, fe as int),
            (ie - q) + if xneg {
                -digits_value(s@, xs as int, xe as int)
            } else {
                digits_value(s@, xs as int, xe as int)
            },
        ),
{
    // The exponent, exact up to a cap past which only its sign matters.
    let cap: u128 = s.len() as u128 + 1000;
    let mut acc: u128 = 0;
    let mut big = false;
    let mut j = xs;
    while j < xe
        invariant
            xs <= j <= xe <= s.len(),
            cap == s.len() + 1000,
            forall|k: int| xs <= k < xe ==> is_digit(#[trigger] s@[k]),
            digits_value(s@, xs as int, j as int) >= 0,
            !big ==> acc == digits_value(s@, xs as int, j as int) && acc <= cap,
            big ==> digits_value(s@, xs as int, j as int) > cap,
        decreases xe - j,
    {
        assert(is_digit(s@[j as int]));
        let d = (s[j] as u32 - '0' as u32) as u128;
        let ghost before = digits_value(s@, xs as int, j as int);
        assert(before * 10 + d >= before) by (nonlinear_arith)
            requires
                before >= 0,
                d >= 0,
        ;
        if !big {
            if acc * 10 + d > cap {
                big = true;
            } else {
                acc = acc * 10 + d;
            }
        }
        j = j + 1;
    }
    let ni = ie - q;
    let nf = fe - fs;
    let m = (ni + nf) as u128;
    let ghost x = if xneg {
        -digits_value(s@, xs as int, xe as int)
    } else {
        digits_value(s@, xs as int, xe as int)
    };
    let ghost kk = ni + x;
    let ghost ds = s@.subrange(q as int, ie as int) + s@.subrange(fs as int, fe as int);
    let ghost ip = integer_part(ds, kk);
    // How many digits of the integer part to read: all of them, or enough
    // past the significant ones to settle the comparison.
    let kx: u128 = if big {
        if xneg { 0 } else { m + 400 }
    } else if xneg {
        if acc >= ni as u128 { 0 } else { ni as u128 - acc }
    } else if ni as u128 + acc <= m + 400 {
        ni as u128 + acc
    } else {
        m + 400
    };
    assert(kx <= ip.len());
    assert(kx < ip.len() ==> kx == m + 400);
    proof {
        lemma_bound_facts();
        assert(ds.len() == m);
        assert(all_digits(ip)) by {
            assert forall|k: int| 0 <= k < ip.len() implies is_digit(#[trigger] ip[k]) by {
                if k < ni {
                    assert(ds[k] == s@[q + k]);
                } else if k < m {
                    assert(ds[k] == s@[fs + (k - ni)]);
                }
            }
        }
    }
    let mut i: u128 = 0;
    let mut n: usize = 0;
    let mut cmp: i8 = 0;
    let ghost mut v: int = 0;
    while i < kx && n < 310
        invariant
            i <= kx <= ip.len(),
            kx < ip.len() ==> kx == m + 400,
            ip == integer_part(ds, kk),
            ds == s@.subrange(q as int, ie as int) + s@.subrange(fs as int, fe as int),
            ds.len() == m,
            m == ni + nf,
            q <= ie <= fs <= fe <= s.len(),
            ni == ie - q,
            nf == fe - fs,
            all_digits(ip),
            bound_prefix(309) == f64_overflow_bound(),
            pow10(308) <= f64_overflow_bound() < pow10(309),
            bound_digits().len() == 309,
            v == seq_value(ip.take(i as int)),
            n <= 310,
            -1 <= cmp <= 1,
            n == 0 ==> v == 0,
            1 <= n <= 309 ==> pow10((n - 1) as nat) <= v < pow10(n as nat),
            n <= 309 ==> ((cmp < 0 <==> v < bound_prefix(n as nat)) && (cmp == 0 <==> v
                == bound_prefix(n as nat))),
            n == 310 ==> v >= pow10(309),
            i >= m ==> (n == 0 || n + m >= i),
        decreases kx - i,
    {
        let c = if i < ni as u128 {
            s[q + i as usize]
        } else if i < m {
            s[fs + (i as usize - ni)]
        } else {
            '0'
        };
        assert(c == ip[i as int]);
        assert(is_digit(c));
        let d = (c as u32 - '0' as u32) as u8;
        proof {
            lemma_take_step(ip, i as int);
            assert(pow10((n + 1) as nat) == 10 * pow10(n as nat));
            assert(pow10(1) == 10 * pow10(0));
            if n >= 1 {
                assert(pow10(n as nat) == 10 * pow10((n - 1) as nat));
            }
        }
        if n == 0 && d == 0 {
        } else {
            if n < 309 {
                if cmp == 0 {
                    let b = bound_digit(n);
                    cmp = if d < b { -1 } else if d > b { 1 } else { 0 };
                }
            }
            n = n + 1;
        }
        proof {
            v = v * 10 + d;
        }
        i = i + 1;
    }
    proof {
        if n >= 310 {
            lemma_grows(ip, i as int);
        } else if i < ip.len() {
            assert(n == 0);
            assert forall|k: int| i <= k < ip.len() implies #[trigger] ip[k] == '0' by {}
            lemma_zero_tail(ip, i as int);
        } else {
            assert(ip.take(i as int) =~= ip);
            if n < 309 && n >= 1 {
                lemma_pow10_mono(n as nat, 308);
            }
        }
    }
    n >= 310 || (n == 309 && cmp >= 0)
}

} // verus!
