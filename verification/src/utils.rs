//! Cosine similarity of two embeddings.
use rayon::iter::{IndexedParallelIterator, IntoParallelRefIterator, ParallelIterator};
use vstd::prelude::*;
use crate::fixed::UNITS;

verus! {

/// Sum of the products of the first `n` components of two vectors.
pub open spec fn dot_upto(a: Seq<i32>, b: Seq<i32>, n: int) -> int
    decreases n,
{
    if n <= 0 {
        0
    } else {
        dot_upto(a, b, n - 1) + a[n - 1] * b[n - 1]
    }
}

/// Number of components that two vectors have in common.
pub open spec fn common_len(a: Seq<i32>, b: Seq<i32>) -> int {
    if a.len() <= b.len() {
        a.len() as int
    } else {
        b.len() as int
    }
}

/// Dot product of two vectors, over the components that they have in
/// common.
pub open spec fn dot(a: Seq<i32>, b: Seq<i32>) -> int {
    dot_upto(a, b, common_len(a, b))
}

/// Squared length of a vector.
pub open spec fn norm_squared(a: Seq<i32>) -> int {
    dot(a, a)
}

/// The greatest number of components that two vectors can have to be
/// compared: more than any machine holds.
pub const LENGTH_LIMIT: u64 = 0x1_0000_0000_0000;

/// The similarity of two vectors is defined: they are as long as each
/// other, no longer than `LENGTH_LIMIT`, and neither is all zero.
pub open spec fn comparable(a: Seq<i32>, b: Seq<i32>) -> bool {
    &&& a.len() == b.len()
    &&& a.len() <= 0x1_0000_0000_0000
    &&& norm_squared(a) > 0
    &&& norm_squared(b) > 0
}

/// How far a number is from zero.
pub open spec fn magnitude(x: int) -> int {
    if x >= 0 {
        x
    } else {
        -x
    }
}

/// `c` is the cosine of the angle between the two vectors in
/// ten-thousandths, the fraction cut off towards zero: its sign is that of
/// the dot product, and its magnitude is the greatest whole number that
/// does not pass `UNITS * |dot| / (length of a * length of b)`. Nothing in
/// this is rounded: the squares are compared as they are.
pub open spec fn is_cosine(a: Seq<i32>, b: Seq<i32>, c: int) -> bool {
    let lengths = norm_squared(a) * norm_squared(b);
    let weight = UNITS * magnitude(dot(a, b));
    &&& magnitude(c) * magnitude(c) * lengths <= weight * weight
    &&& weight * weight < (magnitude(c) + 1) * (magnitude(c) + 1) * lengths
    &&& dot(a, b) >= 0 ==> c >= 0
    &&& dot(a, b) <= 0 ==> c <= 0
}

/// The cosine of the angle between two vectors in ten-thousandths, the
/// fraction cut off towards zero.
pub open spec fn cosine(a: Seq<i32>, b: Seq<i32>) -> int {
    choose|c: int| is_cosine(a, b, c)
}

/// The similarity of two vectors where it is defined.
pub open spec fn similarity(a: Seq<i32>, b: Seq<i32>) -> Option<i64> {
    if comparable(a, b) {
        Some(cosine(a, b) as i64)
    } else {
        None
    }
}

/// The cosine has no fraction to cut off.
pub open spec fn whole(a: Seq<i32>, b: Seq<i32>) -> bool {
    let lengths = norm_squared(a) * norm_squared(b);
    let weight = UNITS * magnitude(dot(a, b));
    magnitude(cosine(a, b)) * magnitude(cosine(a, b)) * lengths == weight * weight
}

/// The cosine of the angle between two vectors in ten-thousandths, rounded
/// up: the least whole number that the cosine does not pass.
pub open spec fn cosine_up(a: Seq<i32>, b: Seq<i32>) -> int {
    if dot(a, b) > 0 && !whole(a, b) {
        cosine(a, b) + 1
    } else {
        cosine(a, b)
    }
}

/// The rounded-up similarity of two vectors where it is defined.
pub open spec fn similarity_up(a: Seq<i32>, b: Seq<i32>) -> Option<i64> {
    if comparable(a, b) {
        Some(cosine_up(a, b) as i64)
    } else {
        None
    }
}

/// The cosine of the angle between the two vectors is above `threshold`
/// ten-thousandths: `UNITS * dot` is above `threshold` times the product of
/// the lengths. The squares are compared as they are, with nothing rounded.
pub open spec fn passes(a: Seq<i32>, b: Seq<i32>, threshold: int) -> bool {
    let lengths = norm_squared(a) * norm_squared(b);
    let weight = UNITS * magnitude(dot(a, b));
    if threshold >= 0 {
        dot(a, b) > 0 && weight * weight > threshold * threshold * lengths
    } else {
        dot(a, b) >= 0 || weight * weight < threshold * threshold * lengths
    }
}

/// A sum of products of components is bounded by the number of
/// components.
pub proof fn lemma_dot_bounds(a: Seq<i32>, b: Seq<i32>, n: int)
    requires
        0 <= n <= a.len(),
        n <= b.len(),
    ensures
        -n * 0x4000_0000_0000_0000 <= dot_upto(a, b, n) <= n * 0x4000_0000_0000_0000,
    decreases n,
{
    if n > 0 {
        lemma_dot_bounds(a, b, n - 1);
        let x = a[n - 1] as int;
        let y = b[n - 1] as int;
        assert(-0x4000_0000_0000_0000 <= x * y <= 0x4000_0000_0000_0000) by (nonlinear_arith)
            requires
                -0x8000_0000 <= x <= 0x8000_0000,
                -0x8000_0000 <= y <= 0x8000_0000,
        ;
    }
}

/// The order of two vectors does not change their dot product.
pub proof fn lemma_dot_symmetric(a: Seq<i32>, b: Seq<i32>, n: int)
    ensures
        dot_upto(a, b, n) == dot_upto(b, a, n),
    decreases n,
{
    if n > 0 {
        lemma_dot_symmetric(a, b, n - 1);
        assert(a[n - 1] * b[n - 1] == b[n - 1] * a[n - 1]) by (nonlinear_arith);
    }
}

/// A vector's dot product with itself is not negative, and is zero only
/// when every component is.
pub proof fn lemma_norm_positive(a: Seq<i32>, n: int)
    requires
        0 <= n <= a.len(),
    ensures
        dot_upto(a, a, n) >= 0,
        dot_upto(a, a, n) == 0 <==> forall|i: int| 0 <= i < n ==> a[i] == 0,
    decreases n,
{
    if n > 0 {
        lemma_norm_positive(a, n - 1);
        let x = a[n - 1] as int;
        assert(x * x >= 0 && (x * x == 0 <==> x == 0)) by (nonlinear_arith);
    }
}

/// One step of the Cauchy-Schwarz inequality: it survives a further
/// component.
proof fn lemma_cauchy_schwarz_step(d: int, p: int, q: int, x: int, y: int)
    requires
        d * d <= p * q,
        p >= 0,
        q >= 0,
    ensures
        (d + x * y) * (d + x * y) <= (p + x * x) * (q + y * y),
{
    let u = x * y;
    let s = p * (y * y);
    let t = q * (x * x);
    assert(u * u == (x * x) * (y * y)) by (nonlinear_arith)
        requires
            u == x * y,
    ;
    assert(s >= 0 && t >= 0) by (nonlinear_arith)
        requires
            s == p * (y * y),
            t == q * (x * x),
            p >= 0,
            q >= 0,
    ;
    assert(s * t == (p * q) * (u * u)) by (nonlinear_arith)
        requires
            s == p * (y * y),
            t == q * (x * x),
            u * u == (x * x) * (y * y),
    ;
    assert((d * d) * (u * u) <= (p * q) * (u * u)) by (nonlinear_arith)
        requires
            d * d <= p * q,
    ;
    assert((d * u) * (d * u) == (d * d) * (u * u)) by (nonlinear_arith);
    let m = 2 * (d * u);
    assert(m * m <= (s + t) * (s + t)) by (nonlinear_arith)
        requires
            m == 2 * (d * u),
            (d * u) * (d * u) <= s * t,
    ;
    assert(m <= s + t) by (nonlinear_arith)
        requires
            m * m <= (s + t) * (s + t),
            s + t >= 0,
    ;
    assert((d + u) * (d + u) == d * d + m + u * u) by (nonlinear_arith)
        requires
            m == 2 * (d * u),
    ;
    assert((p + x * x) * (q + y * y) == p * q + s + t + u * u) by (nonlinear_arith)
        requires
            s == p * (y * y),
            t == q * (x * x),
            u * u == (x * x) * (y * y),
    ;
}

/// The Cauchy-Schwarz inequality: the square of a dot product is at most
/// the product of the squared lengths.
pub proof fn lemma_cauchy_schwarz(a: Seq<i32>, b: Seq<i32>, n: int)
    requires
        0 <= n <= a.len(),
        n <= b.len(),
    ensures
        dot_upto(a, b, n) * dot_upto(a, b, n) <= dot_upto(a, a, n) * dot_upto(b, b, n),
    decreases n,
{
    if n > 0 {
        lemma_cauchy_schwarz(a, b, n - 1);
        lemma_norm_positive(a, n - 1);
        lemma_norm_positive(b, n - 1);
        lemma_cauchy_schwarz_step(
            dot_upto(a, b, n - 1),
            dot_upto(a, a, n - 1),
            dot_upto(b, b, n - 1),
            a[n - 1] as int,
            b[n - 1] as int,
        );
    } else {
        assert(0int * 0int <= 0int * 0int);
    }
}

/// Only one number is the cosine of two vectors neither of which is zero.
pub proof fn lemma_cosine_unique(a: Seq<i32>, b: Seq<i32>, c: int, other: int)
    requires
        norm_squared(a) > 0,
        norm_squared(b) > 0,
        is_cosine(a, b, c),
        is_cosine(a, b, other),
    ensures
        c == other,
        cosine(a, b) == c,
{
    let n = norm_squared(a) * norm_squared(b);
    let w = UNITS * magnitude(dot(a, b));
    assert(n >= 1) by (nonlinear_arith)
        requires
            n == norm_squared(a) * norm_squared(b),
            norm_squared(a) > 0,
            norm_squared(b) > 0,
    ;
    lemma_squares_order(magnitude(c), magnitude(other), n, w * w);
    lemma_squares_order(magnitude(other), magnitude(c), n, w * w);
    let chosen = cosine(a, b);
    assert(is_cosine(a, b, chosen));
    lemma_squares_order(magnitude(chosen), magnitude(c), n, w * w);
    lemma_squares_order(magnitude(c), magnitude(chosen), n, w * w);
    lemma_sign_of_zero(c, other, dot(a, b));
    lemma_sign_of_zero(chosen, c, dot(a, b));
}

/// Two numbers of one magnitude on one side of zero are one number.
proof fn lemma_sign_of_zero(c: int, other: int, d: int)
    requires
        magnitude(c) == magnitude(other),
        d >= 0 ==> c >= 0 && other >= 0,
        d <= 0 ==> c <= 0 && other <= 0,
    ensures
        c == other,
{
}

/// A number whose square, taken `n` times, does not pass a bound that the
/// square of the successor of another passes is not greater than the other.
proof fn lemma_squares_order(k: int, l: int, n: int, bound: int)
    by (nonlinear_arith)
    requires
        k >= 0,
        l >= 0,
        n >= 1,
        k * k * n <= bound,
        bound < (l + 1) * (l + 1) * n,
    ensures
        k <= l,
{
}

/// The cosine lies between minus one whole and one whole.
pub proof fn lemma_cosine_bounds(a: Seq<i32>, b: Seq<i32>, c: int)
    requires
        a.len() == b.len(),
        norm_squared(a) > 0,
        norm_squared(b) > 0,
        is_cosine(a, b, c),
    ensures
        -UNITS <= c <= UNITS,
{
    lemma_cauchy_schwarz(a, b, a.len() as int);
    let n = norm_squared(a) * norm_squared(b);
    let d = dot(a, b);
    let m = magnitude(d);
    let k = magnitude(c);
    assert(m * m == d * d) by (nonlinear_arith)
        requires
            m == d || m == -d,
    ;
    lemma_norm_positive(a, a.len() as int);
    lemma_norm_positive(b, b.len() as int);
    assert(n >= 0) by (nonlinear_arith)
        requires
            n == norm_squared(a) * norm_squared(b),
            norm_squared(a) > 0,
            norm_squared(b) > 0,
    ;
    assert(k <= 10_000) by (nonlinear_arith)
        requires
            k >= 0,
            m >= 0,
            n >= 0,
            m * m <= n,
            k * k * n <= (10_000 * m) * (10_000 * m),
            (10_000 * m) * (10_000 * m) < (k + 1) * (k + 1) * n,
    ;
}

/// The rounded-up cosine is above a threshold exactly when the cosine is:
/// comparing it with a whole number of ten-thousandths loses nothing.
pub proof fn lemma_cosine_up_passes(a: Seq<i32>, b: Seq<i32>, threshold: int)
    requires
        norm_squared(a) > 0,
        norm_squared(b) > 0,
        is_cosine(a, b, cosine(a, b)),
    ensures
        cosine_up(a, b) > threshold <==> passes(a, b, threshold),
{
    let n = norm_squared(a) * norm_squared(b);
    let d = dot(a, b);
    let w = UNITS * magnitude(d);
    let c = cosine(a, b);
    let k = magnitude(c);
    let t = magnitude(threshold);
    assert(n >= 1) by (nonlinear_arith)
        requires
            n == norm_squared(a) * norm_squared(b),
            norm_squared(a) > 0,
            norm_squared(b) > 0,
    ;
    assert(threshold * threshold == t * t) by (nonlinear_arith)
        requires
            t == threshold || t == -threshold,
    ;
    // where the magnitudes stand to each other is where their squares do
    assert((k < t <==> (k + 1) * (k + 1) * n <= t * t * n) && (k > t <==> k * k * n > t * t * n)
        && (k >= t <==> k * k * n >= t * t * n)) by (nonlinear_arith)
        requires
            k >= 0,
            t >= 0,
            n >= 1,
    ;
    if d == 0 {
        assert(w == 0);
        assert(k == 0) by (nonlinear_arith)
            requires
                k >= 0,
                n >= 1,
                w == 0,
                k * k * n <= w * w,
        ;
        assert(t * t * n >= 0) by (nonlinear_arith)
            requires
                n >= 1,
        ;
        assert(threshold < 0 ==> t * t * n > 0) by (nonlinear_arith)
            requires
                n >= 1,
                t >= 0,
                threshold < 0 ==> t >= 1,
        ;
        assert(w * w == 0) by (nonlinear_arith)
            requires
                w == 0,
        ;
    }
}

/// The similarity of a vector to itself is one whole, whatever its length.
pub proof fn lemma_cosine_of_itself(v: Seq<i32>)
    requires
        norm_squared(v) > 0,
    ensures
        is_cosine(v, v, UNITS as int),
        cosine(v, v) == UNITS,
{
    let s = norm_squared(v);
    assert(10_000 * 10_000 * (s * s) <= (10_000 * s) * (10_000 * s) && (10_000 * s) * (10_000 * s)
        < (10_000 + 1) * (10_000 + 1) * (s * s)) by (nonlinear_arith)
        requires
            s > 0,
    ;
    lemma_cosine_unique(v, v, UNITS as int, UNITS as int);
}

/// The similarity of two vectors does not depend on their order.
pub proof fn lemma_cosine_symmetric(a: Seq<i32>, b: Seq<i32>, c: int)
    ensures
        is_cosine(a, b, c) <==> is_cosine(b, a, c),
{
    lemma_dot_symmetric(a, b, common_len(a, b));
    assert(norm_squared(a) * norm_squared(b) == norm_squared(b) * norm_squared(a))
        by (nonlinear_arith);
}

/// Vectors at a right angle, whose dot product is zero, have a similarity
/// of zero.
pub proof fn lemma_cosine_orthogonal(a: Seq<i32>, b: Seq<i32>)
    requires
        dot(a, b) == 0,
        norm_squared(a) > 0,
        norm_squared(b) > 0,
    ensures
        is_cosine(a, b, 0),
        cosine(a, b) == 0,
{
    let n = norm_squared(a) * norm_squared(b);
    assert(n >= 1) by (nonlinear_arith)
        requires
            n == norm_squared(a) * norm_squared(b),
            norm_squared(a) > 0,
            norm_squared(b) > 0,
    ;
    let w = UNITS * magnitude(dot(a, b));
    let k = magnitude(0);
    assert(k * k * n <= w * w && w * w < (k + 1) * (k + 1) * n) by (nonlinear_arith)
        requires
            w == 0,
            k == 0,
            n >= 1,
    ;
    assert(is_cosine(a, b, 0));
    lemma_cosine_unique(a, b, 0, 0);
}

/// A vector with every component taken `k` times has `k` times the dot
/// product with any other.
pub proof fn lemma_dot_scaled(a: Seq<i32>, longer: Seq<i32>, b: Seq<i32>, k: int, n: int)
    requires
        0 <= n <= a.len(),
        n <= longer.len(),
        forall|i: int| 0 <= i < n ==> longer[i] == k * a[i],
    ensures
        dot_upto(longer, b, n) == k * dot_upto(a, b, n),
    decreases n,
{
    if n > 0 {
        lemma_dot_scaled(a, longer, b, k, n - 1);
        let x = a[n - 1] as int;
        let y = b[n - 1] as int;
        let rest = dot_upto(a, b, n - 1);
        assert(k * rest + (k * x) * y == k * (rest + x * y)) by (nonlinear_arith);
    }
}

/// The similarity does not change when a vector is made longer: a vector
/// with every component taken `k` times is as similar to any other as the
/// vector itself.
pub proof fn lemma_cosine_scaled(a: Seq<i32>, longer: Seq<i32>, b: Seq<i32>, k: int, c: int)
    requires
        k > 0,
        longer.len() == a.len(),
        a.len() == b.len(),
        forall|i: int| 0 <= i < a.len() ==> longer[i] == k * a[i],
    ensures
        is_cosine(longer, b, c) <==> is_cosine(a, b, c),
{
    let len = a.len() as int;
    lemma_dot_scaled(a, longer, b, k, len);
    lemma_dot_scaled(a, longer, longer, k, len);
    lemma_dot_symmetric(a, longer, len);
    lemma_dot_scaled(a, longer, a, k, len);
    let d = dot(a, b);
    let s = norm_squared(a);
    let t = norm_squared(b);
    assert(dot(longer, b) == k * d);
    assert(norm_squared(longer) == k * (k * s));
    let m = magnitude(d);
    assert(magnitude(k * d) == k * m) by (nonlinear_arith)
        requires
            k > 0,
            m == if d >= 0 {
                d
            } else {
                -d
            },
            magnitude(k * d) == if k * d >= 0 {
                k * d
            } else {
                -(k * d)
            },
    ;
    let e = magnitude(c);
    let n = s * t;
    let w = 10_000 * m;
    let kk = k * k;
    assert(kk > 0) by (nonlinear_arith)
        requires
            k > 0,
            kk == k * k,
    ;
    let far = norm_squared(longer) * t;
    let heavy = UNITS * magnitude(dot(longer, b));
    assert(far == kk * n) by (nonlinear_arith)
        requires
            far == (k * (k * s)) * t,
            n == s * t,
            kk == k * k,
    ;
    assert(heavy * heavy == kk * (w * w)) by (nonlinear_arith)
        requires
            heavy == 10_000 * (k * m),
            w == 10_000 * m,
            kk == k * k,
    ;
    assert(e * e * far == kk * (e * e * n)) by (nonlinear_arith)
        requires
            far == kk * n,
    ;
    assert((e + 1) * (e + 1) * far == kk * ((e + 1) * (e + 1) * n)) by (nonlinear_arith)
        requires
            far == kk * n,
    ;
    lemma_scaled_order(e * e * n, w * w, kk);
    lemma_scaled_order(w * w, (e + 1) * (e + 1) * n, kk);
    assert((k * d >= 0) == (d >= 0) && (k * d <= 0) == (d <= 0)) by (nonlinear_arith)
        requires
            k > 0,
    ;
}

/// Taking both sides of a comparison the same positive number of times
/// does not change it.
proof fn lemma_scaled_order(x: int, y: int, k: int)
    by (nonlinear_arith)
    requires
        k > 0,
    ensures
        x <= y <==> k * x <= k * y,
        x < y <==> k * x < k * y,
{
}

/// Product of two components.
pub fn product(a: i32, b: i32) -> (p: i128)
    ensures
        p == a * b,
{
    assert(-0x4000_0000_0000_0000 <= a * b <= 0x4000_0000_0000_0000) by (nonlinear_arith)
        requires
            -0x8000_0000 <= a <= 0x8000_0000,
            -0x8000_0000 <= b <= 0x8000_0000,
    ;
    (a as i128) * (b as i128)
}

/// Dot product of two vectors, summed in parallel by rayon's `par_iter`,
/// `zip`, `map` and `sum`: the two slices are walked together as far as
/// both reach, each pair of components is multiplied, and the products are
/// added. The sum of whole numbers does not depend on the order in which
/// rayon adds them, and no sum of as many products as a slice can hold
/// leaves the range of the result.
#[verifier::external_body]
fn parallel_dot(vec1: &[i32], vec2: &[i32]) -> (sum: i128)
    ensures
        sum == dot(vec1@, vec2@),
{
    vec1.par_iter().zip(vec2.par_iter()).map(|(a, b)| product(*a, *b)).sum()
}

/// A number of up to 256 bits, in four parts of 64 bits, the least first.
struct Wide {
    part0: u64,
    part1: u64,
    part2: u64,
    part3: u64,
}

impl Wide {
    /// The number that the four parts make.
    spec fn value(self) -> int {
        self.part0 + self.part1 * 0x1_0000_0000_0000_0000 + self.part2
            * 0x1_0000_0000_0000_0000_0000_0000_0000_0000 + self.part3
            * 0x1_0000_0000_0000_0000_0000_0000_0000_0000_0000_0000_0000_0000
    }
}

/// Product of two numbers of 64 bits.
fn half_product(a: u128, b: u128) -> (p: u128)
    requires
        a < 0x1_0000_0000_0000_0000,
        b < 0x1_0000_0000_0000_0000,
    ensures
        p == a * b,
        p <= 0xffff_ffff_ffff_fffe_0000_0000_0000_0001,
{
    assert(a * b <= 0xffff_ffff_ffff_ffff * 0xffff_ffff_ffff_ffff) by (nonlinear_arith)
        requires
            0 <= a <= 0xffff_ffff_ffff_ffff,
            0 <= b <= 0xffff_ffff_ffff_ffff,
    ;
    a * b
}

/// Product of two numbers of 128 bits, in full.
fn wide_product(a: u128, b: u128) -> (w: Wide)
    ensures
        w.value() == a * b,
{
    let base: u128 = 0x1_0000_0000_0000_0000;
    let a0: u128 = a % base;
    let a1: u128 = a / base;
    let b0: u128 = b % base;
    let b1: u128 = b / base;
    let low: u128 = half_product(a0, b0);
    let cross1: u128 = half_product(a0, b1);
    let cross2: u128 = half_product(a1, b0);
    let high: u128 = half_product(a1, b1);
    assert(a * b == high * 0x1_0000_0000_0000_0000_0000_0000_0000_0000 + (cross1 + cross2)
        * 0x1_0000_0000_0000_0000 + low) by (nonlinear_arith)
        requires
            a == a1 * 0x1_0000_0000_0000_0000 + a0,
            b == b1 * 0x1_0000_0000_0000_0000 + b0,
            low == a0 * b0,
            cross1 == a0 * b1,
            cross2 == a1 * b0,
            high == a1 * b1,
    ;
    let sum1: u128 = low / base + cross1 % base + cross2 % base;
    let sum2: u128 = sum1 / base + cross1 / base + cross2 / base + high % base;
    let sum3: u128 = sum2 / base + high / base;
    Wide {
        part0: (low % base) as u64,
        part1: (sum1 % base) as u64,
        part2: (sum2 % base) as u64,
        part3: sum3 as u64,
    }
}

/// Tells whether one wide number does not pass another, and whether the
/// two are equal.
fn wide_order(x: &Wide, y: &Wide) -> (found: (bool, bool))
    ensures
        found.0 == (x.value() <= y.value()),
        found.1 == (x.value() == y.value()),
{
    if x.part3 != y.part3 {
        (x.part3 < y.part3, false)
    } else if x.part2 != y.part2 {
        (x.part2 < y.part2, false)
    } else if x.part1 != y.part1 {
        (x.part1 < y.part1, false)
    } else {
        (x.part0 <= y.part0, x.part0 == y.part0)
    }
}

/// Tells whether `c * c * (square1 * square2)` does not pass the square of
/// `UNITS * weight`, and whether the two are equal. Both are formed in
/// full.
fn holds_below(c: u128, square1: u128, square2: u128, weight: u128) -> (found: (bool, bool))
    requires
        c <= 10_001,
        square1 <= 0x4000_0000_0000_0000_0000_0000_0000,
        square2 <= 0x4000_0000_0000_0000_0000_0000_0000,
        weight <= 0x4000_0000_0000_0000_0000_0000_0000,
    ensures
        found.0 == (c * c * (square1 * square2) <= (10_000 * weight) * (10_000 * weight)),
        found.1 == (c * c * (square1 * square2) == (10_000 * weight) * (10_000 * weight)),
{
    assert(c * square1 <= 10_001 * 0x4000_0000_0000_0000_0000_0000_0000 && c * square2 <= 10_001
        * 0x4000_0000_0000_0000_0000_0000_0000) by (nonlinear_arith)
        requires
            c <= 10_001,
            square1 <= 0x4000_0000_0000_0000_0000_0000_0000,
            square2 <= 0x4000_0000_0000_0000_0000_0000_0000,
    ;
    let left = wide_product(c * square1, c * square2);
    let right = wide_product(10_000 * weight, 10_000 * weight);
    assert((c * square1) * (c * square2) == c * c * (square1 * square2)) by (nonlinear_arith);
    wide_order(&left, &right)
}

/// The greatest `c` with `c * c * (square1 * square2)` not above the square
/// of `UNITS * weight`, and whether the two are equal.
fn cut_root(square1: u128, square2: u128, weight: u128) -> (found: (u128, bool))
    requires
        1 <= square1 <= 0x4000_0000_0000_0000_0000_0000_0000,
        1 <= square2 <= 0x4000_0000_0000_0000_0000_0000_0000,
        weight <= 0x4000_0000_0000_0000_0000_0000_0000,
        weight * weight <= square1 * square2,
    ensures
        found.0 <= 10_000,
        found.0 * found.0 * (square1 * square2) <= (10_000 * weight) * (10_000 * weight),
        (10_000 * weight) * (10_000 * weight) < (found.0 + 1) * (found.0 + 1) * (square1
            * square2),
        found.1 == (found.0 * found.0 * (square1 * square2) == (10_000 * weight) * (10_000
            * weight)),
{
    let ghost lengths = square1 * square2;
    let ghost heavy = (10_000 * weight) * (10_000 * weight);
    let mut low: u128 = 0;
    let mut high: u128 = 10_001;
    assert(0 * 0 * lengths <= heavy && heavy < 10_001 * 10_001 * lengths) by (nonlinear_arith)
        requires
            lengths == square1 * square2,
            heavy == (10_000 * weight) * (10_000 * weight),
            weight * weight <= square1 * square2,
            square1 >= 1,
            square2 >= 1,
            weight >= 0,
    ;
    while high - low > 1
        invariant
            low < high <= 10_001,
            1 <= square1 <= 0x4000_0000_0000_0000_0000_0000_0000,
            1 <= square2 <= 0x4000_0000_0000_0000_0000_0000_0000,
            weight <= 0x4000_0000_0000_0000_0000_0000_0000,
            lengths == square1 * square2,
            heavy == (10_000 * weight) * (10_000 * weight),
            low * low * lengths <= heavy,
            heavy < high * high * lengths,
        decreases high - low,
    {
        let middle: u128 = low + (high - low) / 2;
        let found = holds_below(middle, square1, square2, weight);
        if found.0 {
            low = middle;
        } else {
            high = middle;
        }
    }
    let found = holds_below(low, square1, square2, weight);
    (low, found.1)
}

/// The cosine of two vectors cut off towards zero, and rounded up.
fn measure(vec1: &[i32], vec2: &[i32]) -> (both: Option<(i64, i64)>)
    ensures
        both is Some <==> comparable(vec1@, vec2@),
        both is Some ==> ({
            let (down, up) = both->0;
            &&& is_cosine(vec1@, vec2@, down as int)
            &&& down == cosine(vec1@, vec2@)
            &&& up == cosine_up(vec1@, vec2@)
            &&& -UNITS <= down <= up <= UNITS
        }),
{
    if vec1.len() != vec2.len() || vec1.len() as u64 > LENGTH_LIMIT {
        return None;
    }
    proof {
        let len = vec1@.len() as int;
        lemma_norm_positive(vec1@, len);
        lemma_norm_positive(vec2@, len);
        lemma_dot_bounds(vec1@, vec1@, len);
        lemma_dot_bounds(vec2@, vec2@, len);
        lemma_dot_bounds(vec1@, vec2@, len);
        lemma_cauchy_schwarz(vec1@, vec2@, len);
    }
    let square1: i128 = parallel_dot(vec1, vec1);
    let square2: i128 = parallel_dot(vec2, vec2);
    if square1 == 0 || square2 == 0 {
        return None;
    }
    let dot_product: i128 = parallel_dot(vec1, vec2);
    let weight: u128 = if dot_product >= 0 {
        dot_product as u128
    } else {
        (-dot_product) as u128
    };
    proof {
        let d = dot_product as int;
        assert(weight * weight == d * d) by (nonlinear_arith)
            requires
                weight == d || weight == -d,
        ;
    }
    let (size, even) = cut_root(square1 as u128, square2 as u128, weight);
    let similarity: i64 = if dot_product >= 0 {
        size as i64
    } else {
        -(size as i64)
    };
    proof {
        let n = norm_squared(vec1@) * norm_squared(vec2@);
        let w = UNITS * magnitude(dot(vec1@, vec2@));
        let k = magnitude(similarity as int);
        assert(n == square1 * square2);
        assert(k == size);
        assert(w == 10_000 * weight);
        assert(k * k * n <= w * w);
        assert(w * w < (k + 1) * (k + 1) * n);
        assert(n >= 1) by (nonlinear_arith)
            requires
                n == square1 * square2,
                square1 >= 1,
                square2 >= 1,
        ;
        if dot_product == 0 {
            assert(k == 0) by (nonlinear_arith)
                requires
                    k >= 0,
                    n >= 1,
                    w == 0,
                    k * k * n <= w * w,
            ;
        }
        assert(is_cosine(vec1@, vec2@, similarity as int));
        lemma_cosine_unique(vec1@, vec2@, similarity as int, similarity as int);
        assert(even == whole(vec1@, vec2@));
        if size == 10_000 {
            // one whole has no fraction: the dot product cannot pass the lengths
            assert(k * k * n == w * w) by (nonlinear_arith)
                requires
                    k == 10_000,
                    w == 10_000 * weight,
                    weight * weight <= n,
                    k * k * n <= w * w,
            ;
        }
    }
    let upper: i64 = if dot_product > 0 && !even {
        similarity + 1
    } else {
        similarity
    };
    Some((similarity, upper))
}

/// Cosine similarity of two embeddings, in ten-thousandths: the dot product
/// divided by the product of the lengths, the fraction cut off towards
/// zero and nothing else rounded. There is none when the similarity is
/// undefined: when the vectors differ in length or when one of them is all
/// zero; such a pair is to be taken as no match. The same is said of
/// vectors of more than `LENGTH_LIMIT` components, which no machine holds.
pub fn cosine_similarity(vec1: &[i32], vec2: &[i32]) -> (similarity: Option<i64>)
    ensures
        similarity is Some <==> comparable(vec1@, vec2@),
        similarity is Some ==> is_cosine(vec1@, vec2@, similarity->0 as int),
        similarity is Some ==> similarity->0 == cosine(vec1@, vec2@),
        similarity is Some ==> -UNITS <= similarity->0 <= UNITS,
        similarity == self::similarity(vec1@, vec2@),
{
    match measure(vec1, vec2) {
        Some(both) => Some(both.0),
        None => None,
    }
}

/// Cosine similarity of two embeddings, in ten-thousandths, rounded up. It
/// is above a whole number of ten-thousandths exactly when the cosine
/// itself is, so that comparing it with a threshold loses nothing. There is
/// none where `cosine_similarity` has none.
pub fn cosine_similarity_up(vec1: &[i32], vec2: &[i32]) -> (similarity: Option<i64>)
    ensures
        similarity is Some <==> comparable(vec1@, vec2@),
        similarity is Some ==> similarity->0 == cosine_up(vec1@, vec2@),
        similarity is Some ==> -UNITS <= similarity->0 <= UNITS,
        similarity is Some ==> forall|threshold: int|
            similarity->0 > threshold <==> #[trigger] passes(vec1@, vec2@, threshold),
        similarity == similarity_up(vec1@, vec2@),
{
    match measure(vec1, vec2) {
        Some(both) => {
            assert forall|threshold: int|
                both.1 > threshold <==> #[trigger] passes(vec1@, vec2@, threshold) by {
                lemma_cosine_up_passes(vec1@, vec2@, threshold);
            }
            Some(both.1)
        },
        None => None,
    }
}

} // verus!
