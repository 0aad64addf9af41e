use vstd::prelude::*;

verus! {

/// Two's-complement wrap of a mathematical integer into the `i32` range.
pub open spec fn wrap_i32(v: int) -> int {
    (v + 0x8000_0000int) % 0x1_0000_0000int - 0x8000_0000int
}

proof fn lemma_wrap_add(x: i32, y: i32)
    ensures
        x.wrapping_add(y) == wrap_i32(x + y),
{
}

proof fn lemma_wrap_sub(x: i32, y: i32)
    ensures
        x.wrapping_sub(y) == wrap_i32(x - y),
{
}

/// Integer division rounding toward zero (Rust's `/` on signed integers).
pub open spec fn trunc_div(a: int, b: int) -> int {
    let q = (if a < 0 { -a } else { a }) / (if b < 0 { -b } else { b });
    if (a < 0) != (b < 0) { -q } else { q }
}

/// Whole pixels survive the trip to fp8 and back: `to_pixels(from_pixels(px))`
/// is `px` wherever `px * 256` fits in `i32`.
pub proof fn lemma_pixels_roundtrip(px: i32)
    requires
        -0x80_0000 <= px < 0x80_0000,
    ensures
        (px * 256) / 256 == px,
{
}

/// Fixed-point 24.8 number: the low 8 bits are the fraction.
#[derive(Debug, Clone, Copy, PartialEq, Eq, Structural, PartialOrd, Ord, Hash)]
pub struct Fp8(pub i32);

impl Fp8 {
    /// The fp8 zero.
    pub fn zero() -> (r: Fp8)
        ensures
            r.0 == 0,
    {
        Fp8(0)
    }

    /// Whole pixels to fp8 (`px << 8`): exact wherever the scaled value fits in `i32`.
    pub fn from_pixels(px: i32) -> (r: Fp8)
        ensures
            r.0 == px << 8,
            -0x80_0000 <= px < 0x80_0000 ==> r.0 == px * 256,
    {
        let r = px << 8;
        assert(-0x80_0000 <= px < 0x80_0000 ==> px << 8 == px * 256) by (bit_vector);
        Fp8(r)
    }

    /// Whole pixels of an fp8 value (`raw >> 8`), that is `floor(raw / 256)`.
    pub fn to_pixels(self) -> (r: i32)
        ensures
            r == self.0 / 256,
    {
        let v = self.0;
        assert(v >> 8 == v / 256) by (bit_vector);
        v >> 8
    }

    /// Wraps a raw fp8 representation.
    pub fn from_raw(v: i32) -> (r: Fp8)
        ensures
            r.0 == v,
    {
        Fp8(v)
    }

    /// The raw fp8 representation.
    pub fn raw(self) -> (r: i32)
        ensures
            r == self.0,
    {
        self.0
    }

    /// Absolute value.
    pub fn abs(self) -> (r: Fp8)
        requires
            self.0 != i32::MIN,
        ensures
            r.0 == (if self.0 < 0 { -self.0 } else { self.0 as int }),
    {
        if self.0 < 0 {
            Fp8(-self.0)
        } else {
            self
        }
    }
}

impl Default for Fp8 {
    fn default() -> (r: Fp8)
        ensures
            r.0 == 0,
    {
        Fp8(0)
    }
}

impl core::ops::Add for Fp8 {
    type Output = Fp8;

    fn add(self, rhs: Fp8) -> (r: Fp8) {
        proof {
            lemma_wrap_add(self.0, rhs.0);
        }
        Fp8(self.0.wrapping_add(rhs.0))
    }
}

impl vstd::std_specs::ops::AddSpecImpl for Fp8 {
    open spec fn obeys_add_spec() -> bool {
        true
    }

    open spec fn add_req(self, rhs: Fp8) -> bool {
        true
    }

    open spec fn add_spec(self, rhs: Fp8) -> Fp8 {
        Fp8(wrap_i32(self.0 + rhs.0) as i32)
    }
}

impl core::ops::Sub for Fp8 {
    type Output = Fp8;

    fn sub(self, rhs: Fp8) -> (r: Fp8) {
        proof {
            lemma_wrap_sub(self.0, rhs.0);
        }
        Fp8(self.0.wrapping_sub(rhs.0))
    }
}

impl vstd::std_specs::ops::SubSpecImpl for Fp8 {
    open spec fn obeys_sub_spec() -> bool {
        true
    }

    open spec fn sub_req(self, rhs: Fp8) -> bool {
        true
    }

    open spec fn sub_spec(self, rhs: Fp8) -> Fp8 {
        Fp8(wrap_i32(self.0 - rhs.0) as i32)
    }
}

impl core::ops::Neg for Fp8 {
    type Output = Fp8;

    fn neg(self) -> (r: Fp8) {
        Fp8(-self.0)
    }
}

impl vstd::std_specs::ops::NegSpecImpl for Fp8 {
    open spec fn obeys_neg_spec() -> bool {
        true
    }

    open spec fn neg_req(self) -> bool {
        self.0 != i32::MIN
    }

    open spec fn neg_spec(self) -> Fp8 {
        Fp8((-self.0) as i32)
    }
}

impl core::ops::Mul<i32> for Fp8 {
    type Output = Fp8;

    fn mul(self, rhs: i32) -> (r: Fp8) {
        Fp8(self.0 * rhs)
    }
}

impl vstd::std_specs::ops::MulSpecImpl<i32> for Fp8 {
    open spec fn obeys_mul_spec() -> bool {
        true
    }

    open spec fn mul_req(self, rhs: i32) -> bool {
        i32::MIN <= self.0 * rhs <= i32::MAX
    }

    open spec fn mul_spec(self, rhs: i32) -> Fp8 {
        Fp8((self.0 * rhs) as i32)
    }
}

impl core::ops::Div<i32> for Fp8 {
    type Output = Fp8;

    fn div(self, rhs: i32) -> (r: Fp8) {
        // Signed division rounds toward zero; it is written over magnitudes.
        let a = self.0 as i64;
        let b = rhs as i64;
        let q: i64 = if b > 0 { a / b } else { -(a / (-b)) };
        assert(q == trunc_div(a as int, b as int));
        assert(i32::MIN <= q <= i32::MAX) by (nonlinear_arith)
            requires
                q == trunc_div(a as int, b as int),
                b != 0,
                !(a == i32::MIN && b == -1),
                i32::MIN <= a <= i32::MAX,
                i32::MIN <= b <= i32::MAX,
        {
        }
        Fp8(q as i32)
    }
}

impl vstd::std_specs::ops::DivSpecImpl<i32> for Fp8 {
    open spec fn obeys_div_spec() -> bool {
        true
    }

    open spec fn div_req(self, rhs: i32) -> bool {
        rhs != 0 && !(self.0 == i32::MIN && rhs == -1)
    }

    open spec fn div_spec(self, rhs: i32) -> Fp8 {
        Fp8(trunc_div(self.0 as int, rhs as int) as i32)
    }
}

impl core::ops::AddAssign for Fp8 {
    fn add_assign(&mut self, rhs: Fp8)
        ensures
            final(self).0 == wrap_i32(old(self).0 + rhs.0),
    {
        proof {
            lemma_wrap_add(self.0, rhs.0);
        }
        self.0 = self.0.wrapping_add(rhs.0);
    }
}

impl core::ops::SubAssign for Fp8 {
    fn sub_assign(&mut self, rhs: Fp8)
        ensures
            final(self).0 == wrap_i32(old(self).0 - rhs.0),
    {
        proof {
            lemma_wrap_sub(self.0, rhs.0);
        }
        self.0 = self.0.wrapping_sub(rhs.0);
    }
}

/// A position or displacement in fp8 coordinates.
#[derive(Debug, Clone, Copy, PartialEq, Eq, Structural)]
pub struct XY {
    pub x: Fp8,
    pub y: Fp8,
}

impl XY {
    /// The origin.
    pub fn zero() -> (r: XY)
        ensures
            r.x.0 == 0,
            r.y.0 == 0,
    {
        XY { x: Fp8(0), y: Fp8(0) }
    }

    /// Whole-pixel coordinates to fp8 (each scaled by 256, as in `Fp8::from_pixels`).
    pub fn from_pixels(x: i32, y: i32) -> (r: XY)
        ensures
            r.x.0 == x << 8,
            r.y.0 == y << 8,
            -0x80_0000 <= x < 0x80_0000 ==> r.x.0 == x * 256,
            -0x80_0000 <= y < 0x80_0000 ==> r.y.0 == y * 256,
    {
        XY { x: Fp8::from_pixels(x), y: Fp8::from_pixels(y) }
    }

    /// Whole-pixel coordinates (each coordinate floored to a pixel).
    pub fn to_pixels(self) -> (r: (i32, i32))
        ensures
            r.0 == self.x.0 / 256,
            r.1 == self.y.0 / 256,
    {
        (self.x.to_pixels(), self.y.to_pixels())
    }

    /// Squared length in raw fp8 units, `x*x + y*y`.
    pub fn length_squared(self) -> (r: i64)
        requires
            self.x.0 * self.x.0 + self.y.0 * self.y.0 <= i64::MAX,
        ensures
            r == self.x.0 * self.x.0 + self.y.0 * self.y.0,
    {
        let x = self.x.0 as i64;
        let y = self.y.0 as i64;
        assert(0 <= x * x <= 0x4000_0000_0000_0000) by (nonlinear_arith)
            requires
                i32::MIN <= x <= i32::MAX,
        ;
        assert(0 <= y * y <= 0x4000_0000_0000_0000) by (nonlinear_arith)
            requires
                i32::MIN <= y <= i32::MAX,
        ;
        x * x + y * y
    }
}

impl Default for XY {
    fn default() -> (r: XY)
        ensures
            r.x.0 == 0,
            r.y.0 == 0,
    {
        XY { x: Fp8(0), y: Fp8(0) }
    }
}

impl core::ops::Add for XY {
    type Output = XY;

    fn add(self, rhs: XY) -> (r: XY) {
        XY { x: self.x + rhs.x, y: self.y + rhs.y }
    }
}

impl vstd::std_specs::ops::AddSpecImpl for XY {
    open spec fn obeys_add_spec() -> bool {
        true
    }

    open spec fn add_req(self, rhs: XY) -> bool {
        true
    }

    open spec fn add_spec(self, rhs: XY) -> XY {
        XY {
            x: Fp8(wrap_i32(self.x.0 + rhs.x.0) as i32),
            y: Fp8(wrap_i32(self.y.0 + rhs.y.0) as i32),
        }
    }
}

impl core::ops::AddAssign for XY {
    fn add_assign(&mut self, rhs: XY)
        ensures
            final(self).x.0 == wrap_i32(old(self).x.0 + rhs.x.0),
            final(self).y.0 == wrap_i32(old(self).y.0 + rhs.y.0),
    {
        self.x = self.x + rhs.x;
        self.y = self.y + rhs.y;
    }
}

impl core::ops::Sub for XY {
    type Output = XY;

    fn sub(self, rhs: XY) -> (r: XY) {
        XY { x: self.x - rhs.x, y: self.y - rhs.y }
    }
}

impl vstd::std_specs::ops::SubSpecImpl for XY {
    open spec fn obeys_sub_spec() -> bool {
        true
    }

    open spec fn sub_req(self, rhs: XY) -> bool {
        true
    }

    open spec fn sub_spec(self, rhs: XY) -> XY {
        XY {
            x: Fp8(wrap_i32(self.x.0 - rhs.x.0) as i32),
            y: Fp8(wrap_i32(self.y.0 - rhs.y.0) as i32),
        }
    }
}

/// `s` is the integer square root of `n`: the largest integer whose square is at most `n`.
pub open spec fn is_isqrt(n: int, s: int) -> bool {
    0 <= s && s * s <= n < (s + 1) * (s + 1)
}

/// One Newton step never undershoots the integer square root:
/// for `x >= 1`, `(x + n / x) / 2` is at least every `s` with `s * s <= n`.
proof fn lemma_newton_step_lower(n: int, x: int, s: int)
    requires
        x >= 1,
        n >= 0,
        s >= 0,
        s * s <= n,
    ensures
        (x + n / x) / 2 >= s,
{
    let q = n / x;
    assert(n < x * (q + 1)) by (nonlinear_arith)
        requires
            q == n / x,
            x >= 1,
    ;
    if (x + q) / 2 < s {
        assert(x + q + 1 <= 2 * s);
        assert(4 * x * (q + 1) <= (x + q + 1) * (x + q + 1)) by (nonlinear_arith)
            requires
                x >= 1,
                q >= 0,
        ;
        assert((x + q + 1) * (x + q + 1) <= 4 * s * s) by (nonlinear_arith)
            requires
                0 <= x + q + 1 <= 2 * s,
        ;
        assert(false) by (nonlinear_arith)
            requires
                n < x * (q + 1),
                4 * x * (q + 1) <= 4 * s * s,
                s * s <= n,
        ;
    }
}

/// A Newton step strictly descends whenever `x` is above the square root.
proof fn lemma_newton_step_descends(n: int, x: int)
    requires
        x >= 1,
        n >= 0,
        x * x > n,
    ensures
        (x + n / x) / 2 < x,
{
    assert(n / x < x) by (nonlinear_arith)
        requires
            x >= 1,
            n >= 0,
            x * x > n,
    ;
}

/// Integer square root by Newton's method: the largest `r` with `r * r <= n`.
pub fn isqrt(n: u64) -> (r: u64)
    ensures
        is_isqrt(n as int, r as int),
{
    if n == 0 {
        return 0;
    }
    proof {
        lemma_isqrt_exists(n as int);
    }
    let ghost s: int = choose|s: int| #[trigger] is_isqrt(n as int, s);
    let mut x = n;
    let mut y = n / 2 + n % 2;
    proof {
        assert(s >= 1) by (nonlinear_arith)
            requires
                is_isqrt(n as int, s),
                n >= 1,
        ;
        assert(s <= n) by (nonlinear_arith)
            requires
                is_isqrt(n as int, s),
                s >= 1,
        ;
        lemma_newton_step_lower(n as int, n as int, s);
        assert((n + n / n) / 2 == n / 2 + n % 2) by (nonlinear_arith)
            requires
                n >= 1,
        ;
    }
    while y < x
        invariant
            is_isqrt(n as int, s),
            1 <= x <= n,
            x == n || x <= n / 2 + 1,
            x >= s >= 1,
            y >= s,
            y == (x + n / x) / 2,
        decreases x,
    {
        proof {
            if x == n {
                assert(n / n == 1) by (nonlinear_arith)
                    requires
                        n >= 1,
                ;
                assert(y <= n / 2 + 1);
            }
        }
        x = y;
        proof {
            assert(x >= 1) by (nonlinear_arith)
                requires
                    x >= s,
                    is_isqrt(n as int, s),
                    n >= 1,
            ;
            assert(n / x <= n) by (nonlinear_arith)
                requires
                    x >= 1,
            ;
            lemma_newton_step_lower(n as int, x as int, s);
            lemma_quotient_bound(n as int, x as int, s);
        }
        y = (x + n / x) / 2;
    }
    proof {
        if x * x > n {
            lemma_newton_step_descends(n as int, x as int);
        }
        assert(x as int <= s) by (nonlinear_arith)
            requires
                x * x <= n,
                n < (s + 1) * (s + 1),
                s >= 0,
                x >= 0,
        ;
    }
    x
}

/// Near the square root the quotient `n / x` stays small, so `x + n / x` cannot overflow.
proof fn lemma_quotient_bound(n: int, x: int, s: int)
    requires
        is_isqrt(n, s),
        1 <= s <= x,
        n <= u64::MAX,
    ensures
        n / x <= s + 2,
        s < 0x1_0000_0000,
{
    assert(n / x <= n / s) by (nonlinear_arith)
        requires
            1 <= s <= x,
            n >= 0,
    {
        vstd::arithmetic::div_mod::lemma_div_is_ordered_by_denominator(n, s, x);
    }
    assert(n / s <= s + 2) by (nonlinear_arith)
        requires
            n < (s + 1) * (s + 1),
            s >= 1,
    ;
    assert(s < 0x1_0000_0000) by (nonlinear_arith)
        requires
            s * s <= n,
            n <= u64::MAX,
            s >= 0,
    ;
}

proof fn lemma_isqrt_exists(n: int)
    requires
        n >= 1,
    ensures
        exists|s: int| #[trigger] is_isqrt(n, s),
    decreases n,
{
    if n == 1 {
        assert(is_isqrt(1, 1));
    } else {
        lemma_isqrt_exists(n - 1);
        let s = choose|s: int| #[trigger] is_isqrt(n - 1, s);
        if n < (s + 1) * (s + 1) {
            assert(is_isqrt(n, s));
        } else {
            assert(is_isqrt(n, s + 1)) by (nonlinear_arith)
                requires
                    is_isqrt(n - 1, s),
                    n >= (s + 1) * (s + 1),
            ;
        }
    }
}

} // verus!
