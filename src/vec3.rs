use vstd::prelude::*;

verus! {

/// Raw units per unit length (and per full color intensity).
pub const ONE: i64 = 4096;

/// Largest raw magnitude of a component that geometric operations accept.
pub const BOUND: i64 = 0x1000_0000;

/// Floor division of integers by a positive divisor.
pub fn div_floor(a: i128, b: i128) -> (r: i128)
    requires
        b > 0,
        -0x1_0000_0000_0000_0000_0000_0000_0000 <= a <= 0x1_0000_0000_0000_0000_0000_0000_0000,
        b <= 0x1_0000_0000_0000_0000_0000_0000_0000,
    ensures
        r == a / b,
{
    if a >= 0 {
        a / b
    } else {
        let q = (-a + b - 1) / b;
        proof {
            let na: int = -(a as int);
            let qi: int = q as int;
            let bi: int = b as int;
            let ai: int = a as int;
            assert(qi * bi <= na + bi - 1 < qi * bi + bi) by (nonlinear_arith)
                requires qi == (na + bi - 1) / bi, bi > 0, na > 0;
            assert(-qi * bi <= ai < -qi * bi + bi) by (nonlinear_arith)
                requires qi * bi <= na + bi - 1 < qi * bi + bi, na == -ai;
            assert(-qi == ai / bi) by (nonlinear_arith)
                requires -qi * bi <= ai < -qi * bi + bi, bi > 0;
        }
        -q
    }
}


/// `s` is the integer square root of `n`.
pub open spec fn is_root(n: int, s: int) -> bool {
    0 <= s && s * s <= n < (s + 1) * (s + 1)
}

/// The integer square root of a non-negative `n`.
pub open spec fn root(n: int) -> int {
    choose|s: int| is_root(n, s)
}

/// Every non-negative integer has an integer square root.
pub proof fn lemma_root_exists(n: int)
    requires
        n >= 0,
    ensures
        is_root(n, root(n)),
    decreases n,
{
    if n == 0 {
        assert(is_root(0, 0));
    } else {
        lemma_root_exists(n - 1);
        let s = root(n - 1);
        if (s + 1) * (s + 1) <= n {
            assert(n < (s + 2) * (s + 2)) by (nonlinear_arith)
                requires n - 1 < (s + 1) * (s + 1), s >= 0;
            assert(is_root(n, s + 1));
        } else {
            assert(is_root(n, s));
        }
    }
}

pub proof fn lemma_root_unique(n: int, s: int)
    requires
        is_root(n, s),
    ensures
        root(n) == s,
{
    let c = root(n);
    assert(is_root(n, c));
    if c < s {
        assert(false) by (nonlinear_arith)
            requires c < s, 0 <= c, s * s <= n, n < (c + 1) * (c + 1);
    } else if s < c {
        assert(false) by (nonlinear_arith)
            requires s < c, 0 <= s, c * c <= n, n < (s + 1) * (s + 1);
    }
}

/// Integer square root, by bisection.
pub fn isqrt(n: u128) -> (s: u128)
    requires
        n <= 0x1000_0000_0000_0000_0000_0000_0000_0000,
    ensures
        is_root(n as int, s as int),
        s == root(n as int),
        s <= 0x4000_0000_0000_0000,
{
    let mut lo: u128 = 0;
    let mut hi: u128 = 0x4000_0000_0000_0001;
    assert(hi * hi > n) by (nonlinear_arith)
        requires hi == 0x4000_0000_0000_0001u128, n <= 0x1000_0000_0000_0000_0000_0000_0000_0000;
    while hi - lo > 1
        invariant
            lo < hi <= 0x4000_0000_0000_0001,
            lo * lo <= n,
            n < hi * hi,
        decreases hi - lo,
    {
        let mid: u128 = lo + (hi - lo) / 2;
        assert(mid * mid <= 0x4000_0000_0000_0001u128 * 0x4000_0000_0000_0001u128) by (nonlinear_arith)
            requires mid <= 0x4000_0000_0000_0001u128;
        if mid * mid <= n {
            lo = mid;
        } else {
            hi = mid;
        }
    }
    assert(hi == lo + 1);
    proof {
        lemma_root_unique(n as int, lo as int);
    }
    lo
}

/// A triple of fixed-point numbers: a point, a direction or a color.
#[derive(Clone, Copy, PartialEq, Eq, Structural, Debug)]
pub struct Vec3 {
    pub x: i64,
    pub y: i64,
    pub z: i64,
}

pub type Point3 = Vec3;

pub type Color = Vec3;

/// Each component is within `[-b, b]`.
pub open spec fn within(v: Vec3, b: int) -> bool {
    -b <= v.x <= b && -b <= v.y <= b && -b <= v.z <= b
}

pub open spec fn bounded(v: Vec3) -> bool {
    within(v, BOUND as int)
}

pub open spec fn dot_spec(a: Vec3, b: Vec3) -> int {
    a.x * b.x + a.y * b.y + a.z * b.z
}

pub open spec fn is_zero(v: Vec3) -> bool {
    v.x == 0 && v.y == 0 && v.z == 0
}

/// Fixed-point product `a * b` of raw values.
pub open spec fn fmul(a: int, b: int) -> int {
    (a * b) / (ONE as int)
}

/// Fixed-point quotient of raw `a` by raw `b`.
pub open spec fn unit_comp(a: int, len: int) -> int {
    (a * ONE) / len
}

pub open spec fn vadd(a: Vec3, b: Vec3) -> Vec3 {
    Vec3 { x: (a.x + b.x) as i64, y: (a.y + b.y) as i64, z: (a.z + b.z) as i64 }
}

pub open spec fn vsub(a: Vec3, b: Vec3) -> Vec3 {
    Vec3 { x: (a.x - b.x) as i64, y: (a.y - b.y) as i64, z: (a.z - b.z) as i64 }
}

pub open spec fn vneg(a: Vec3) -> Vec3 {
    Vec3 { x: (-a.x) as i64, y: (-a.y) as i64, z: (-a.z) as i64 }
}

/// Fixed-point scalar multiple `t * v`.
pub open spec fn vscale(t: int, v: Vec3) -> Vec3 {
    Vec3 { x: fmul(t, v.x as int) as i64, y: fmul(t, v.y as int) as i64, z: fmul(t, v.z as int) as i64 }
}

/// Fixed-point cross product of vectors with components in `[-1, 1]`.
pub open spec fn cross_spec(a: Vec3, b: Vec3) -> Vec3 {
    Vec3 {
        x: ((a.y * b.z - a.z * b.y) / (ONE as int)) as i64,
        y: ((a.z * b.x - a.x * b.z) / (ONE as int)) as i64,
        z: ((a.x * b.y - a.y * b.x) / (ONE as int)) as i64,
    }
}

/// Fixed-point component-wise product.
pub open spec fn vmul(a: Vec3, b: Vec3) -> Vec3 {
    Vec3 {
        x: fmul(a.x as int, b.x as int) as i64,
        y: fmul(a.y as int, b.y as int) as i64,
        z: fmul(a.z as int, b.z as int) as i64,
    }
}

/// The direction of a non-zero `v`, each component scaled by `ONE` over the
/// integer square root of the squared length.
pub open spec fn unit_spec(v: Vec3, len: int) -> Vec3 {
    Vec3 {
        x: unit_comp(v.x as int, len) as i64,
        y: unit_comp(v.y as int, len) as i64,
        z: unit_comp(v.z as int, len) as i64,
    }
}

proof fn lemma_unit_comp_bounds(a: int, len: int)
    requires
        len >= 1,
        a * a < (len + 1) * (len + 1),
    ensures
        -ONE <= unit_comp(a, len) <= ONE,
{
    assert(-len <= a <= len) by (nonlinear_arith)
        requires a * a < (len + 1) * (len + 1), len >= 1;
    let k = ONE as int;
    assert(-k <= (a * k) / len <= k) by (nonlinear_arith)
        requires -len <= a <= len, len >= 1, k == 4096;
}

/// Each component of the direction of a non-zero vector lies in `[-ONE, ONE]`.
pub proof fn lemma_unit_within(v: Vec3)
    requires
        bounded(v),
        !is_zero(v),
    ensures
        within(unit_spec(v, root(dot_spec(v, v))), ONE as int),
{
    let (x, y, z) = (v.x as int, v.y as int, v.z as int);
    let d = dot_spec(v, v);
    assert(x * x >= 0 && y * y >= 0 && z * z >= 0) by (nonlinear_arith);
    lemma_root_exists(d);
    let l = root(d);
    assert(x != 0 ==> x * x > 0) by (nonlinear_arith);
    assert(y != 0 ==> y * y > 0) by (nonlinear_arith);
    assert(z != 0 ==> z * z > 0) by (nonlinear_arith);
    assert(l >= 1) by (nonlinear_arith)
        requires d >= 1, d < (l + 1) * (l + 1), l >= 0;
    lemma_unit_comp_bounds(x, l);
    lemma_unit_comp_bounds(y, l);
    lemma_unit_comp_bounds(z, l);
}

proof fn lemma_unit_comp_nonzero(a: int, len: int)
    requires
        len >= 1,
        a != 0,
        len * len <= 3 * (a * a),
    ensures
        unit_comp(a, len) != 0,
{
    let k = ONE as int;
    assert(len <= 2 * a || len <= -2 * a) by (nonlinear_arith)
        requires len * len <= 3 * (a * a), len >= 1, a != 0;
    if a > 0 {
        assert((a * k) / len >= 1) by (nonlinear_arith)
            requires len <= 2 * a, a > 0, len >= 1, k == 4096;
    } else {
        assert((a * k) / len <= -1) by (nonlinear_arith)
            requires a < 0, len >= 1, k == 4096;
    }
}

impl Vec3 {
    pub fn new(x: i64, y: i64, z: i64) -> (r: Vec3)
        ensures
            r == (Vec3 { x, y, z }),
    {
        Vec3 { x, y, z }
    }

    pub fn add(&self, o: &Vec3) -> (r: Vec3)
        requires
            bounded(*self),
            bounded(*o),
        ensures
            r == vadd(*self, *o),
    {
        Vec3 { x: self.x + o.x, y: self.y + o.y, z: self.z + o.z }
    }

    pub fn sub(&self, o: &Vec3) -> (r: Vec3)
        requires
            bounded(*self),
            bounded(*o),
        ensures
            r == vsub(*self, *o),
    {
        Vec3 { x: self.x - o.x, y: self.y - o.y, z: self.z - o.z }
    }

    pub fn neg(&self) -> (r: Vec3)
        requires
            bounded(*self),
        ensures
            r == vneg(*self),
    {
        Vec3 { x: -self.x, y: -self.y, z: -self.z }
    }

    pub fn dot(&self, o: &Vec3) -> (r: i128)
        requires
            bounded(*self),
            bounded(*o),
        ensures
            r == dot_spec(*self, *o),
    {
        let (ax, ay, az) = (self.x as i128, self.y as i128, self.z as i128);
        let (bx, by, bz) = (o.x as i128, o.y as i128, o.z as i128);
        let b = BOUND as i128;
        assert(-b * b <= ax * bx <= b * b) by (nonlinear_arith)
            requires -b <= ax <= b, -b <= bx <= b, b == 0x1000_0000;
        assert(-b * b <= ay * by <= b * b) by (nonlinear_arith)
            requires -b <= ay <= b, -b <= by <= b, b == 0x1000_0000;
        assert(-b * b <= az * bz <= b * b) by (nonlinear_arith)
            requires -b <= az <= b, -b <= bz <= b, b == 0x1000_0000;
        ax * bx + ay * by + az * bz
    }

    pub fn length_squared(&self) -> (r: i128)
        requires
            bounded(*self),
        ensures
            r == dot_spec(*self, *self),
            r >= 0,
            is_zero(*self) <==> r == 0,
            r <= 3 * (BOUND as int) * (BOUND as int),
    {
        let r = self.dot(self);
        proof {
            let (x, y, z) = (self.x as int, self.y as int, self.z as int);
            let b = BOUND as int;
            assert(0 <= x * x <= b * b) by (nonlinear_arith) requires -b <= x <= b;
            assert(0 <= y * y <= b * b) by (nonlinear_arith) requires -b <= y <= b;
            assert(0 <= z * z <= b * b) by (nonlinear_arith) requires -b <= z <= b;
            assert(x != 0 ==> x * x > 0) by (nonlinear_arith);
            assert(y != 0 ==> y * y > 0) by (nonlinear_arith);
            assert(z != 0 ==> z * z > 0) by (nonlinear_arith);
            assert(x == 0 ==> x * x == 0) by (nonlinear_arith);
            assert(y == 0 ==> y * y == 0) by (nonlinear_arith);
            assert(z == 0 ==> z * z == 0) by (nonlinear_arith);
        }
        r
    }

    /// The length: the integer square root of the squared length, in fixed point.
    pub fn length(&self) -> (r: i64)
        requires
            bounded(*self),
        ensures
            r == root(dot_spec(*self, *self)),
    {
        isqrt(self.length_squared() as u128) as i64
    }

    /// Fixed-point cross product, rounded down.
    pub fn cross(&self, o: &Vec3) -> (r: Vec3)
        requires
            within(*self, ONE as int),
            within(*o, ONE as int),
        ensures
            r == cross_spec(*self, *o),
    {
        let (ax, ay, az) = (self.x as i128, self.y as i128, self.z as i128);
        let (bx, by, bz) = (o.x as i128, o.y as i128, o.z as i128);
        proof {
            let k = ONE as int;
            assert forall|p: int, q: int, s: int, t: int|
                -k <= p <= k && -k <= q <= k && -k <= s <= k && -k <= t <= k
                implies -2 * k <= #[trigger] ((p * q - s * t) / k) <= 2 * k by {
                assert(-2 * k <= (p * q - s * t) / k <= 2 * k) by (nonlinear_arith)
                    requires -k <= p <= k, -k <= q <= k, -k <= s <= k, -k <= t <= k, k == 4096;
            }
            assert(-k * k <= ay * bz <= k * k) by (nonlinear_arith) requires -k <= ay <= k, -k <= bz <= k;
            assert(-k * k <= az * by <= k * k) by (nonlinear_arith) requires -k <= az <= k, -k <= by <= k;
            assert(-k * k <= az * bx <= k * k) by (nonlinear_arith) requires -k <= az <= k, -k <= bx <= k;
            assert(-k * k <= ax * bz <= k * k) by (nonlinear_arith) requires -k <= ax <= k, -k <= bz <= k;
            assert(-k * k <= ax * by <= k * k) by (nonlinear_arith) requires -k <= ax <= k, -k <= by <= k;
            assert(-k * k <= ay * bx <= k * k) by (nonlinear_arith) requires -k <= ay <= k, -k <= bx <= k;
        }
        let one = ONE as i128;
        let x = div_floor(ay * bz - az * by, one);
        let y = div_floor(az * bx - ax * bz, one);
        let z = div_floor(ax * by - ay * bx, one);
        Vec3 { x: x as i64, y: y as i64, z: z as i64 }
    }

    /// Fixed-point multiple `t * self`, rounded down.
    pub fn scale(&self, t: i64) -> (r: Vec3)
        requires
            bounded(*self),
            -BOUND <= t <= BOUND,
        ensures
            r == vscale(t as int, *self),
    {
        Vec3 { x: scale_comp(t, self.x), y: scale_comp(t, self.y), z: scale_comp(t, self.z) }
    }

    /// Component-wise fixed-point product, as for attenuating a color.
    pub fn mul(&self, o: &Vec3) -> (r: Vec3)
        requires
            bounded(*self),
            bounded(*o),
        ensures
            r == vmul(*self, *o),
    {
        Vec3 { x: scale_comp(self.x, o.x), y: scale_comp(self.y, o.y), z: scale_comp(self.z, o.z) }
    }

    /// No component reaches one raw unit in magnitude.
    pub fn near_zero(&self) -> (r: bool)
        ensures
            r == is_zero(*self),
    {
        -1 < self.x && self.x < 1 && -1 < self.y && self.y < 1 && -1 < self.z && self.z < 1
    }

    /// The direction of a non-zero vector, with components in `[-ONE, ONE]`.
    pub fn unit_vector(&self) -> (r: Vec3)
        requires
            bounded(*self),
            !is_zero(*self),
        ensures
            r == unit_spec(*self, root(dot_spec(*self, *self))),
            root(dot_spec(*self, *self)) >= 1,
            within(r, ONE as int),
            !is_zero(r),
    {
        let n = self.length_squared();
        let s = isqrt(n as u128);
        let len = s as i128;
        let ghost d = dot_spec(*self, *self);
        assert(d == n as int);
        proof {
            let (x, y, z) = (self.x as int, self.y as int, self.z as int);
            let l = len as int;
            assert(x * x >= 0 && y * y >= 0 && z * z >= 0) by (nonlinear_arith);
            assert(l >= 1) by (nonlinear_arith)
                requires d >= 1, d < (l + 1) * (l + 1), l >= 0;
            assert(x * x < (l + 1) * (l + 1));
            assert(y * y < (l + 1) * (l + 1));
            assert(z * z < (l + 1) * (l + 1));
            lemma_unit_comp_bounds(x, l);
            lemma_unit_comp_bounds(y, l);
            lemma_unit_comp_bounds(z, l);
            if x * x >= y * y && x * x >= z * z {
                lemma_unit_comp_nonzero(x, l);
            } else if y * y >= z * z {
                assert(y != 0) by (nonlinear_arith) requires y * y > x * x, x * x >= 0;
                lemma_unit_comp_nonzero(y, l);
            } else {
                assert(z != 0) by (nonlinear_arith) requires z * z > y * y, y * y >= 0;
                lemma_unit_comp_nonzero(z, l);
            }
        }
        let one = ONE as i128;
        let x = div_floor(self.x as i128 * one, len);
        let y = div_floor(self.y as i128 * one, len);
        let z = div_floor(self.z as i128 * one, len);
        let r = Vec3 { x: x as i64, y: y as i64, z: z as i64 };
        r
    }
}

/// Raw fixed-point product of two bounded raw values.
fn scale_comp(t: i64, c: i64) -> (r: i64)
    requires
        -BOUND <= t <= BOUND,
        -BOUND <= c <= BOUND,
    ensures
        r == fmul(t as int, c as int),
{
    let b = BOUND as i128;
    let (ti, ci) = (t as i128, c as i128);
    assert(-b * b <= ti * ci <= b * b) by (nonlinear_arith)
        requires -b <= ti <= b, -b <= ci <= b, b == 0x1000_0000;
    let q = div_floor(ti * ci, ONE as i128);
    assert(-b * b / 4096 <= q <= b * b / 4096) by (nonlinear_arith)
        requires q == (ti * ci) / 4096, -b * b <= ti * ci <= b * b, b == 0x1000_0000;
    q as i64
}

} // verus!
