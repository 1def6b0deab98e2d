//! Fixed-point plane geometry: positions, direction vectors, integer square
//! roots and normalisation.

use vstd::prelude::*;

verus! {

/// Sub-pixel steps per pixel: a coordinate of `SUBPIXELS` is one pixel.
pub const SUBPIXELS: i64 = 1000;

/// Pixels along one edge of a map tile.
pub const TILE_PIXELS: i64 = 10;

/// Sub-pixel steps along one edge of a map tile.
pub const TILE_SUBPIXELS: i64 = 10000;

/// The length of a unit direction vector.
pub const DIR_ONE: i64 = 65536;

/// Bound on the magnitude of each coordinate of a position.
pub const COORD_LIMIT: i64 = 100_000_000_000_000;

/// Bound on the magnitude of each component of a difference of positions.
pub const VEC_LIMIT: i64 = 2_000_000_000_000_000;

/// A point or vector in the plane, in sub-pixel units.
#[derive(Clone, Copy, Debug, PartialEq, Eq, Structural)]
pub struct Vec2 {
    pub x: i64,
    pub y: i64,
}

/// `a / b` rounded toward zero, as machine division does it.
pub open spec fn trunc_div(a: int, b: int) -> int {
    if a >= 0 {
        a / b
    } else {
        -((-a) / b)
    }
}

pub open spec fn is_floor_sqrt(n: int, r: int) -> bool {
    0 <= r && r * r <= n && n < (r + 1) * (r + 1)
}

/// The largest natural number whose square is at most `n`.
pub open spec fn floor_sqrt(n: nat) -> nat {
    choose|r: nat| is_floor_sqrt(n as int, r as int)
}

/// The squared length of `(x, y)`.
pub open spec fn sq_len(x: int, y: int) -> int {
    x * x + y * y
}

pub open spec fn vec_in_range(v: Vec2) -> bool {
    -VEC_LIMIT <= v.x <= VEC_LIMIT && -VEC_LIMIT <= v.y <= VEC_LIMIT
}

pub open spec fn pos_in_range(v: Vec2) -> bool {
    -COORD_LIMIT <= v.x <= COORD_LIMIT && -COORD_LIMIT <= v.y <= COORD_LIMIT
}

/// One component of `v` rescaled so that `v` gets length `len`, rounded
/// toward zero; the zero vector stays zero.
pub open spec fn normalized_comp(c: int, v: Vec2, len: int) -> int {
    if v.x == 0 && v.y == 0 {
        0
    } else {
        trunc_div(c * len, floor_sqrt(sq_len(v.x as int, v.y as int) as nat) as int)
    }
}

proof fn lemma_floor_sqrt_unique(n: int, r1: int, r2: int)
    requires
        is_floor_sqrt(n, r1),
        is_floor_sqrt(n, r2),
    ensures
        r1 == r2,
{
    if r1 < r2 {
        assert((r1 + 1) * (r1 + 1) <= r2 * r2) by (nonlinear_arith)
            requires
                0 <= r1,
                r1 + 1 <= r2,
        ;
    } else if r2 < r1 {
        assert((r2 + 1) * (r2 + 1) <= r1 * r1) by (nonlinear_arith)
            requires
                0 <= r2,
                r2 + 1 <= r1,
        ;
    }
}

pub proof fn lemma_floor_sqrt_is(n: int, r: int)
    requires
        is_floor_sqrt(n, r),
    ensures
        floor_sqrt(n as nat) == r,
{
    let rn: nat = r as nat;
    assert(is_floor_sqrt(n as nat as int, rn as int));
    let c = floor_sqrt(n as nat);
    assert(is_floor_sqrt(n, c as int));
    lemma_floor_sqrt_unique(n, r, c as int);
}

proof fn lemma_bounded_by_root(c: int, r: int)
    requires
        r >= 0,
        c * c < (r + 1) * (r + 1),
    ensures
        -r <= c <= r,
{
    if c > r {
        assert((r + 1) * (r + 1) <= c * c) by (nonlinear_arith)
            requires
                r >= 0,
                c >= r + 1,
        ;
    }
    if c < -r {
        assert((r + 1) * (r + 1) <= c * c) by (nonlinear_arith)
            requires
                r >= 0,
                -c >= r + 1,
        ;
    }
}

/// A component is at most the floor square root of the squared length.
proof fn lemma_comp_le_root(a: int, b: int, r: int)
    requires
        is_floor_sqrt(sq_len(a, b), r),
    ensures
        -r <= a <= r,
        -r <= b <= r,
{
    assert(a * a <= sq_len(a, b) && b * b <= sq_len(a, b)) by (nonlinear_arith);
    lemma_bounded_by_root(a, r);
    lemma_bounded_by_root(b, r);
}

/// The floor square root of `n`.
pub fn isqrt(n: u128) -> (r: u128)
    ensures
        r as nat == floor_sqrt(n as nat),
        is_floor_sqrt(n as int, r as int),
{
    let mut lo: u128 = 0;
    let mut hi: u128 = 0x1_0000_0000_0000_0000;
    assert(n < hi * hi) by (nonlinear_arith)
        requires
            hi == 0x1_0000_0000_0000_0000u128,
            n <= u128::MAX,
    ;
    while hi - lo > 1
        invariant
            lo < hi <= 0x1_0000_0000_0000_0000u128,
            lo * lo <= n,
            n < hi * hi,
        decreases hi - lo,
    {
        let mid: u128 = lo + (hi - lo) / 2;
        assert(mid * mid <= 0xFFFF_FFFF_FFFF_FFFE_0000_0000_0000_0001u128) by (nonlinear_arith)
            requires
                mid < 0x1_0000_0000_0000_0000u128,
        ;
        if mid * mid <= n {
            lo = mid;
        } else {
            hi = mid;
        }
    }
    assert(hi == lo + 1);
    proof {
        lemma_floor_sqrt_is(n as int, lo as int);
    }
    lo
}

/// `v` rescaled to length `len`, each component rounded toward zero; the zero
/// vector is returned unchanged.
pub fn normalize(v: Vec2, len: i64) -> (r: Vec2)
    requires
        vec_in_range(v),
        0 <= len <= VEC_LIMIT,
    ensures
        r.x == normalized_comp(v.x as int, v, len as int),
        r.y == normalized_comp(v.y as int, v, len as int),
        -len <= r.x <= len,
        -len <= r.y <= len,
{
    if v.x == 0 && v.y == 0 {
        return v;
    }
    let ax: u128 = if v.x >= 0 { v.x as u128 } else { (-v.x) as u128 };
    let ay: u128 = if v.y >= 0 { v.y as u128 } else { (-v.y) as u128 };
    assert(ax * ax <= 0x40_0000_0000_0000_0000_0000_0000u128) by (nonlinear_arith)
        requires
            0 <= ax <= 2_000_000_000_000_000u128,
    ;
    assert(ay * ay <= 0x40_0000_0000_0000_0000_0000_0000u128) by (nonlinear_arith)
        requires
            0 <= ay <= 2_000_000_000_000_000u128,
    ;
    let sq: u128 = ax * ax + ay * ay;
    assert(sq == sq_len(v.x as int, v.y as int)) by (nonlinear_arith)
        requires
            ax == v.x || ax == -v.x,
            ay == v.y || ay == -v.y,
            sq == ax * ax + ay * ay,
    ;
    let root = isqrt(sq);
    proof {
        lemma_comp_le_root(v.x as int, v.y as int, root as int);
        assert(sq > 0) by (nonlinear_arith)
            requires
                sq == sq_len(v.x as int, v.y as int),
                v.x != 0 || v.y != 0,
        ;
        assert(root > 0) by (nonlinear_arith)
            requires
                is_floor_sqrt(sq as int, root as int),
                sq > 0,
        ;
    }
    let rx = scale_comp(v.x, len, root);
    let ry = scale_comp(v.y, len, root);
    Vec2 { x: rx, y: ry }
}

/// `c * len / root`, rounded toward zero, where `|c| <= root`.
fn scale_comp(c: i64, len: i64, root: u128) -> (r: i64)
    requires
        -VEC_LIMIT <= c <= VEC_LIMIT,
        0 <= len <= VEC_LIMIT,
        0 < root,
        -root <= c <= root,
    ensures
        r == trunc_div(c * len, root as int),
        -len <= r <= len,
{
    let a: u128 = if c >= 0 { c as u128 } else { (-c) as u128 };
    assert(a * (len as u128) <= 0x40_0000_0000_0000_0000_0000_0000u128) by (nonlinear_arith)
        requires
            0 <= a <= 2_000_000_000_000_000u128,
            len <= 2_000_000_000_000_000i64,
            len >= 0,
    ;
    let num: u128 = a * (len as u128);
    let q: u128 = num / root;
    proof {
        let l: int = len as int;
        let rt: int = root as int;
        let ai: int = a as int;
        assert(ai * l <= l * rt) by (nonlinear_arith)
            requires
                ai <= rt,
                l >= 0,
        ;
        assert(num == ai * l);
        vstd::arithmetic::div_mod::lemma_div_is_ordered(num as int, l * rt, rt);
        vstd::arithmetic::div_mod::lemma_div_by_multiple(l, rt);
        if c < 0 {
            assert(-(c * len) == a * len) by (nonlinear_arith)
                requires
                    a == -c,
            ;
            assert(c * len <= 0) by (nonlinear_arith)
                requires
                    c < 0,
                    len >= 0,
            ;
        } else {
            assert(c * len >= 0) by (nonlinear_arith)
                requires
                    c >= 0,
                    len >= 0,
            ;
        }
    }
    if c >= 0 {
        q as i64
    } else {
        -(q as i64)
    }
}

} // verus!
