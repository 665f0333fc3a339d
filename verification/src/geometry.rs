//! Integer geometry: angles, the sine table, wrapping and distances.

use vstd::prelude::*;
use vstd::arithmetic::div_mod::{lemma_fundamental_div_mod, lemma_fundamental_div_mod_converse};
use crate::components::{Vec2, COORD_LIMIT, FULL_TURN, SPEED_LIMIT};

verus! {

/// The value that stands for 1 in a sine or a cosine.
pub const TRIG_UNIT: i64 = 1_000_000;

/// The sine of `d` whole degrees, for `d` from 0 to 90, in millionths,
/// rounded to the nearest.
#[verifier::opaque]
pub open spec fn quarter_sine(d: int) -> int {
    if d == 0 {
        0
    } else if d == 1 {
        17452
    } else if d == 2 {
        34899
    } else if d == 3 {
        52336
    } else if d == 4 {
        69756
    } else if d == 5 {
        87156
    } else if d == 6 {
        104528
    } else if d == 7 {
        121869
    } else if d == 8 {
        139173
    } else if d == 9 {
        156434
    } else if d == 10 {
        173648
    } else if d == 11 {
        190809
    } else if d == 12 {
        207912
    } else if d == 13 {
        224951
    } else if d == 14 {
        241922
    } else if d == 15 {
        258819
    } else if d == 16 {
        275637
    } else if d == 17 {
        292372
    } else if d == 18 {
        309017
    } else if d == 19 {
        325568
    } else if d == 20 {
        342020
    } else if d == 21 {
        358368
    } else if d == 22 {
        374607
    } else if d == 23 {
        390731
    } else if d == 24 {
        406737
    } else if d == 25 {
        422618
    } else if d == 26 {
        438371
    } else if d == 27 {
        453990
    } else if d == 28 {
        469472
    } else if d == 29 {
        484810
    } else if d == 30 {
        500000
    } else if d == 31 {
        515038
    } else if d == 32 {
        529919
    } else if d == 33 {
        544639
    } else if d == 34 {
        559193
    } else if d == 35 {
        573576
    } else if d == 36 {
        587785
    } else if d == 37 {
        601815
    } else if d == 38 {
        615661
    } else if d == 39 {
        629320
    } else if d == 40 {
        642788
    } else if d == 41 {
        656059
    } else if d == 42 {
        669131
    } else if d == 43 {
        681998
    } else if d == 44 {
        694658
    } else if d == 45 {
        707107
    } else if d == 46 {
        719340
    } else if d == 47 {
        731354
    } else if d == 48 {
        743145
    } else if d == 49 {
        754710
    } else if d == 50 {
        766044
    } else if d == 51 {
        777146
    } else if d == 52 {
        788011
    } else if d == 53 {
        798636
    } else if d == 54 {
        809017
    } else if d == 55 {
        819152
    } else if d == 56 {
        829038
    } else if d == 57 {
        838671
    } else if d == 58 {
        848048
    } else if d == 59 {
        857167
    } else if d == 60 {
        866025
    } else if d == 61 {
        874620
    } else if d == 62 {
        882948
    } else if d == 63 {
        891007
    } else if d == 64 {
        898794
    } else if d == 65 {
        906308
    } else if d == 66 {
        913545
    } else if d == 67 {
        920505
    } else if d == 68 {
        927184
    } else if d == 69 {
        933580
    } else if d == 70 {
        939693
    } else if d == 71 {
        945519
    } else if d == 72 {
        951057
    } else if d == 73 {
        956305
    } else if d == 74 {
        961262
    } else if d == 75 {
        965926
    } else if d == 76 {
        970296
    } else if d == 77 {
        974370
    } else if d == 78 {
        978148
    } else if d == 79 {
        981627
    } else if d == 80 {
        984808
    } else if d == 81 {
        987688
    } else if d == 82 {
        990268
    } else if d == 83 {
        992546
    } else if d == 84 {
        994522
    } else if d == 85 {
        996195
    } else if d == 86 {
        997564
    } else if d == 87 {
        998630
    } else if d == 88 {
        999391
    } else if d == 89 {
        999848
    } else {
        1_000_000
    }
}

/// The sine of `d` whole degrees, for `d` from 0 to 360, in millionths.
pub open spec fn whole_sine(d: int) -> int {
    if d <= 90 {
        quarter_sine(d)
    } else if d <= 180 {
        quarter_sine(180 - d)
    } else if d <= 270 {
        -quarter_sine(d - 180)
    } else {
        -quarter_sine(360 - d)
    }
}

/// The sine of the angle `rot`, given in thousandths of a degree within one
/// turn, in millionths: the table entry at a whole degree, and between two
/// whole degrees the value on the straight line between their entries,
/// rounded toward the lower degree's entry. That line is nowhere further
/// than 39 millionths from the sine.
pub open spec fn sine(rot: int) -> int {
    let d = rot / 1000;
    whole_sine(d) + trunc_div((whole_sine(d + 1) - whole_sine(d)) * (rot % 1000), 1000)
}

/// The cosine of the angle `rot`: the sine a quarter turn further on.
pub open spec fn cosine(rot: int) -> int {
    sine((rot + 90_000) % 360_000)
}

/// Where `x` lies on a torus of circumference `extent`: `x` less the
/// largest multiple of `extent` that is not above it.
pub open spec fn wrapped(x: int, extent: int) -> int {
    x % extent
}

/// The quotient of `a` by a positive `b`, rounded toward zero.
pub open spec fn trunc_div(a: int, b: int) -> int {
    if a >= 0 {
        a / b
    } else {
        -((-a) / b)
    }
}

/// `r` is the least natural number whose square reaches `n`.
pub open spec fn is_ceil_sqrt(n: int, r: int) -> bool {
    &&& 0 <= r
    &&& r * r >= n
    &&& r == 0 || (r - 1) * (r - 1) < n
}

/// The square root of `n`, rounded up.
pub open spec fn ceil_sqrt(n: int) -> int {
    choose|r: int| is_ceil_sqrt(n, r)
}

/// The square of the distance between two points.
pub open spec fn dist_sq(ax: int, ay: int, bx: int, by: int) -> int {
    (ax - bx) * (ax - bx) + (ay - by) * (ay - by)
}

/// How far an entity moves along x in one tick at `speed` on heading `rot`.
pub open spec fn step_x(speed: int, rot: int) -> int {
    trunc_div(speed * sine(rot), TRIG_UNIT as int)
}

/// How far an entity moves along y in one tick at `speed` on heading `rot`;
/// y grows downward, so heading 0 moves up.
pub open spec fn step_y(speed: int, rot: int) -> int {
    -trunc_div(speed * cosine(rot), TRIG_UNIT as int)
}

/// `v` rescaled to length `max` where it is longer, each component rounded
/// toward zero.
pub open spec fn clamped(v: Vec2, max: int) -> Vec2 {
    let n = v.x * v.x + v.y * v.y;
    if n > max * max {
        Vec2 {
            x: trunc_div(v.x * max, ceil_sqrt(n)) as i64,
            y: trunc_div(v.y * max, ceil_sqrt(n)) as i64,
        }
    } else {
        v
    }
}

fn quarter_sine_exec(d: i64) -> (r: i64)
    requires
        0 <= d <= 90,
    ensures
        r == quarter_sine(d as int),
        0 <= r <= TRIG_UNIT,
{
    reveal(quarter_sine);
    match d {
        0 => 0,
        1 => 17452,
        2 => 34899,
        3 => 52336,
        4 => 69756,
        5 => 87156,
        6 => 104528,
        7 => 121869,
        8 => 139173,
        9 => 156434,
        10 => 173648,
        11 => 190809,
        12 => 207912,
        13 => 224951,
        14 => 241922,
        15 => 258819,
        16 => 275637,
        17 => 292372,
        18 => 309017,
        19 => 325568,
        20 => 342020,
        21 => 358368,
        22 => 374607,
        23 => 390731,
        24 => 406737,
        25 => 422618,
        26 => 438371,
        27 => 453990,
        28 => 469472,
        29 => 484810,
        30 => 500000,
        31 => 515038,
        32 => 529919,
        33 => 544639,
        34 => 559193,
        35 => 573576,
        36 => 587785,
        37 => 601815,
        38 => 615661,
        39 => 629320,
        40 => 642788,
        41 => 656059,
        42 => 669131,
        43 => 681998,
        44 => 694658,
        45 => 707107,
        46 => 719340,
        47 => 731354,
        48 => 743145,
        49 => 754710,
        50 => 766044,
        51 => 777146,
        52 => 788011,
        53 => 798636,
        54 => 809017,
        55 => 819152,
        56 => 829038,
        57 => 838671,
        58 => 848048,
        59 => 857167,
        60 => 866025,
        61 => 874620,
        62 => 882948,
        63 => 891007,
        64 => 898794,
        65 => 906308,
        66 => 913545,
        67 => 920505,
        68 => 927184,
        69 => 933580,
        70 => 939693,
        71 => 945519,
        72 => 951057,
        73 => 956305,
        74 => 961262,
        75 => 965926,
        76 => 970296,
        77 => 974370,
        78 => 978148,
        79 => 981627,
        80 => 984808,
        81 => 987688,
        82 => 990268,
        83 => 992546,
        84 => 994522,
        85 => 996195,
        86 => 997564,
        87 => 998630,
        88 => 999391,
        89 => 999848,
        _ => 1_000_000,
    }
}

/// The sine of `rot` in millionths.
pub fn sine_of(rot: i64) -> (r: i64)
    requires
        0 <= rot < FULL_TURN,
    ensures
        r == sine(rot as int),
        -TRIG_UNIT <= r <= TRIG_UNIT,
{
    let d: i64 = rot / 1000;
    let f: i64 = rot % 1000;
    let low: i64 = whole_sine_of(d);
    let high: i64 = whole_sine_of(d + 1);
    proof {
        lemma_interpolated(low as int, high as int, f as int);
    }
    low + (high - low) * f / 1000
}

/// The sine of `d` whole degrees in millionths.
fn whole_sine_of(d: i64) -> (r: i64)
    requires
        0 <= d <= 360,
    ensures
        r == whole_sine(d as int),
        -TRIG_UNIT <= r <= TRIG_UNIT,
{
    if d <= 90 {
        quarter_sine_exec(d)
    } else if d <= 180 {
        quarter_sine_exec(180 - d)
    } else if d <= 270 {
        -quarter_sine_exec(d - 180)
    } else {
        -quarter_sine_exec(360 - d)
    }
}

/// A value on the line from `a` to `b`, `f` thousandths of the way, lies
/// between the two, and is `a` at the start.
pub proof fn lemma_interpolated(a: int, b: int, f: int)
    requires
        0 <= f < 1000,
    ensures
        a <= b ==> a <= a + trunc_div((b - a) * f, 1000) <= b,
        b <= a ==> b <= a + trunc_div((b - a) * f, 1000) <= a,
        f == 0 ==> a + trunc_div((b - a) * f, 1000) == a,
        -2_000_000 <= b - a <= 2_000_000 ==> -2_000_000_000 <= (b - a) * f <= 2_000_000_000,
{
    let d = b - a;
    if d >= 0 {
        assert(0 <= d * f <= d * 1000) by (nonlinear_arith)
            requires
                0 <= d,
                0 <= f < 1000,
        ;
    } else {
        assert(0 <= (-d) * f <= (-d) * 1000 && d * f == -((-d) * f)) by (nonlinear_arith)
            requires
                d < 0,
                0 <= f < 1000,
        ;
    }
    assert(d * 0 == 0);
    assert(-2_000_000 <= d <= 2_000_000 ==> -2_000_000_000 <= d * f <= 2_000_000_000)
        by (nonlinear_arith)
        requires
            0 <= f < 1000,
    ;
}

/// The cosine of `rot` in millionths.
pub fn cosine_of(rot: i64) -> (r: i64)
    requires
        0 <= rot < FULL_TURN,
    ensures
        r == cosine(rot as int),
        -TRIG_UNIT <= r <= TRIG_UNIT,
{
    sine_of((rot + 90_000) % 360_000)
}

/// `x` brought into `[0, extent)` by whole multiples of `extent`: the
/// position on a torus of that circumference.
pub fn wrap(x: i64, extent: i64) -> (r: i64)
    requires
        0 < extent,
    ensures
        r == wrapped(x as int, extent as int),
        0 <= r < extent,
{
    let m: i64 = x % extent;
    proof {
        if x < 0 {
            let n = -(x as int);
            let e = extent as int;
            lemma_fundamental_div_mod(n, e);
            if n % e == 0 {
                assert(x as int == e * (-(n / e)) + 0) by (nonlinear_arith)
                    requires
                        n == e * (n / e) + n % e,
                        n % e == 0,
                        n == -(x as int),
                ;
                lemma_fundamental_div_mod_converse(x as int, e, -(n / e), 0);
            } else {
                assert(x as int == e * (-(n / e) - 1) + (e - n % e)) by (nonlinear_arith)
                    requires
                        n == e * (n / e) + n % e,
                        n == -(x as int),
                ;
                lemma_fundamental_div_mod_converse(x as int, e, -(n / e) - 1, e - n % e);
            }
        }
    }
    if m < 0 {
        m + extent
    } else {
        m
    }
}

/// An angle brought into one turn.
pub fn normalize_angle(rot: i64) -> (r: i64)
    ensures
        r == wrapped(rot as int, FULL_TURN as int),
        0 <= r < FULL_TURN,
{
    wrap(rot, FULL_TURN)
}

/// The displacement of one tick at `speed` on heading `rot`.
pub fn step(speed: i64, rot: i64) -> (d: (i64, i64))
    requires
        0 <= speed <= SPEED_LIMIT,
        0 <= rot < FULL_TURN,
    ensures
        d.0 == step_x(speed as int, rot as int),
        d.1 == step_y(speed as int, rot as int),
        -speed <= d.0 <= speed,
        -speed <= d.1 <= speed,
{
    let s: i64 = sine_of(rot);
    let c: i64 = cosine_of(rot);
    proof {
        lemma_scaled_bound(speed as int, s as int);
        lemma_scaled_bound(speed as int, c as int);
    }
    let dx: i64 = speed * s / TRIG_UNIT;
    let dy: i64 = -(speed * c / TRIG_UNIT);
    (dx, dy)
}

/// A speed times a sine stays within the speed once the scale is divided out.
proof fn lemma_scaled_bound(speed: int, t: int)
    requires
        0 <= speed <= SPEED_LIMIT,
        -TRIG_UNIT <= t <= TRIG_UNIT,
    ensures
        -1_000_000_000_000 <= speed * t <= 1_000_000_000_000,
        -speed <= trunc_div(speed * t, TRIG_UNIT as int) <= speed,
{
    assert(-speed * 1_000_000 <= speed * t <= speed * 1_000_000) by (nonlinear_arith)
        requires
            0 <= speed,
            -1_000_000 <= t <= 1_000_000,
    ;
}

/// The square root of `n`, rounded up.
pub fn isqrt_ceil(n: u64) -> (r: u64)
    requires
        n <= 1_000_000_000_000_000_000,
    ensures
        r == ceil_sqrt(n as int),
        is_ceil_sqrt(n as int, r as int),
        r <= 1_000_000_000,
{
    let mut lo: u64 = 0;
    let mut hi: u64 = 1_000_000_000;
    while lo < hi
        invariant
            lo <= hi <= 1_000_000_000,
            hi * hi >= n,
            lo == 0 || (lo - 1) * (lo - 1) < n,
        decreases hi - lo,
    {
        let mid: u64 = lo + (hi - lo) / 2;
        assert(mid * mid <= 1_000_000_000 * 1_000_000_000) by (nonlinear_arith)
            requires
                mid <= 1_000_000_000,
        ;
        if mid * mid >= n {
            hi = mid;
        } else {
            lo = mid + 1;
        }
    }
    proof {
        lemma_ceil_sqrt_unique(n as int, lo as int);
    }
    lo
}

/// A number has one rounded-up square root.
pub proof fn lemma_ceil_sqrt_unique(n: int, r: int)
    requires
        is_ceil_sqrt(n, r),
    ensures
        r == ceil_sqrt(n),
{
    let c = ceil_sqrt(n);
    if c < r {
        assert(c * c <= (r - 1) * (r - 1)) by (nonlinear_arith)
            requires
                0 <= c <= r - 1,
        ;
    }
    if r < c {
        assert(r * r <= (c - 1) * (c - 1)) by (nonlinear_arith)
            requires
                0 <= r <= c - 1,
        ;
    }
}

/// `v` cut back to length `max` where it is longer.
pub fn clamp_speed(v: Vec2, max: i64) -> (r: Vec2)
    requires
        -2 * SPEED_LIMIT <= v.x <= 2 * SPEED_LIMIT,
        -2 * SPEED_LIMIT <= v.y <= 2 * SPEED_LIMIT,
        0 <= max <= SPEED_LIMIT,
    ensures
        r == clamped(v, max as int),
        r.x * r.x + r.y * r.y <= max * max || r == v,
        v.x * v.x + v.y * v.y <= max * max ==> r == v,
        v.x * v.x + v.y * v.y > max * max ==> r.x * r.x + r.y * r.y <= max * max,
        -2 * SPEED_LIMIT <= r.x <= 2 * SPEED_LIMIT,
        -2 * SPEED_LIMIT <= r.y <= 2 * SPEED_LIMIT,
{
    assert(v.x * v.x <= 4_000_000_000_000 && v.y * v.y <= 4_000_000_000_000 && max * max
        <= 1_000_000_000_000 && v.x * v.x >= 0 && v.y * v.y >= 0) by (nonlinear_arith)
        requires
            -2_000_000 <= v.x <= 2_000_000,
            -2_000_000 <= v.y <= 2_000_000,
            0 <= max <= 1_000_000,
    ;
    let n: i64 = v.x * v.x + v.y * v.y;
    if n > max * max {
        let len: i64 = isqrt_ceil(n as u64) as i64;
        proof {
            lemma_rescale(v.x as int, v.y as int, max as int, len as int);
        }
        assert(-2_000_000_000_000 <= v.x * max <= 2_000_000_000_000 && -2_000_000_000_000 <= v.y
            * max <= 2_000_000_000_000) by (nonlinear_arith)
            requires
                -2_000_000 <= v.x <= 2_000_000,
                -2_000_000 <= v.y <= 2_000_000,
                0 <= max <= 1_000_000,
        ;
        Vec2 { x: v.x * max / len, y: v.y * max / len }
    } else {
        v
    }
}

/// Rescaling by `max / len`, with `len` at least the length of the vector,
/// gives a vector no longer than `max` and no component larger than before.
proof fn lemma_rescale(x: int, y: int, max: int, len: int)
    requires
        0 <= max,
        0 < len,
        len * len >= x * x + y * y,
        x * x + y * y > max * max,
    ensures
        ({
            let rx = trunc_div(x * max, len);
            let ry = trunc_div(y * max, len);
            &&& rx * rx + ry * ry <= max * max
            &&& (x >= 0 ==> 0 <= rx <= x)
            &&& (x <= 0 ==> x <= rx <= 0)
            &&& (y >= 0 ==> 0 <= ry <= y)
            &&& (y <= 0 ==> y <= ry <= 0)
        }),
{
    let rx = trunc_div(x * max, len);
    let ry = trunc_div(y * max, len);
    let ax = if x >= 0 { x } else { -x };
    let ay = if y >= 0 { y } else { -y };
    let qx = (ax * max) / len;
    let qy = (ay * max) / len;
    assert(x * max == if x >= 0 { ax * max } else { -(ax * max) }) by (nonlinear_arith)
        requires
            ax == if x >= 0 { x } else { -x },
    ;
    assert(y * max == if y >= 0 { ay * max } else { -(ay * max) }) by (nonlinear_arith)
        requires
            ay == if y >= 0 { y } else { -y },
    ;
    lemma_fundamental_div_mod(ax * max, len);
    lemma_fundamental_div_mod(ay * max, len);
    assert(max < len) by (nonlinear_arith)
        requires
            len * len > max * max,
            0 <= max,
            0 < len,
    ;
    assert(qx <= ax) by (nonlinear_arith)
        requires
            qx * len <= ax * max,
            max < len,
            0 <= max,
            0 <= qx,
            0 <= ax,
    ;
    assert(qy <= ay) by (nonlinear_arith)
        requires
            qy * len <= ay * max,
            max < len,
            0 <= max,
            0 <= qy,
            0 <= ay,
    ;
    assert((qx * len) * (qx * len) <= (ax * max) * (ax * max)) by (nonlinear_arith)
        requires
            0 <= qx * len <= ax * max,
    ;
    assert((qy * len) * (qy * len) <= (ay * max) * (ay * max)) by (nonlinear_arith)
        requires
            0 <= qy * len <= ay * max,
    ;
    assert((qx * len) * (qx * len) == (qx * qx) * (len * len)) by (nonlinear_arith);
    assert((qy * len) * (qy * len) == (qy * qy) * (len * len)) by (nonlinear_arith);
    assert((ax * max) * (ax * max) == (ax * ax) * (max * max)) by (nonlinear_arith);
    assert((ay * max) * (ay * max) == (ay * ay) * (max * max)) by (nonlinear_arith);
    assert((qx * qx + qy * qy) * (len * len) == (qx * qx) * (len * len) + (qy * qy) * (len * len))
        by (nonlinear_arith);
    assert((ax * ax + ay * ay) * (max * max) == (ax * ax) * (max * max) + (ay * ay) * (max * max))
        by (nonlinear_arith);
    assert(ax * ax + ay * ay == x * x + y * y) by (nonlinear_arith)
        requires
            ax == if x >= 0 { x } else { -x },
            ay == if y >= 0 { y } else { -y },
    ;
    assert(qx * qx + qy * qy <= max * max) by (nonlinear_arith)
        requires
            (qx * qx + qy * qy) * (len * len) <= (ax * ax + ay * ay) * (max * max),
            ax * ax + ay * ay <= len * len,
            0 < len,
            0 <= max,
            qx * qx + qy * qy >= 0,
    ;
    assert(rx * rx == qx * qx && ry * ry == qy * qy) by (nonlinear_arith)
        requires
            rx == qx || rx == -qx,
            ry == qy || ry == -qy,
    ;
}

/// Whether two points are less than `reach` apart.
pub fn within(ax: i64, ay: i64, bx: i64, by: i64, reach: u64) -> (r: bool)
    requires
        reach <= 10_000_000_000_000,
        -COORD_LIMIT <= ax <= COORD_LIMIT,
        -COORD_LIMIT <= ay <= COORD_LIMIT,
        -COORD_LIMIT <= bx <= COORD_LIMIT,
        -COORD_LIMIT <= by <= COORD_LIMIT,
    ensures
        r == (dist_sq(ax as int, ay as int, bx as int, by as int) < reach * reach),
{
    let dx: i128 = ax as i128 - bx as i128;
    let dy: i128 = ay as i128 - by as i128;
    let w: i128 = reach as i128;
    assert(0 <= dx * dx <= 4_000_000_000_000_000_000 && 0 <= dy * dy <= 4_000_000_000_000_000_000
        && 0 <= w * w <= 100_000_000_000_000_000_000_000_000) by (nonlinear_arith)
        requires
            -2_000_000_000 <= dx <= 2_000_000_000,
            -2_000_000_000 <= dy <= 2_000_000_000,
            0 <= w <= 10_000_000_000_000,
    ;
    dx * dx + dy * dy < w * w
}

/// Wrapping round trip. A wrapped coordinate lies on the axis. A point one
/// step past the far end comes back in by the length of the axis, one
/// before the near end by as much the other way, and a point on the axis
/// stays. Wrapping what was moved a whole axis either way gives the point
/// again, and a wrapped point differs from the point by a multiple of the
/// axis.
pub proof fn lemma_wrap_round_trip(x: int, extent: int)
    requires
        0 < extent,
    ensures
        0 <= wrapped(x, extent) < extent,
        extent <= x < 2 * extent ==> wrapped(x, extent) == x - extent,
        -extent <= x < 0 ==> wrapped(x, extent) == x + extent,
        0 <= x < extent ==> wrapped(x, extent) == x,
        wrapped(wrapped(x, extent) + extent, extent) == wrapped(x, extent),
        wrapped(wrapped(x, extent) - extent, extent) == wrapped(x, extent),
        wrapped(x + extent, extent) == wrapped(x, extent),
        wrapped(x - extent, extent) == wrapped(x, extent),
        (x - wrapped(x, extent)) % extent == 0,
{
    lemma_fundamental_div_mod(x, extent);
    let q = x / extent;
    let r = x % extent;
    if extent <= x < 2 * extent {
        lemma_fundamental_div_mod_converse(x, extent, 1, x - extent);
    }
    lemma_fundamental_div_mod_converse(r + extent, extent, 1, r);
    lemma_fundamental_div_mod_converse(r - extent, extent, -1, r);
    assert(x + extent == extent * (q + 1) + r) by (nonlinear_arith)
        requires
            x == extent * q + r,
    ;
    lemma_fundamental_div_mod_converse(x + extent, extent, q + 1, r);
    assert(x - extent == extent * (q - 1) + r) by (nonlinear_arith)
        requires
            x == extent * q + r,
    ;
    lemma_fundamental_div_mod_converse(x - extent, extent, q - 1, r);
    assert(x - r == q * extent + 0) by (nonlinear_arith)
        requires
            x == extent * q + r,
    ;
    lemma_fundamental_div_mod_converse(x - r, extent, q, 0);
}

/// The table between 0 and 22 degrees: the squares of the sine and of the
/// sine of the complement add up to the square of `TRIG_UNIT`, within what
/// rounding allows.
proof fn lemma_table_low(d: int)
    requires
        0 <= d <= 22,
    ensures
        -1_200_000 <= quarter_sine(d) * quarter_sine(d) + quarter_sine(90 - d) * quarter_sine(
            90 - d,
        ) - 1_000_000_000_000 <= 1_200_000,
{
    reveal(quarter_sine);
    let s = quarter_sine(d);
    let c = quarter_sine(90 - d);
    if d == 0 {
        assert(s == 0 && c == 1000000);
        assert(s * s + c * c == 1000000000000) by (nonlinear_arith)
            requires
                s == 0,
                c == 1000000,
        ;
    } else if d == 1 {
        assert(s == 17452 && c == 999848);
        assert(s * s + c * c == 1000000595408) by (nonlinear_arith)
            requires
                s == 17452,
                c == 999848,
        ;
    } else if d == 2 {
        assert(s == 34899 && c == 999391);
        assert(s * s + c * c == 1000000311082) by (nonlinear_arith)
            requires
                s == 34899,
                c == 999391,
        ;
    } else if d == 3 {
        assert(s == 52336 && c == 998630);
        assert(s * s + c * c == 1000000933796) by (nonlinear_arith)
            requires
                s == 52336,
                c == 998630,
        ;
    } else if d == 4 {
        assert(s == 69756 && c == 997564);
        assert(s * s + c * c == 999999833632) by (nonlinear_arith)
            requires
                s == 69756,
                c == 997564,
        ;
    } else if d == 5 {
        assert(s == 87156 && c == 996195);
        assert(s * s + c * c == 1000000646361) by (nonlinear_arith)
            requires
                s == 87156,
                c == 996195,
        ;
    } else if d == 6 {
        assert(s == 104528 && c == 994522);
        assert(s * s + c * c == 1000000111268) by (nonlinear_arith)
            requires
                s == 104528,
                c == 994522,
        ;
    } else if d == 7 {
        assert(s == 121869 && c == 992546);
        assert(s * s + c * c == 999999615277) by (nonlinear_arith)
            requires
                s == 121869,
                c == 992546,
        ;
    } else if d == 8 {
        assert(s == 139173 && c == 990268);
        assert(s * s + c * c == 999999835753) by (nonlinear_arith)
            requires
                s == 139173,
                c == 990268,
        ;
    } else if d == 9 {
        assert(s == 156434 && c == 987688);
        assert(s * s + c * c == 999999181700) by (nonlinear_arith)
            requires
                s == 156434,
                c == 987688,
        ;
    } else if d == 10 {
        assert(s == 173648 && c == 984808);
        assert(s * s + c * c == 1000000424768) by (nonlinear_arith)
            requires
                s == 173648,
                c == 984808,
        ;
    } else if d == 11 {
        assert(s == 190809 && c == 981627);
        assert(s * s + c * c == 999999641610) by (nonlinear_arith)
            requires
                s == 190809,
                c == 981627,
        ;
    } else if d == 12 {
        assert(s == 207912 && c == 978148);
        assert(s * s + c * c == 1000000909648) by (nonlinear_arith)
            requires
                s == 207912,
                c == 978148,
        ;
    } else if d == 13 {
        assert(s == 224951 && c == 974370);
        assert(s * s + c * c == 999999849301) by (nonlinear_arith)
            requires
                s == 224951,
                c == 974370,
        ;
    } else if d == 14 {
        assert(s == 241922 && c == 970296);
        assert(s * s + c * c == 1000000581700) by (nonlinear_arith)
            requires
                s == 241922,
                c == 970296,
        ;
    } else if d == 15 {
        assert(s == 258819 && c == 965926);
        assert(s * s + c * c == 1000000312237) by (nonlinear_arith)
            requires
                s == 258819,
                c == 965926,
        ;
    } else if d == 16 {
        assert(s == 275637 && c == 961262);
        assert(s * s + c * c == 1000000388413) by (nonlinear_arith)
            requires
                s == 275637,
                c == 961262,
        ;
    } else if d == 17 {
        assert(s == 292372 && c == 956305);
        assert(s * s + c * c == 1000000639409) by (nonlinear_arith)
            requires
                s == 292372,
                c == 956305,
        ;
    } else if d == 18 {
        assert(s == 309017 && c == 951057);
        assert(s * s + c * c == 1000000923538) by (nonlinear_arith)
            requires
                s == 309017,
                c == 951057,
        ;
    } else if d == 19 {
        assert(s == 325568 && c == 945519);
        assert(s * s + c * c == 1000000701985) by (nonlinear_arith)
            requires
                s == 325568,
                c == 945519,
        ;
    } else if d == 20 {
        assert(s == 342020 && c == 939693);
        assert(s * s + c * c == 1000000614649) by (nonlinear_arith)
            requires
                s == 342020,
                c == 939693,
        ;
    } else if d == 21 {
        assert(s == 358368 && c == 933580);
        assert(s * s + c * c == 999999239824) by (nonlinear_arith)
            requires
                s == 358368,
                c == 933580,
        ;
    } else if d == 22 {
        assert(s == 374607 && c == 927184);
        assert(s * s + c * c == 1000000574305) by (nonlinear_arith)
            requires
                s == 374607,
                c == 927184,
        ;
    }
}

/// The table between 23 and 45 degrees: the squares of the sine and of the
/// sine of the complement add up to the square of `TRIG_UNIT`, within what
/// rounding allows.
proof fn lemma_table_mid(d: int)
    requires
        23 <= d <= 45,
    ensures
        -1_200_000 <= quarter_sine(d) * quarter_sine(d) + quarter_sine(90 - d) * quarter_sine(
            90 - d,
        ) - 1_000_000_000_000 <= 1_200_000,
{
    reveal(quarter_sine);
    let s = quarter_sine(d);
    let c = quarter_sine(90 - d);
    if d == 23 {
        assert(s == 390731 && c == 920505);
        assert(s * s + c * c == 1000000169386) by (nonlinear_arith)
            requires
                s == 390731,
                c == 920505,
        ;
    } else if d == 24 {
        assert(s == 406737 && c == 913545);
        assert(s * s + c * c == 999999454194) by (nonlinear_arith)
            requires
                s == 406737,
                c == 913545,
        ;
    } else if d == 25 {
        assert(s == 422618 && c == 906308);
        assert(s * s + c * c == 1000000164788) by (nonlinear_arith)
            requires
                s == 422618,
                c == 906308,
        ;
    } else if d == 26 {
        assert(s == 438371 && c == 898794);
        assert(s * s + c * c == 999999788077) by (nonlinear_arith)
            requires
                s == 438371,
                c == 898794,
        ;
    } else if d == 27 {
        assert(s == 453990 && c == 891007);
        assert(s * s + c * c == 1000000394149) by (nonlinear_arith)
            requires
                s == 453990,
                c == 891007,
        ;
    } else if d == 28 {
        assert(s == 469472 && c == 882948);
        assert(s * s + c * c == 1000001129488) by (nonlinear_arith)
            requires
                s == 469472,
                c == 882948,
        ;
    } else if d == 29 {
        assert(s == 484810 && c == 874620);
        assert(s * s + c * c == 1000000880500) by (nonlinear_arith)
            requires
                s == 484810,
                c == 874620,
        ;
    } else if d == 30 {
        assert(s == 500000 && c == 866025);
        assert(s * s + c * c == 999999300625) by (nonlinear_arith)
            requires
                s == 500000,
                c == 866025,
        ;
    } else if d == 31 {
        assert(s == 515038 && c == 857167);
        assert(s * s + c * c == 999999407333) by (nonlinear_arith)
            requires
                s == 515038,
                c == 857167,
        ;
    } else if d == 32 {
        assert(s == 529919 && c == 848048);
        assert(s * s + c * c == 999999556865) by (nonlinear_arith)
            requires
                s == 529919,
                c == 848048,
        ;
    } else if d == 33 {
        assert(s == 544639 && c == 838671);
        assert(s * s + c * c == 1000000686562) by (nonlinear_arith)
            requires
                s == 544639,
                c == 838671,
        ;
    } else if d == 34 {
        assert(s == 559193 && c == 829038);
        assert(s * s + c * c == 1000000816693) by (nonlinear_arith)
            requires
                s == 559193,
                c == 829038,
        ;
    } else if d == 35 {
        assert(s == 573576 && c == 819152);
        assert(s * s + c * c == 999999426880) by (nonlinear_arith)
            requires
                s == 573576,
                c == 819152,
        ;
    } else if d == 36 {
        assert(s == 587785 && c == 809017);
        assert(s * s + c * c == 999999712514) by (nonlinear_arith)
            requires
                s == 587785,
                c == 809017,
        ;
    } else if d == 37 {
        assert(s == 601815 && c == 798636);
        assert(s * s + c * c == 1000000754721) by (nonlinear_arith)
            requires
                s == 601815,
                c == 798636,
        ;
    } else if d == 38 {
        assert(s == 615661 && c == 788011);
        assert(s * s + c * c == 999999803042) by (nonlinear_arith)
            requires
                s == 615661,
                c == 788011,
        ;
    } else if d == 39 {
        assert(s == 629320 && c == 777146);
        assert(s * s + c * c == 999999567716) by (nonlinear_arith)
            requires
                s == 629320,
                c == 777146,
        ;
    } else if d == 40 {
        assert(s == 642788 && c == 766044);
        assert(s * s + c * c == 999999822880) by (nonlinear_arith)
            requires
                s == 642788,
                c == 766044,
        ;
    } else if d == 41 {
        assert(s == 656059 && c == 754710);
        assert(s * s + c * c == 1000000595581) by (nonlinear_arith)
            requires
                s == 656059,
                c == 754710,
        ;
    } else if d == 42 {
        assert(s == 669131 && c == 743145);
        assert(s * s + c * c == 1000000786186) by (nonlinear_arith)
            requires
                s == 669131,
                c == 743145,
        ;
    } else if d == 43 {
        assert(s == 681998 && c == 731354);
        assert(s * s + c * c == 999999945320) by (nonlinear_arith)
            requires
                s == 681998,
                c == 731354,
        ;
    } else if d == 44 {
        assert(s == 694658 && c == 719340);
        assert(s * s + c * c == 999999772564) by (nonlinear_arith)
            requires
                s == 694658,
                c == 719340,
        ;
    } else if d == 45 {
        assert(s == 707107 && c == 707107);
        assert(s * s + c * c == 1000000618898) by (nonlinear_arith)
            requires
                s == 707107,
                c == 707107,
        ;
    }
}

/// The table between 46 and 68 degrees: the squares of the sine and of the
/// sine of the complement add up to the square of `TRIG_UNIT`, within what
/// rounding allows.
proof fn lemma_table_high(d: int)
    requires
        46 <= d <= 68,
    ensures
        -1_200_000 <= quarter_sine(d) * quarter_sine(d) + quarter_sine(90 - d) * quarter_sine(
            90 - d,
        ) - 1_000_000_000_000 <= 1_200_000,
{
    reveal(quarter_sine);
    let s = quarter_sine(d);
    let c = quarter_sine(90 - d);
    if d == 46 {
        assert(s == 719340 && c == 694658);
        assert(s * s + c * c == 999999772564) by (nonlinear_arith)
            requires
                s == 719340,
                c == 694658,
        ;
    } else if d == 47 {
        assert(s == 731354 && c == 681998);
        assert(s * s + c * c == 999999945320) by (nonlinear_arith)
            requires
                s == 731354,
                c == 681998,
        ;
    } else if d == 48 {
        assert(s == 743145 && c == 669131);
        assert(s * s + c * c == 1000000786186) by (nonlinear_arith)
            requires
                s == 743145,
                c == 669131,
        ;
    } else if d == 49 {
        assert(s == 754710 && c == 656059);
        assert(s * s + c * c == 1000000595581) by (nonlinear_arith)
            requires
                s == 754710,
                c == 656059,
        ;
    } else if d == 50 {
        assert(s == 766044 && c == 642788);
        assert(s * s + c * c == 999999822880) by (nonlinear_arith)
            requires
                s == 766044,
                c == 642788,
        ;
    } else if d == 51 {
        assert(s == 777146 && c == 629320);
        assert(s * s + c * c == 999999567716) by (nonlinear_arith)
            requires
                s == 777146,
                c == 629320,
        ;
    } else if d == 52 {
        assert(s == 788011 && c == 615661);
        assert(s * s + c * c == 999999803042) by (nonlinear_arith)
            requires
                s == 788011,
                c == 615661,
        ;
    } else if d == 53 {
        assert(s == 798636 && c == 601815);
        assert(s * s + c * c == 1000000754721) by (nonlinear_arith)
            requires
                s == 798636,
                c == 601815,
        ;
    } else if d == 54 {
        assert(s == 809017 && c == 587785);
        assert(s * s + c * c == 999999712514) by (nonlinear_arith)
            requires
                s == 809017,
                c == 587785,
        ;
    } else if d == 55 {
        assert(s == 819152 && c == 573576);
        assert(s * s + c * c == 999999426880) by (nonlinear_arith)
            requires
                s == 819152,
                c == 573576,
        ;
    } else if d == 56 {
        assert(s == 829038 && c == 559193);
        assert(s * s + c * c == 1000000816693) by (nonlinear_arith)
            requires
                s == 829038,
                c == 559193,
        ;
    } else if d == 57 {
        assert(s == 838671 && c == 544639);
        assert(s * s + c * c == 1000000686562) by (nonlinear_arith)
            requires
                s == 838671,
                c == 544639,
        ;
    } else if d == 58 {
        assert(s == 848048 && c == 529919);
        assert(s * s + c * c == 999999556865) by (nonlinear_arith)
            requires
                s == 848048,
                c == 529919,
        ;
    } else if d == 59 {
        assert(s == 857167 && c == 515038);
        assert(s * s + c * c == 999999407333) by (nonlinear_arith)
            requires
                s == 857167,
                c == 515038,
        ;
    } else if d == 60 {
        assert(s == 866025 && c == 500000);
        assert(s * s + c * c == 999999300625) by (nonlinear_arith)
            requires
                s == 866025,
                c == 500000,
        ;
    } else if d == 61 {
        assert(s == 874620 && c == 484810);
        assert(s * s + c * c == 1000000880500) by (nonlinear_arith)
            requires
                s == 874620,
                c == 484810,
        ;
    } else if d == 62 {
        assert(s == 882948 && c == 469472);
        assert(s * s + c * c == 1000001129488) by (nonlinear_arith)
            requires
                s == 882948,
                c == 469472,
        ;
    } else if d == 63 {
        assert(s == 891007 && c == 453990);
        assert(s * s + c * c == 1000000394149) by (nonlinear_arith)
            requires
                s == 891007,
                c == 453990,
        ;
    } else if d == 64 {
        assert(s == 898794 && c == 438371);
        assert(s * s + c * c == 999999788077) by (nonlinear_arith)
            requires
                s == 898794,
                c == 438371,
        ;
    } else if d == 65 {
        assert(s == 906308 && c == 422618);
        assert(s * s + c * c == 1000000164788) by (nonlinear_arith)
            requires
                s == 906308,
                c == 422618,
        ;
    } else if d == 66 {
        assert(s == 913545 && c == 406737);
        assert(s * s + c * c == 999999454194) by (nonlinear_arith)
            requires
                s == 913545,
                c == 406737,
        ;
    } else if d == 67 {
        assert(s == 920505 && c == 390731);
        assert(s * s + c * c == 1000000169386) by (nonlinear_arith)
            requires
                s == 920505,
                c == 390731,
        ;
    } else if d == 68 {
        assert(s == 927184 && c == 374607);
        assert(s * s + c * c == 1000000574305) by (nonlinear_arith)
            requires
                s == 927184,
                c == 374607,
        ;
    }
}

/// The table between 69 and 90 degrees: the squares of the sine and of the
/// sine of the complement add up to the square of `TRIG_UNIT`, within what
/// rounding allows.
proof fn lemma_table_top(d: int)
    requires
        69 <= d <= 90,
    ensures
        -1_200_000 <= quarter_sine(d) * quarter_sine(d) + quarter_sine(90 - d) * quarter_sine(
            90 - d,
        ) - 1_000_000_000_000 <= 1_200_000,
{
    reveal(quarter_sine);
    let s = quarter_sine(d);
    let c = quarter_sine(90 - d);
    if d == 69 {
        assert(s == 933580 && c == 358368);
        assert(s * s + c * c == 999999239824) by (nonlinear_arith)
            requires
                s == 933580,
                c == 358368,
        ;
    } else if d == 70 {
        assert(s == 939693 && c == 342020);
        assert(s * s + c * c == 1000000614649) by (nonlinear_arith)
            requires
                s == 939693,
                c == 342020,
        ;
    } else if d == 71 {
        assert(s == 945519 && c == 325568);
        assert(s * s + c * c == 1000000701985) by (nonlinear_arith)
            requires
                s == 945519,
                c == 325568,
        ;
    } else if d == 72 {
        assert(s == 951057 && c == 309017);
        assert(s * s + c * c == 1000000923538) by (nonlinear_arith)
            requires
                s == 951057,
                c == 309017,
        ;
    } else if d == 73 {
        assert(s == 956305 && c == 292372);
        assert(s * s + c * c == 1000000639409) by (nonlinear_arith)
            requires
                s == 956305,
                c == 292372,
        ;
    } else if d == 74 {
        assert(s == 961262 && c == 275637);
        assert(s * s + c * c == 1000000388413) by (nonlinear_arith)
            requires
                s == 961262,
                c == 275637,
        ;
    } else if d == 75 {
        assert(s == 965926 && c == 258819);
        assert(s * s + c * c == 1000000312237) by (nonlinear_arith)
            requires
                s == 965926,
                c == 258819,
        ;
    } else if d == 76 {
        assert(s == 970296 && c == 241922);
        assert(s * s + c * c == 1000000581700) by (nonlinear_arith)
            requires
                s == 970296,
                c == 241922,
        ;
    } else if d == 77 {
        assert(s == 974370 && c == 224951);
        assert(s * s + c * c == 999999849301) by (nonlinear_arith)
            requires
                s == 974370,
                c == 224951,
        ;
    } else if d == 78 {
        assert(s == 978148 && c == 207912);
        assert(s * s + c * c == 1000000909648) by (nonlinear_arith)
            requires
                s == 978148,
                c == 207912,
        ;
    } else if d == 79 {
        assert(s == 981627 && c == 190809);
        assert(s * s + c * c == 999999641610) by (nonlinear_arith)
            requires
                s == 981627,
                c == 190809,
        ;
    } else if d == 80 {
        assert(s == 984808 && c == 173648);
        assert(s * s + c * c == 1000000424768) by (nonlinear_arith)
            requires
                s == 984808,
                c == 173648,
        ;
    } else if d == 81 {
        assert(s == 987688 && c == 156434);
        assert(s * s + c * c == 999999181700) by (nonlinear_arith)
            requires
                s == 987688,
                c == 156434,
        ;
    } else if d == 82 {
        assert(s == 990268 && c == 139173);
        assert(s * s + c * c == 999999835753) by (nonlinear_arith)
            requires
                s == 990268,
                c == 139173,
        ;
    } else if d == 83 {
        assert(s == 992546 && c == 121869);
        assert(s * s + c * c == 999999615277) by (nonlinear_arith)
            requires
                s == 992546,
                c == 121869,
        ;
    } else if d == 84 {
        assert(s == 994522 && c == 104528);
        assert(s * s + c * c == 1000000111268) by (nonlinear_arith)
            requires
                s == 994522,
                c == 104528,
        ;
    } else if d == 85 {
        assert(s == 996195 && c == 87156);
        assert(s * s + c * c == 1000000646361) by (nonlinear_arith)
            requires
                s == 996195,
                c == 87156,
        ;
    } else if d == 86 {
        assert(s == 997564 && c == 69756);
        assert(s * s + c * c == 999999833632) by (nonlinear_arith)
            requires
                s == 997564,
                c == 69756,
        ;
    } else if d == 87 {
        assert(s == 998630 && c == 52336);
        assert(s * s + c * c == 1000000933796) by (nonlinear_arith)
            requires
                s == 998630,
                c == 52336,
        ;
    } else if d == 88 {
        assert(s == 999391 && c == 34899);
        assert(s * s + c * c == 1000000311082) by (nonlinear_arith)
            requires
                s == 999391,
                c == 34899,
        ;
    } else if d == 89 {
        assert(s == 999848 && c == 17452);
        assert(s * s + c * c == 1000000595408) by (nonlinear_arith)
            requires
                s == 999848,
                c == 17452,
        ;
    } else if d == 90 {
        assert(s == 1000000 && c == 0);
        assert(s * s + c * c == 1000000000000) by (nonlinear_arith)
            requires
                s == 1000000,
                c == 0,
        ;
    }
}

/// The squares of the sine and of the sine of the complement add up to the
/// square of `TRIG_UNIT`, within what rounding allows.
proof fn lemma_table_pair(d: int)
    requires
        0 <= d <= 90,
    ensures
        0 <= quarter_sine(d) <= TRIG_UNIT,
        0 <= quarter_sine(90 - d) <= TRIG_UNIT,
        -1_200_000 <= quarter_sine(d) * quarter_sine(d) + quarter_sine(90 - d) * quarter_sine(
            90 - d,
        ) - 1_000_000_000_000 <= 1_200_000,
{
    if d <= 22 {
        lemma_table_low(d);
    } else if d <= 45 {
        lemma_table_mid(d);
    } else if d <= 68 {
        lemma_table_high(d);
    } else {
        lemma_table_top(d);
    }
    reveal(quarter_sine);
}

/// The sines of whole degrees lie between minus one and one, and the
/// sine and the cosine of a whole degree are a unit vector: their squares
/// add up to the square of `TRIG_UNIT`, within the 1.2 millionths of it
/// that rounding the table allows.
pub proof fn lemma_whole_sine(d: int)
    requires
        0 <= d <= 360,
    ensures
        -TRIG_UNIT <= whole_sine(d) <= TRIG_UNIT,
        -1_200_000 <= whole_sine(d) * whole_sine(d) + whole_sine((d + 90) % 360) * whole_sine(
            (d + 90) % 360,
        ) - TRIG_UNIT * TRIG_UNIT <= 1_200_000,
{
    let k = if d <= 90 {
        d
    } else if d <= 180 {
        180 - d
    } else if d <= 270 {
        d - 180
    } else {
        360 - d
    };
    lemma_table_pair(k);
    let s = whole_sine(d);
    let c = whole_sine((d + 90) % 360);
    let q = quarter_sine(k);
    let p = quarter_sine(90 - k);
    assert(s == q || s == -q);
    assert(c == p || c == -p);
    assert(s * s == q * q && c * c == p * p) by (nonlinear_arith)
        requires
            s == q || s == -q,
            c == p || c == -p,
    ;
}

/// A heading of a whole degree is a unit vector. For every whole degree
/// within a turn the squares of the sine and of the cosine add up to the
/// square of `TRIG_UNIT`, within the 1.2 millionths of it that rounding the
/// table allows.
pub proof fn lemma_unit_heading(rot: int)
    requires
        0 <= rot < FULL_TURN,
        rot % 1000 == 0,
    ensures
        -1_200_000 <= sine(rot) * sine(rot) + cosine(rot) * cosine(rot) - TRIG_UNIT * TRIG_UNIT
            <= 1_200_000,
{
    let d = rot / 1000;
    lemma_whole_sine(d);
    let turned = (rot + 90_000) % 360_000;
    assert(turned == if rot < 270_000 {
        rot + 90_000
    } else {
        rot - 270_000
    });
    assert(turned % 1000 == 0 && turned / 1000 == (d + 90) % 360);
    lemma_interpolated(whole_sine(d), whole_sine(d + 1), 0);
    lemma_interpolated(whole_sine(turned / 1000), whole_sine(turned / 1000 + 1), 0);
}

/// Sines and cosines lie between minus one and one, and the sine of an
/// angle lies between the sines of the whole degrees on either side of it.
pub proof fn lemma_sine_bound(rot: int)
    requires
        0 <= rot < FULL_TURN,
    ensures
        -TRIG_UNIT <= sine(rot) <= TRIG_UNIT,
        -TRIG_UNIT <= cosine(rot) <= TRIG_UNIT,
        whole_sine(rot / 1000) <= sine(rot) <= whole_sine(rot / 1000 + 1) || whole_sine(
            rot / 1000 + 1,
        ) <= sine(rot) <= whole_sine(rot / 1000),
        rot % 1000 == 0 ==> sine(rot) == whole_sine(rot / 1000),
{
    let d = rot / 1000;
    lemma_whole_sine(d);
    lemma_whole_sine(d + 1);
    lemma_interpolated(whole_sine(d), whole_sine(d + 1), rot % 1000);
    let turned = (rot + 90_000) % 360_000;
    let e = turned / 1000;
    lemma_whole_sine(e);
    lemma_whole_sine(e + 1);
    lemma_interpolated(whole_sine(e), whole_sine(e + 1), turned % 1000);
}

/// A step is no longer than the speed, on either axis.
pub proof fn lemma_step_bound(speed: int, rot: int)
    requires
        0 <= speed <= SPEED_LIMIT,
        0 <= rot < FULL_TURN,
    ensures
        -speed <= step_x(speed, rot) <= speed,
        -speed <= step_y(speed, rot) <= speed,
{
    lemma_sine_bound(rot);
    lemma_scaled_bound(speed, sine(rot));
    lemma_scaled_bound(speed, cosine(rot));
}

/// Every natural number has a square root, rounded up.
pub proof fn lemma_ceil_sqrt_exists(n: int)
    requires
        0 <= n,
    ensures
        is_ceil_sqrt(n, ceil_sqrt(n)),
    decreases n,
{
    if n == 0 {
        assert(is_ceil_sqrt(0, 0));
    } else {
        lemma_ceil_sqrt_exists(n - 1);
        let r = ceil_sqrt(n - 1);
        if r * r >= n {
            assert(is_ceil_sqrt(n, r));
        } else {
            assert((r + 1) * (r + 1) >= n) by (nonlinear_arith)
                requires
                    r * r >= n - 1,
                    r >= 0,
            ;
            assert(is_ceil_sqrt(n, r + 1));
        }
    }
}

/// A clamped vector is no longer than the limit, and so is each of its
/// components; and it points the way the vector did, no component larger
/// than before.
pub proof fn lemma_clamped_within(v: Vec2, max: int)
    requires
        -2 * SPEED_LIMIT <= v.x <= 2 * SPEED_LIMIT,
        -2 * SPEED_LIMIT <= v.y <= 2 * SPEED_LIMIT,
        0 <= max <= SPEED_LIMIT,
    ensures
        clamped(v, max).x * clamped(v, max).x + clamped(v, max).y * clamped(v, max).y <= max * max,
        -max <= clamped(v, max).x <= max,
        -max <= clamped(v, max).y <= max,
        v.x >= 0 ==> 0 <= clamped(v, max).x <= v.x,
        v.x <= 0 ==> v.x <= clamped(v, max).x <= 0,
        v.y >= 0 ==> 0 <= clamped(v, max).y <= v.y,
        v.y <= 0 ==> v.y <= clamped(v, max).y <= 0,
{
    let x = v.x as int;
    let y = v.y as int;
    let n = x * x + y * y;
    assert(n >= 0) by (nonlinear_arith)
        requires
            n == x * x + y * y,
    ;
    if n > max * max {
        lemma_ceil_sqrt_exists(n);
        let len = ceil_sqrt(n);
        assert(len > 0) by (nonlinear_arith)
            requires
                len * len >= n,
                n > max * max,
                max >= 0,
                len >= 0,
        ;
        lemma_rescale(x, y, max, len);
    }
    let r = clamped(v, max);
    assert(-max <= r.x <= max && -max <= r.y <= max) by (nonlinear_arith)
        requires
            r.x * r.x + r.y * r.y <= max * max,
            0 <= max,
    ;
}

} // verus!
