//! Angles, points and distances on the flat map.

use vstd::prelude::*;

verus! {

/// Thousandths of a degree in a full turn.
pub const FULL_TURN: i64 = 360_000;

/// Thousandths of a degree in a half turn.
pub const HALF_TURN: i64 = 180_000;

/// Thousandths of a degree in a quarter turn.
pub const QUARTER_TURN: i64 = 90_000;

/// The largest magnitude of a coordinate: a million feet by a thousand.
pub const COORD_LIMIT: i64 = 1_000_000_000_000;

/// A nautical mile in thousandths of a foot: 6076.12 feet.
pub const NAUTICALMILES_TO_FEET: i64 = 6_076_120;

/// A knot in hundred-thousandths of a foot per second: 1.68781 feet per
/// second.
pub const KNOT_TO_FEET_PER_SECOND: i64 = 168_781;

/// The scale of a sine or cosine: a value of one is written as a million.
pub const UNIT: i64 = 1_000_000;

/// A position on the map, in thousandths of a foot.
#[derive(Clone, Copy, Debug, PartialEq, Eq, Hash, Structural)]
pub struct Point {
    pub x: i64,
    pub y: i64,
}

impl Point {
    /// Whether both coordinates lie within the map.
    pub open spec fn in_range(self) -> bool {
        &&& -COORD_LIMIT <= self.x <= COORD_LIMIT
        &&& -COORD_LIMIT <= self.y <= COORD_LIMIT
    }

    /// Whether the point lies on the map.
    pub fn is_in_range(&self) -> (r: bool)
        ensures
            r == self.in_range(),
    {
        -COORD_LIMIT <= self.x && self.x <= COORD_LIMIT && -COORD_LIMIT <= self.y && self.y
            <= COORD_LIMIT
    }
}

/// The angle in `[0, 360)` degrees that points the same way as `angle`.
pub open spec fn normalized(angle: int) -> int {
    angle % 360_000
}

/// Brings an angle into `[0, 360)` degrees.
pub fn normalize_angle(angle: i64) -> (r: i64)
    ensures
        r == normalized(angle as int),
        0 <= r < FULL_TURN,
{
    if angle >= 0 {
        angle % FULL_TURN
    } else {
        let flipped: i64 = -(angle + 1);
        let m: i64 = flipped % FULL_TURN;
        let r: i64 = FULL_TURN - 1 - m;
        proof {
            let q = flipped as int / 360_000;
            assert(flipped as int == 360_000 * q + m) by {
                vstd::arithmetic::div_mod::lemma_fundamental_div_mod(flipped as int, 360_000);
            }
            assert(angle as int == 360_000 * (-q - 1) + r);
            vstd::arithmetic::div_mod::lemma_fundamental_div_mod_converse(
                angle as int,
                360_000,
                -q - 1,
                r as int,
            );
        }
        r
    }
}

/// The signed turn from `from` to `to`, in `[-180, 180)` degrees; positive is
/// clockwise.
pub open spec fn turn_between(from: int, to: int) -> int {
    normalized(to - from + 180_000) - 180_000
}

/// The signed smallest turn that takes heading `from` to heading `to`.
pub fn delta_angle(from: i64, to: i64) -> (r: i64)
    ensures
        r == turn_between(from as int, to as int),
        -HALF_TURN <= r < HALF_TURN,
{
    let start = normalize_angle(from);
    let end = normalize_angle(to);
    proof {
        let m = 360_000int;
        vstd::arithmetic::div_mod::lemma_sub_mod_noop(to as int, from as int, m);
        vstd::arithmetic::div_mod::lemma_sub_mod_noop(end as int, start as int, m);
        vstd::arithmetic::div_mod::lemma_mod_twice(to as int, m);
        vstd::arithmetic::div_mod::lemma_mod_twice(from as int, m);
        assert((end - start) % m == (to - from) % m);
        vstd::arithmetic::div_mod::lemma_add_mod_noop(to - from, 180_000, m);
        vstd::arithmetic::div_mod::lemma_add_mod_noop(end - start, 180_000, m);
    }
    normalize_angle(end - start + HALF_TURN) - HALF_TURN
}

/// Minus one, zero or one, by the sign of `value`.
pub open spec fn sign_of(value: int) -> int {
    if value > 0 {
        1
    } else if value < 0 {
        -1
    } else {
        0
    }
}

/// The sign of a number as minus one, zero or one.
pub fn sign3(value: i64) -> (r: i64)
    ensures
        r == sign_of(value as int),
{
    if value > 0 {
        1
    } else if value < 0 {
        -1
    } else {
        0
    }
}

/// The magnitude of a number.
pub open spec fn magnitude(value: int) -> int {
    if value < 0 {
        -value
    } else {
        value
    }
}

/// The magnitude of a number that is not the least of its type.
pub fn abs_i64(value: i64) -> (r: i64)
    requires
        value > i64::MIN,
    ensures
        r == magnitude(value as int),
{
    if value < 0 {
        -value
    } else {
        value
    }
}

/// The square of the distance between two points.
pub open spec fn distance_squared_of(a: Point, b: Point) -> int {
    (a.x - b.x) * (a.x - b.x) + (a.y - b.y) * (a.y - b.y)
}

/// The square of the distance between two points of the map.
pub fn distance_squared(a: Point, b: Point) -> (r: i128)
    requires
        a.in_range(),
        b.in_range(),
    ensures
        r == distance_squared_of(a, b),
        0 <= r <= 8_000_000_000_000_000_000_000_000,
{
    let dx: i128 = a.x as i128 - b.x as i128;
    let dy: i128 = a.y as i128 - b.y as i128;
    assert(0 <= dx * dx <= 4_000_000_000_000_000_000_000_000) by (nonlinear_arith)
        requires
            -2_000_000_000_000 <= dx <= 2_000_000_000_000,
    ;
    assert(0 <= dy * dy <= 4_000_000_000_000_000_000_000_000) by (nonlinear_arith)
        requires
            -2_000_000_000_000 <= dy <= 2_000_000_000_000,
    ;
    dx * dx + dy * dy
}

/// The quotient rounded toward zero.
pub open spec fn truncated_div(a: int, b: int) -> int
    recommends
        b > 0,
{
    if a >= 0 {
        a / b
    } else {
        -((-a) / b)
    }
}

/// A length multiplied by a sine or cosine, rounded toward zero.
pub open spec fn scaled(length: int, factor: int) -> int {
    truncated_div(length * factor, 1_000_000)
}

/// Multiplies a length by a factor written in millionths.
pub fn scale(length: i64, factor: i64) -> (r: i64)
    requires
        length > i64::MIN,
        -UNIT <= factor <= UNIT,
    ensures
        r == scaled(length as int, factor as int),
        magnitude(r as int) <= magnitude(length as int),
{
    assert(magnitude(length as int * factor as int) <= magnitude(length as int) * 1_000_000)
        by (nonlinear_arith)
        requires
            -1_000_000 <= factor <= 1_000_000,
    ;
    let product: i128 = length as i128 * factor as i128;
    let bound: i128 = if length < 0 {
        -(length as i128)
    } else {
        length as i128
    };
    if product >= 0 {
        let q: i128 = product / 1_000_000;
        assert(q <= bound) by (nonlinear_arith)
            requires
                q == (product as int) / 1_000_000,
                0 <= product <= bound * 1_000_000,
        ;
        q as i64
    } else {
        let q: i128 = (-product) / 1_000_000;
        assert(q <= bound) by (nonlinear_arith)
            requires
                q == (-(product as int)) / 1_000_000,
                0 <= -product <= bound * 1_000_000,
        ;
        (-q) as i64
    }
}

/// The sine of an angle of at most a half turn, in millionths, by the rational
/// approximation `4x(180 - x) / (40500 - x(180 - x))` with `x` in degrees.
pub open spec fn half_wave(x: int) -> int {
    let p = x * (180_000 - x);
    (4_000_000 * p) / (40_500_000_000 - p)
}

/// The sine of an angle, in millionths.
pub open spec fn sine_of(angle: int) -> int {
    let a = normalized(angle);
    if a <= 180_000 {
        half_wave(a)
    } else {
        -half_wave(a - 180_000)
    }
}

/// The cosine of an angle, in millionths.
pub open spec fn cosine_of(angle: int) -> int {
    sine_of(angle + 90_000)
}

/// The half wave stays between zero and one.
pub proof fn lemma_half_wave_bounds(x: int)
    requires
        0 <= x <= 180_000,
    ensures
        0 <= x * (180_000 - x) <= 8_100_000_000,
        0 <= half_wave(x) <= 1_000_000,
{
    let p = x * (180_000 - x);
    assert(0 <= p <= 8_100_000_000) by (nonlinear_arith)
        requires
            0 <= x <= 180_000,
            p == x * (180_000 - x),
    {
        assert((x - 90_000) * (x - 90_000) >= 0);
    }
    let d = 40_500_000_000 - p;
    assert(4_000_000 * p <= 1_000_000 * d);
    assert(0 <= (4_000_000 * p) / d <= 1_000_000) by (nonlinear_arith)
        requires
            d > 0,
            0 <= 4_000_000 * p <= 1_000_000 * d,
    ;
}

/// The sine and the cosine stay between minus one and one.
pub proof fn lemma_sine_bounds(angle: int)
    ensures
        -1_000_000 <= sine_of(angle) <= 1_000_000,
        -1_000_000 <= cosine_of(angle) <= 1_000_000,
{
    let a = normalized(angle);
    if a <= 180_000 {
        lemma_half_wave_bounds(a);
    } else {
        lemma_half_wave_bounds(a - 180_000);
    }
    let b = normalized(angle + 90_000);
    if b <= 180_000 {
        lemma_half_wave_bounds(b);
    } else {
        lemma_half_wave_bounds(b - 180_000);
    }
}

/// The sine of the four cardinal headings is exact.
pub proof fn lemma_sine_cardinal()
    ensures
        sine_of(0) == 0,
        sine_of(90_000) == 1_000_000,
        sine_of(180_000) == 0,
        sine_of(270_000) == -1_000_000,
        cosine_of(0) == 1_000_000,
        cosine_of(90_000) == 0,
        cosine_of(180_000) == -1_000_000,
        cosine_of(270_000) == 0,
{
    assert(90_000int * (180_000 - 90_000) == 8_100_000_000) by (nonlinear_arith);
}

fn half_wave_exec(x: i64) -> (r: i64)
    requires
        0 <= x <= HALF_TURN,
    ensures
        r == half_wave(x as int),
        0 <= r <= UNIT,
{
    proof {
        lemma_half_wave_bounds(x as int);
    }
    let p: i64 = x * (HALF_TURN - x);
    (4_000_000 * p) / (40_500_000_000 - p)
}

/// The sine of an angle, in millionths.
pub fn sine(angle: i64) -> (r: i64)
    ensures
        r == sine_of(angle as int),
        -UNIT <= r <= UNIT,
{
    let a = normalize_angle(angle);
    if a <= HALF_TURN {
        half_wave_exec(a)
    } else {
        -half_wave_exec(a - HALF_TURN)
    }
}

/// The cosine of an angle, in millionths.
pub fn cosine(angle: i64) -> (r: i64)
    ensures
        r == cosine_of(angle as int),
        -UNIT <= r <= UNIT,
{
    let a = normalize_angle(angle);
    proof {
        assert(normalized(a + 90_000) == normalized(angle + 90_000)) by {
            vstd::arithmetic::div_mod::lemma_add_mod_noop(angle as int, 90_000, 360_000);
            vstd::arithmetic::div_mod::lemma_add_mod_noop(a as int, 90_000, 360_000);
            vstd::arithmetic::div_mod::lemma_mod_twice(angle as int, 360_000);
        }
    }
    sine(a + QUARTER_TURN)
}

/// A coordinate held within the map.
pub open spec fn clamped_coord(value: int) -> int {
    if value < -1_000_000_000_000 {
        -1_000_000_000_000
    } else if value > 1_000_000_000_000 {
        1_000_000_000_000
    } else {
        value
    }
}

fn clamp_coord(value: i128) -> (r: i64)
    ensures
        r == clamped_coord(value as int),
        -COORD_LIMIT <= r <= COORD_LIMIT,
{
    if value < -1_000_000_000_000 {
        -COORD_LIMIT
    } else if value > 1_000_000_000_000 {
        COORD_LIMIT
    } else {
        value as i64
    }
}

/// The point that lies `length` from `origin` along the compass heading
/// `heading`, held within the map.
#[verifier::opaque]
pub open spec fn moved_point(origin: Point, heading: int, length: int) -> Point {
    Point {
        x: clamped_coord(origin.x + scaled(length, sine_of(heading))) as i64,
        y: clamped_coord(origin.y + scaled(length, cosine_of(heading))) as i64,
    }
}

/// Moves a point by a length along a compass heading.
pub fn move_point(origin: Point, heading: i64, length: i64) -> (r: Point)
    requires
        length > i64::MIN,
    ensures
        r == moved_point(origin, heading as int, length as int),
        r.in_range(),
{
    reveal(moved_point);
    let s = sine(heading);
    let c = cosine(heading);
    let dx = scale(length, s);
    let dy = scale(length, c);
    Point {
        x: clamp_coord(origin.x as i128 + dx as i128),
        y: clamp_coord(origin.y as i128 + dy as i128),
    }
}

/// Whether `r` is the square root of `n`, rounded down.
pub open spec fn is_root(n: int, r: int) -> bool {
    r >= 0 && r * r <= n < (r + 1) * (r + 1)
}

/// The square root of a number, rounded down.
pub open spec fn root_of(n: int) -> int {
    choose|r: int| is_root(n, r)
}

/// A number has at most one rounded-down square root.
pub proof fn lemma_root_unique(n: int, a: int, b: int)
    requires
        is_root(n, a),
        is_root(n, b),
    ensures
        a == b,
{
    if a < b {
        assert((a + 1) * (a + 1) <= b * b) by (nonlinear_arith)
            requires
                0 <= a,
                a + 1 <= b,
        ;
    }
    if b < a {
        assert((b + 1) * (b + 1) <= a * a) by (nonlinear_arith)
            requires
                0 <= b,
                b + 1 <= a,
        ;
    }
}

/// The square root of a squared distance, rounded down.
pub fn integer_sqrt(n: i128) -> (r: i64)
    requires
        0 <= n <= 8_000_000_000_000_000_000_000_000,
    ensures
        is_root(n as int, r as int),
        r == root_of(n as int),
        r <= 3_000_000_000_000,
{
    let mut low: i128 = 0;
    let mut high: i128 = 3_000_000_000_000;
    assert(3_000_000_000_000int * 3_000_000_000_000 > n) by (nonlinear_arith)
        requires
            n <= 8_000_000_000_000_000_000_000_000,
    ;
    while high - low > 1
        invariant
            0 <= low < high <= 3_000_000_000_000,
            low * low <= n < high * high,
        decreases high - low,
    {
        let mid: i128 = (low + high) / 2;
        assert(0 <= mid * mid <= 9_000_000_000_000_000_000_000_000) by (nonlinear_arith)
            requires
                0 <= mid <= 3_000_000_000_000,
        ;
        if mid * mid <= n {
            low = mid;
        } else {
            high = mid;
        }
    }
    proof {
        assert(is_root(n as int, low as int));
        let chosen = root_of(n as int);
        lemma_root_unique(n as int, low as int, chosen);
    }
    low as i64
}

/// The point reached from `from` after `step` toward `to`, without passing it.
#[verifier::opaque]
pub open spec fn moved_towards(from: Point, to: Point, step: int) -> Point {
    let length = root_of(distance_squared_of(from, to));
    if length <= step || length == 0 {
        to
    } else {
        Point {
            x: (from.x + truncated_div((to.x - from.x) * step, length)) as i64,
            y: (from.y + truncated_div((to.y - from.y) * step, length)) as i64,
        }
    }
}

fn towards_component(from: i64, to: i64, step: i64, length: i64) -> (r: i64)
    requires
        -COORD_LIMIT <= from <= COORD_LIMIT,
        -COORD_LIMIT <= to <= COORD_LIMIT,
        0 <= step < length <= 3_000_000_000_000,
    ensures
        r == from + truncated_div((to - from) * step, length as int),
        -COORD_LIMIT <= r <= COORD_LIMIT,
{
    let diff: i128 = to as i128 - from as i128;
    assert(magnitude(diff as int * step as int) <= magnitude(diff as int) * length) by (nonlinear_arith)
        requires
            0 <= step < length,
    ;
    assert(magnitude(diff as int) * length <= 2_000_000_000_000 * 3_000_000_000_000) by (nonlinear_arith)
        requires
            magnitude(diff as int) <= 2_000_000_000_000,
            0 <= length <= 3_000_000_000_000,
    ;
    let product: i128 = diff * step as i128;
    if product >= 0 {
        let q: i128 = product / length as i128;
        assert(0 <= q && (q == 0 || q <= diff)) by (nonlinear_arith)
            requires
                q == (product as int) / (length as int),
                product == diff * step,
                product >= 0,
                0 <= step < length,
        ;
        (from as i128 + q) as i64
    } else {
        let q: i128 = (-product) / length as i128;
        assert(diff < 0 && q <= -diff) by (nonlinear_arith)
            requires
                q == (-(product as int)) / (length as int),
                product == diff * step,
                product < 0,
                0 <= step < length,
        ;
        (from as i128 - q) as i64
    }
}

/// Moves a point toward another by at most `step`, never past it.
pub fn move_towards(from: Point, to: Point, step: i64) -> (r: Point)
    requires
        from.in_range(),
        to.in_range(),
        step >= 0,
    ensures
        r == moved_towards(from, to, step as int),
        r.in_range(),
{
    reveal(moved_towards);
    let length = integer_sqrt(distance_squared(from, to));
    if length <= step || length == 0 {
        to
    } else {
        Point {
            x: towards_component(from.x, to.x, step, length),
            y: towards_component(from.y, to.y, step, length),
        }
    }
}

/// The arctangent of `t` millionths, for `t` between zero and one, in
/// thousandths of a degree, by the rational approximation
/// `45x + x(1 - x)(14.02 + 3.799x)`.
pub open spec fn arctangent(t: int) -> int {
    (45_000 * t) / 1_000_000 + (t * (1_000_000 - t) * (14_020_000_000 + 3_799 * t))
        / 1_000_000_000_000_000_000
}

/// The arctangent of a ratio of at most one lies within the first half of a
/// quarter turn.
pub proof fn lemma_arctangent_bounds(t: int)
    requires
        0 <= t <= 1_000_000,
    ensures
        0 <= arctangent(t) <= 45_000,
        0 <= t * (1_000_000 - t) <= 250_000_000_000,
        0 <= t * (1_000_000 - t) * (14_020_000_000 + 3_799 * t)
            <= 250_000_000_000 * 17_819_000_000,
{
    let u = 1_000_000 - t;
    let w = t * u;
    let c = 14_020_000_000 + 3_799 * t;
    assert(0 <= w <= 250_000_000_000 && w <= 1_000_000 * u) by (nonlinear_arith)
        requires
            0 <= t <= 1_000_000,
            u == 1_000_000 - t,
            w == t * u,
    {
        assert((t - 500_000) * (t - 500_000) >= 0);
    }
    assert(0 <= w * c <= 250_000_000_000 * 17_819_000_000 && w * c <= 1_000_000 * u
        * 17_819_000_000) by (nonlinear_arith)
        requires
            0 <= w <= 250_000_000_000,
            w <= 1_000_000 * u,
            0 <= u,
            14_020_000_000 <= c <= 17_819_000_000,
    ;
    let first = (45_000 * t) / 1_000_000;
    let second = (w * c) / 1_000_000_000_000_000_000;
    assert(0 <= first && first * 1_000_000 <= 45_000 * t) by (nonlinear_arith)
        requires
            first == (45_000 * t) / 1_000_000,
            0 <= t,
    ;
    assert(0 <= second && second * 1_000_000_000_000_000_000 <= w * c) by (nonlinear_arith)
        requires
            second == (w * c) / 1_000_000_000_000_000_000,
            0 <= w * c,
    ;
    assert(second * 1_000_000 <= 17_819 * u) by (nonlinear_arith)
        requires
            second * 1_000_000_000_000_000_000 <= w * c,
            w * c <= 1_000_000 * u * 17_819_000_000,
    ;
}

fn arctangent_exec(t: i64) -> (r: i64)
    requires
        0 <= t <= UNIT,
    ensures
        r == arctangent(t as int),
        0 <= r <= 45_000,
{
    proof {
        lemma_arctangent_bounds(t as int);
    }
    let t: i128 = t as i128;
    let first: i128 = (45_000 * t) / 1_000_000;
    let w: i128 = t * (1_000_000 - t);
    let second: i128 = (w * (14_020_000_000 + 3_799 * t)) / 1_000_000_000_000_000_000;
    (first + second) as i64
}

/// The angle of a direction in the first quadrant, measured from the `y` axis.
pub open spec fn quadrant_angle(ax: int, ay: int) -> int {
    if ax <= ay {
        arctangent((ax * 1_000_000) / ay)
    } else {
        90_000 - arctangent((ay * 1_000_000) / ax)
    }
}

/// The compass bearing of the direction `(dx, dy)`, in `[0, 360)` degrees; the
/// null direction has bearing zero.
#[verifier::opaque]
pub open spec fn bearing_of(dx: int, dy: int) -> int {
    if dx == 0 && dy == 0 {
        0
    } else {
        let q = quadrant_angle(magnitude(dx), magnitude(dy));
        if dx >= 0 && dy >= 0 {
            q
        } else if dx >= 0 {
            180_000 - q
        } else if dy < 0 {
            180_000 + q
        } else if q == 0 {
            0
        } else {
            360_000 - q
        }
    }
}

/// The compass bearing from one point to another.
pub open spec fn bearing_between(from: Point, to: Point) -> int {
    bearing_of(to.x - from.x, to.y - from.y)
}

fn ratio(minor: i64, major: i64) -> (r: i64)
    requires
        0 <= minor <= major,
        0 < major <= 2 * COORD_LIMIT,
    ensures
        r == (minor * 1_000_000) / (major as int),
        0 <= r <= UNIT,
{
    let scaled_minor: i128 = minor as i128 * 1_000_000;
    let q: i128 = scaled_minor / major as i128;
    assert(0 <= q <= 1_000_000) by (nonlinear_arith)
        requires
            q == (scaled_minor as int) / (major as int),
            scaled_minor == minor * 1_000_000,
            0 <= minor <= major,
            0 < major,
    ;
    q as i64
}

fn quadrant_angle_exec(ax: i64, ay: i64) -> (r: i64)
    requires
        0 <= ax <= 2 * COORD_LIMIT,
        0 <= ay <= 2 * COORD_LIMIT,
        ax > 0 || ay > 0,
    ensures
        r == quadrant_angle(ax as int, ay as int),
        0 <= r <= QUARTER_TURN,
{
    if ax <= ay {
        arctangent_exec(ratio(ax, ay))
    } else {
        QUARTER_TURN - arctangent_exec(ratio(ay, ax))
    }
}

/// The compass bearing of a direction.
pub fn bearing(dx: i64, dy: i64) -> (r: i64)
    requires
        -2 * COORD_LIMIT <= dx <= 2 * COORD_LIMIT,
        -2 * COORD_LIMIT <= dy <= 2 * COORD_LIMIT,
    ensures
        r == bearing_of(dx as int, dy as int),
        0 <= r < FULL_TURN,
{
    reveal(bearing_of);
    if dx == 0 && dy == 0 {
        return 0;
    }
    let q = quadrant_angle_exec(abs_i64(dx), abs_i64(dy));
    if dx >= 0 && dy >= 0 {
        q
    } else if dx >= 0 {
        HALF_TURN - q
    } else if dy < 0 {
        HALF_TURN + q
    } else if q == 0 {
        0
    } else {
        FULL_TURN - q
    }
}

/// The compass bearing from one point of the map to another.
pub fn angle_between_points(from: Point, to: Point) -> (r: i64)
    requires
        from.in_range(),
        to.in_range(),
    ensures
        r == bearing_between(from, to),
        0 <= r < FULL_TURN,
{
    bearing(to.x - from.x, to.y - from.y)
}

/// The bearings along the axes and the diagonals are exact.
pub proof fn lemma_bearing_principal(d: int)
    requires
        d > 0,
    ensures
        bearing_of(0, d) == 0,
        bearing_of(d, d) == 45_000,
        bearing_of(d, 0) == 90_000,
        bearing_of(d, -d) == 135_000,
        bearing_of(0, -d) == 180_000,
        bearing_of(-d, -d) == 225_000,
        bearing_of(-d, 0) == 270_000,
        bearing_of(-d, d) == 315_000,
{
    reveal(bearing_of);
    assert((d * 1_000_000) / d == 1_000_000) by (nonlinear_arith)
        requires
            d > 0,
    ;
    assert((0int * 1_000_000) / d == 0) by (nonlinear_arith)
        requires
            d > 0,
    ;
    assert(0int * (1_000_000 - 0) * (14_020_000_000 + 3_799 * 0) == 0) by (nonlinear_arith);
    assert((45_000int * 0) / 1_000_000 == 0) by (nonlinear_arith);
    assert(arctangent(0) == 0);
    assert(1_000_000int * (1_000_000 - 1_000_000) * (14_020_000_000 + 3_799 * 1_000_000) == 0)
        by (nonlinear_arith);
    assert((45_000int * 1_000_000) / 1_000_000 == 45_000) by (nonlinear_arith);
    assert(arctangent(1_000_000) == 45_000);
}

/// The four headings that belong to a runway heading.
#[derive(Clone, Copy, Debug, PartialEq, Eq, Structural)]
pub struct AngleDirections {
    pub forward: i64,
    pub backward: i64,
    pub left: i64,
    pub right: i64,
}

impl AngleDirections {
    /// The headings ahead, behind, to the left and to the right of `heading`.
    pub fn new(heading: i64) -> (r: AngleDirections)
        ensures
            r.forward == normalized(heading as int),
            r.backward == normalized(heading + 180_000),
            r.left == normalized(heading - 90_000),
            r.right == normalized(heading + 90_000),
            0 <= r.forward < FULL_TURN,
            0 <= r.backward < FULL_TURN,
            0 <= r.left < FULL_TURN,
            0 <= r.right < FULL_TURN,
    {
        let forward = normalize_angle(heading);
        proof {
            let h = heading as int;
            vstd::arithmetic::div_mod::lemma_mod_twice(h, 360_000);
            vstd::arithmetic::div_mod::lemma_add_mod_noop(h, 180_000, 360_000);
            vstd::arithmetic::div_mod::lemma_add_mod_noop(forward as int, 180_000, 360_000);
            vstd::arithmetic::div_mod::lemma_add_mod_noop(h, -90_000, 360_000);
            vstd::arithmetic::div_mod::lemma_add_mod_noop(forward as int, -90_000, 360_000);
            vstd::arithmetic::div_mod::lemma_add_mod_noop(h, 90_000, 360_000);
            vstd::arithmetic::div_mod::lemma_add_mod_noop(forward as int, 90_000, 360_000);
        }
        AngleDirections {
            forward,
            backward: normalize_angle(forward + HALF_TURN),
            left: normalize_angle(forward - QUARTER_TURN),
            right: normalize_angle(forward + QUARTER_TURN),
        }
    }
}

/// One of the eight winds of the compass.
#[derive(Clone, Copy, Debug, PartialEq, Eq, Structural)]
pub enum CompassPoint {
    North,
    NorthEast,
    East,
    SouthEast,
    South,
    SouthWest,
    West,
    NorthWest,
}

/// The wind whose sector of 45 degrees holds the heading.
pub open spec fn compass_point_of(heading: int) -> CompassPoint {
    let sector = normalized(heading + 22_500) / 45_000;
    if sector == 0 {
        CompassPoint::North
    } else if sector == 1 {
        CompassPoint::NorthEast
    } else if sector == 2 {
        CompassPoint::East
    } else if sector == 3 {
        CompassPoint::SouthEast
    } else if sector == 4 {
        CompassPoint::South
    } else if sector == 5 {
        CompassPoint::SouthWest
    } else if sector == 6 {
        CompassPoint::West
    } else {
        CompassPoint::NorthWest
    }
}

/// Names the compass wind nearest to a heading.
pub fn heading_to_direction(heading: i64) -> (r: CompassPoint)
    ensures
        r == compass_point_of(heading as int),
{
    let h = normalize_angle(heading);
    proof {
        vstd::arithmetic::div_mod::lemma_add_mod_noop(heading as int, 22_500, 360_000);
        vstd::arithmetic::div_mod::lemma_add_mod_noop(h as int, 22_500, 360_000);
        vstd::arithmetic::div_mod::lemma_mod_twice(heading as int, 360_000);
    }
    let sector: i64 = normalize_angle(h + 22_500) / 45_000;
    if sector == 0 {
        CompassPoint::North
    } else if sector == 1 {
        CompassPoint::NorthEast
    } else if sector == 2 {
        CompassPoint::East
    } else if sector == 3 {
        CompassPoint::SouthEast
    } else if sector == 4 {
        CompassPoint::South
    } else if sector == 5 {
        CompassPoint::SouthWest
    } else if sector == 6 {
        CompassPoint::West
    } else {
        CompassPoint::NorthWest
    }
}

} // verus!
