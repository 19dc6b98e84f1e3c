//! The generated tray icon: a coloured disc.

use crate::client::session::Status;
use vstd::prelude::*;

verus! {

/// Size of the generated tray icon, in pixels.
pub const ICON: u32 = 32;

/// The colour of a status: red for listening, amber on the way in or out, grey
/// when idle.
pub open spec fn colour_of(status: Status) -> (u8, u8, u8) {
    match status {
        Status::Listening => (235, 70, 60),
        Status::Idle => (150, 150, 158),
        _ => (235, 190, 70),
    }
}

/// Four times the squared distance of a pixel from the centre of the icon.
pub open spec fn spread(x: int, y: int) -> int {
    (2 * x - 31) * (2 * x - 31) + (2 * y - 31) * (2 * y - 31)
}

/// Whether a pixel at this spread is at least this opaque: opacity falls off
/// over the last pixel of a disc of radius 15.
pub open spec fn opaque_enough(spread: int, alpha: int) -> bool {
    65025 * spread <= 4 * (3825 - alpha) * (3825 - alpha)
}

/// The opacity of a pixel: the largest that it is opaque enough for.
pub open spec fn is_alpha(spread: int, alpha: int) -> bool {
    &&& 0 <= alpha <= 255
    &&& alpha > 0 ==> opaque_enough(spread, alpha)
    &&& alpha < 255 ==> !opaque_enough(spread, alpha + 1)
}

proof fn lemma_opaque_step(spread: int, a: int)
    requires
        0 <= a < 255,
        opaque_enough(spread, a + 1),
    ensures
        opaque_enough(spread, a),
{
    assert((3825 - (a + 1)) * (3825 - (a + 1)) <= (3825 - a) * (3825 - a)) by (nonlinear_arith)
        requires
            0 <= a < 255,
    ;
    assert(4 * (3825 - a) * (3825 - a) == 4 * ((3825 - a) * (3825 - a))) by (nonlinear_arith);
    assert(4 * (3825 - (a + 1)) * (3825 - (a + 1)) == 4 * ((3825 - (a + 1)) * (3825 - (a + 1))))
        by (nonlinear_arith);
}

/// A pixel has one opacity.
pub proof fn lemma_alpha_unique(spread: int, a: int, b: int)
    requires
        is_alpha(spread, a),
        is_alpha(spread, b),
    ensures
        a == b,
    decreases a + b,
{
    if a < b {
        lemma_opaque_down(spread, b, a + 1);
    } else if b < a {
        lemma_opaque_down(spread, a, b + 1);
    }
}

proof fn lemma_opaque_down(spread: int, from: int, to: int)
    requires
        0 <= to <= from <= 255,
        opaque_enough(spread, from),
    ensures
        opaque_enough(spread, to),
    decreases from - to,
{
    if to < from {
        lemma_opaque_step(spread, from - 1);
        lemma_opaque_down(spread, from - 1, to);
    }
}

fn enough(s: i64, a: i64) -> (r: bool)
    requires
        0 <= s <= 2000,
        0 <= a <= 255,
    ensures
        r == opaque_enough(s as int, a as int),
{
    let k: i64 = 3825 - a;
    assert(0 <= 4 * k * k <= 4 * 3825 * 3825) by (nonlinear_arith)
        requires
            0 <= k <= 3825,
    ;
    assert(0 <= 4 * k <= 4 * 3825);
    65025 * s <= 4 * k * k
}

fn alpha(s: i64) -> (r: u8)
    requires
        0 <= s <= 2000,
    ensures
        is_alpha(s as int, r as int),
{
    let mut a: i64 = 255;
    while a > 0 && !enough(s, a)
        invariant
            0 <= s <= 2000,
            0 <= a <= 255,
            a < 255 ==> !opaque_enough(s as int, a + 1),
        decreases a,
    {
        a -= 1;
    }
    a as u8
}

/// The byte at `i` of the icon: red, green, blue and opacity of each pixel, row
/// by row.
pub open spec fn is_icon_byte(status: Status, i: int, b: u8) -> bool {
    let x = (i / 4) % 32;
    let y = (i / 4) / 32;
    let c = colour_of(status);
    if i % 4 == 0 {
        b == c.0
    } else if i % 4 == 1 {
        b == c.1
    } else if i % 4 == 2 {
        b == c.2
    } else {
        is_alpha(spread(x, y), b as int)
    }
}

/// The icon's pixels.
pub fn icon_rgba(status: Status) -> (r: Vec<u8>)
    ensures
        r@.len() == ICON * ICON * 4,
        forall|i: int| 0 <= i < r@.len() ==> is_icon_byte(status, i, #[trigger] r@[i]),
{
    let (red, green, blue): (u8, u8, u8) = match status {
        Status::Listening => (235, 70, 60),
        Status::Connecting | Status::Stopping | Status::Transcribing => (235, 190, 70),
        Status::Idle => (150, 150, 158),
    };
    let mut rgba: Vec<u8> = Vec::new();
    let mut p: i64 = 0;
    while p < 1024
        invariant
            0 <= p <= 1024,
            rgba@.len() == 4 * p,
            (red, green, blue) == colour_of(status),
            forall|i: int| 0 <= i < rgba@.len() ==> is_icon_byte(status, i, #[trigger] rgba@[i]),
        decreases 1024 - p,
    {
        let x: i64 = p % 32;
        let y: i64 = p / 32;
        assert(-31 <= 2 * x - 31 <= 31 && -31 <= 2 * y - 31 <= 31);
        assert(0 <= (2 * x - 31) * (2 * x - 31) <= 961) by (nonlinear_arith)
            requires
                -31 <= 2 * x - 31 <= 31,
        ;
        assert(0 <= (2 * y - 31) * (2 * y - 31) <= 961) by (nonlinear_arith)
            requires
                -31 <= 2 * y - 31 <= 31,
        ;
        let s: i64 = (2 * x - 31) * (2 * x - 31) + (2 * y - 31) * (2 * y - 31);
        let a: u8 = alpha(s);
        let ghost k = rgba@.len() as int;
        assert(k / 4 == p && (k + 1) / 4 == p && (k + 2) / 4 == p && (k + 3) / 4 == p);
        assert(k % 4 == 0 && (k + 1) % 4 == 1 && (k + 2) % 4 == 2 && (k + 3) % 4 == 3);
        rgba.push(red);
        rgba.push(green);
        rgba.push(blue);
        rgba.push(a);
        p += 1;
    }
    rgba
}

/// The icon of a live microphone never looks like the icon of an idle one.
pub proof fn lemma_listening_looks_different(a: u8, b: u8, i: int)
    requires
        0 <= i,
        i % 4 == 0,
        is_icon_byte(Status::Listening, i, a),
        is_icon_byte(Status::Idle, i, b),
    ensures
        a != b,
{
}

/// The icon is a disc: opaque at the centre and transparent in the corners.
pub proof fn lemma_icon_is_a_disc()
    ensures
        is_alpha(spread(16, 16), 255),
        is_alpha(spread(0, 0), 0),
        is_alpha(spread(31, 31), 0),
{
    assert(spread(16, 16) == 2) by (nonlinear_arith);
    assert(spread(0, 0) == 1922) by (nonlinear_arith);
    assert(spread(31, 31) == 1922) by (nonlinear_arith);
    assert(opaque_enough(2, 255)) by (nonlinear_arith);
    assert(!opaque_enough(1922, 1)) by (nonlinear_arith);
}

/// The disc is round: a pixel and its mirror images are as far from the centre.
pub proof fn lemma_the_disc_is_round(x: int, y: int)
    ensures
        spread(x, y) == spread(31 - x, y),
        spread(x, y) == spread(x, 31 - y),
        spread(x, y) == spread(y, x),
        spread(x, y) >= 0,
{
    let (a, b) = (2 * x - 31, 2 * y - 31);
    assert((-a) * (-a) == a * a) by (nonlinear_arith);
    assert((-b) * (-b) == b * b) by (nonlinear_arith);
    assert(2 * (31 - x) - 31 == -a && 2 * (31 - y) - 31 == -b);
    assert(a * a >= 0) by (nonlinear_arith);
    assert(b * b >= 0) by (nonlinear_arith);
}

/// No pixel is more opaque than one that lies further in.
pub proof fn lemma_opacity_falls_outwards(near: int, far: int, a: int, b: int)
    requires
        near <= far,
        is_alpha(near, a),
        is_alpha(far, b),
    ensures
        a >= b,
{
    if a < b {
        lemma_opaque_down(far, b, a + 1);
        assert(65025 * near <= 65025 * far);
    }
}

/// What is going on can be told by the colour: listening, idle, and anything on
/// its way between the two.
pub proof fn lemma_each_colour_says_one_thing(a: Status, b: Status)
    requires
        colour_of(a) == colour_of(b),
    ensures
        a == Status::Listening <==> b == Status::Listening,
        a == Status::Idle <==> b == Status::Idle,
{
}

/// Listening is red, idle is grey, and anything on the way in or out is amber.
pub proof fn lemma_the_colours_are_red_grey_and_amber(s: Status)
    ensures
        s == Status::Listening ==> colour_of(s) == (235u8, 70u8, 60u8),
        s == Status::Idle ==> colour_of(s) == (150u8, 150u8, 158u8),
        s == Status::Connecting || s == Status::Stopping || s == Status::Transcribing
            ==> colour_of(s) == (235u8, 190u8, 70u8),
{
}

/// At `half` half-pixels from the centre the opacity is what is left, out of
/// 255, of the last pixel of a disc of radius 15.
pub proof fn lemma_opacity_is_what_is_left_of_the_last_pixel(half: int, alpha: int)
    requires
        half >= 0,
        0 <= alpha <= 255,
    ensures
        opaque_enough(half * half, alpha) <==> 2 * alpha <= 255 * (30 - half),
{
    let u = 255 * half;
    let v = 2 * (3825 - alpha);
    assert(65025 * (half * half) == u * u) by (nonlinear_arith)
        requires
            u == 255 * half,
    ;
    assert(4 * (3825 - alpha) * (3825 - alpha) == v * v) by (nonlinear_arith)
        requires
            v == 2 * (3825 - alpha),
    ;
    assert(u * u <= v * v <==> u <= v) by (nonlinear_arith)
        requires
            u >= 0,
            v >= 0,
    ;
}

} // verus!
