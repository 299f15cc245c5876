//! Lines of the box drawing characters: their arms, and the strokes and dashes
//! that draw them.
//!
//! Strokes run between the midpoints of the cell edges, so that borders
//! continue seamlessly across cells no matter which font is configured.
use vstd::prelude::*;
use crate::glyph::{box_drawing, code_in};

verus! {

/// The style of one arm of a box drawing character.
#[derive(Debug, Clone, Copy, PartialEq, Eq, Structural)]
pub enum Stroke {
    Empty,
    Light,
    Heavy,
    Double,
}

/// Which arms a character has, as up, down, left and right.
pub struct Shape {
    pub up: bool,
    pub down: bool,
    pub left: bool,
    pub right: bool,
}

/// The strokes of the four arms, as up, down, left and right.
pub type Arms = (Stroke, Stroke, Stroke, Stroke);

/// The shapes in the order in which the box drawing block lists them: the four
/// corners, the four tees and the cross.
pub open spec fn shape(k: int) -> Shape {
    Shape {
        up: k != 0 && k != 1 && k != 6,
        down: k != 2 && k != 3 && k != 7,
        left: k != 0 && k != 2 && k != 4,
        right: k != 1 && k != 3 && k != 5,
    }
}

/// The arms of a shape with one style per arm.
pub open spec fn arms_of(s: Shape, up: Stroke, down: Stroke, left: Stroke, right: Stroke) -> Arms {
    (
        if s.up { up } else { Stroke::Empty },
        if s.down { down } else { Stroke::Empty },
        if s.left { left } else { Stroke::Empty },
        if s.right { right } else { Stroke::Empty },
    )
}

/// A heavy or a light stroke.
pub open spec fn weight(heavy: bool) -> Stroke {
    if heavy { Stroke::Heavy } else { Stroke::Light }
}

/// A light or a double stroke.
pub open spec fn doubled(double: bool) -> Stroke {
    if double { Stroke::Double } else { Stroke::Light }
}

/// The heavy arms of the light and heavy crosses, in code point order.
pub open spec fn cross_weights(j: int) -> (bool, bool, bool, bool) {
    (
        j == 4 || j == 6 || j == 7 || j == 8 || j == 11 || j >= 13,
        j == 5 || j == 6 || j == 9 || j == 10 || j >= 12,
        j == 1 || j == 3 || j == 7 || j == 9 || j == 11 || j == 12 || j == 13 || j == 15,
        j == 2 || j == 3 || j == 8 || j == 10 || j == 11 || j == 12 || j >= 14,
    )
}

/// The arms of a box drawing character that consists of straight lines only.
///
/// Straight lines, then corners, tees and crosses of light and heavy strokes,
/// then those of double strokes, then half lines; within each shape the
/// characters run through the combinations of styles.
pub open spec fn line_arms(c: char) -> Option<Arms> {
    let n = c as int;
    let none = Shape { up: false, down: false, left: false, right: false };
    let horizontal = Shape { left: true, right: true, ..none };
    let vertical = Shape { up: true, down: true, ..none };
    if 0x2500 <= n <= 0x2501 {
        let w = weight(n == 0x2501);
        Some(arms_of(horizontal, w, w, w, w))
    } else if 0x2502 <= n <= 0x2503 {
        let w = weight(n == 0x2503);
        Some(arms_of(vertical, w, w, w, w))
    } else if 0x250C <= n <= 0x251B {
        let k = (n - 0x250C) / 4;
        let j = (n - 0x250C) % 4;
        let v = weight(j >= 2);
        let h = weight(j % 2 == 1);
        Some(arms_of(shape(k), v, v, h, h))
    } else if 0x251C <= n <= 0x252B {
        let k = 4 + (n - 0x251C) / 8;
        let j = (n - 0x251C) % 8;
        let up = weight(j == 2 || j == 4 || j == 5 || j == 7);
        let down = weight(j == 3 || j == 4 || j == 6 || j == 7);
        let h = weight(j == 1 || j >= 5);
        Some(arms_of(shape(k), up, down, h, h))
    } else if 0x252C <= n <= 0x253B {
        let k = 6 + (n - 0x252C) / 8;
        let j = (n - 0x252C) % 8;
        let v = weight(j >= 4);
        let left = weight(j % 2 == 1);
        let right = weight((j / 2) % 2 == 1);
        Some(arms_of(shape(k), v, v, left, right))
    } else if 0x253C <= n <= 0x254B {
        let (up, down, left, right) = cross_weights(n - 0x253C);
        Some(arms_of(shape(8), weight(up), weight(down), weight(left), weight(right)))
    } else if n == 0x2550 {
        Some(arms_of(horizontal, Stroke::Double, Stroke::Double, Stroke::Double, Stroke::Double))
    } else if n == 0x2551 {
        Some(arms_of(vertical, Stroke::Double, Stroke::Double, Stroke::Double, Stroke::Double))
    } else if 0x2552 <= n <= 0x256C {
        let k = (n - 0x2552) / 3;
        let j = (n - 0x2552) % 3;
        let v = doubled(j >= 1);
        let h = doubled(j != 1);
        Some(arms_of(shape(k), v, v, h, h))
    } else if 0x2574 <= n <= 0x257B {
        let j = (n - 0x2574) % 4;
        let w = weight(n >= 0x2578);
        let half = Shape { left: j == 0, up: j == 1, right: j == 2, down: j == 3 };
        Some(arms_of(half, w, w, w, w))
    } else if n == 0x257C || n == 0x257E {
        let heavy_left = n == 0x257E;
        Some((Stroke::Empty, Stroke::Empty, weight(heavy_left), weight(!heavy_left)))
    } else if n == 0x257D || n == 0x257F {
        let heavy_up = n == 0x257F;
        Some((weight(heavy_up), weight(!heavy_up), Stroke::Empty, Stroke::Empty))
    } else {
        None
    }
}

/// Arms of a box drawing line character, as (up, down, left, right) strokes
/// running from the cell center towards the named edge.
///
/// Returns `None` for dashed, diagonal and rounded characters, which
/// [`box_drawing_rects`](crate::box_drawing::box_drawing_rects) handles
/// separately, and for every character outside the block.
pub fn box_drawing_arms(c: char) -> (r: Option<(Stroke, Stroke, Stroke, Stroke)>)
    ensures
        r == line_arms(c),
{
    let n = Stroke::Empty;
    let l = Stroke::Light;
    let h = Stroke::Heavy;
    let d = Stroke::Double;
    Some(match c {
        '\u{2500}' => (n, n, l, l),
        '\u{2501}' => (n, n, h, h),
        '\u{2502}' => (l, l, n, n),
        '\u{2503}' => (h, h, n, n),
        '\u{250C}' => (n, l, n, l),
        '\u{250D}' => (n, l, n, h),
        '\u{250E}' => (n, h, n, l),
        '\u{250F}' => (n, h, n, h),
        '\u{2510}' => (n, l, l, n),
        '\u{2511}' => (n, l, h, n),
        '\u{2512}' => (n, h, l, n),
        '\u{2513}' => (n, h, h, n),
        '\u{2514}' => (l, n, n, l),
        '\u{2515}' => (l, n, n, h),
        '\u{2516}' => (h, n, n, l),
        '\u{2517}' => (h, n, n, h),
        '\u{2518}' => (l, n, l, n),
        '\u{2519}' => (l, n, h, n),
        '\u{251A}' => (h, n, l, n),
        '\u{251B}' => (h, n, h, n),
        '\u{251C}' => (l, l, n, l),
        '\u{251D}' => (l, l, n, h),
        '\u{251E}' => (h, l, n, l),
        '\u{251F}' => (l, h, n, l),
        '\u{2520}' => (h, h, n, l),
        '\u{2521}' => (h, l, n, h),
        '\u{2522}' => (l, h, n, h),
        '\u{2523}' => (h, h, n, h),
        '\u{2524}' => (l, l, l, n),
        '\u{2525}' => (l, l, h, n),
        '\u{2526}' => (h, l, l, n),
        '\u{2527}' => (l, h, l, n),
        '\u{2528}' => (h, h, l, n),
        '\u{2529}' => (h, l, h, n),
        '\u{252A}' => (l, h, h, n),
        '\u{252B}' => (h, h, h, n),
        '\u{252C}' => (n, l, l, l),
        '\u{252D}' => (n, l, h, l),
        '\u{252E}' => (n, l, l, h),
        '\u{252F}' => (n, l, h, h),
        '\u{2530}' => (n, h, l, l),
        '\u{2531}' => (n, h, h, l),
        '\u{2532}' => (n, h, l, h),
        '\u{2533}' => (n, h, h, h),
        '\u{2534}' => (l, n, l, l),
        '\u{2535}' => (l, n, h, l),
        '\u{2536}' => (l, n, l, h),
        '\u{2537}' => (l, n, h, h),
        '\u{2538}' => (h, n, l, l),
        '\u{2539}' => (h, n, h, l),
        '\u{253A}' => (h, n, l, h),
        '\u{253B}' => (h, n, h, h),
        '\u{253C}' => (l, l, l, l),
        '\u{253D}' => (l, l, h, l),
        '\u{253E}' => (l, l, l, h),
        '\u{253F}' => (l, l, h, h),
        '\u{2540}' => (h, l, l, l),
        '\u{2541}' => (l, h, l, l),
        '\u{2542}' => (h, h, l, l),
        '\u{2543}' => (h, l, h, l),
        '\u{2544}' => (h, l, l, h),
        '\u{2545}' => (l, h, h, l),
        '\u{2546}' => (l, h, l, h),
        '\u{2547}' => (h, l, h, h),
        '\u{2548}' => (l, h, h, h),
        '\u{2549}' => (h, h, h, l),
        '\u{254A}' => (h, h, l, h),
        '\u{254B}' => (h, h, h, h),
        '\u{2550}' => (n, n, d, d),
        '\u{2551}' => (d, d, n, n),
        '\u{2552}' => (n, l, n, d),
        '\u{2553}' => (n, d, n, l),
        '\u{2554}' => (n, d, n, d),
        '\u{2555}' => (n, l, d, n),
        '\u{2556}' => (n, d, l, n),
        '\u{2557}' => (n, d, d, n),
        '\u{2558}' => (l, n, n, d),
        '\u{2559}' => (d, n, n, l),
        '\u{255A}' => (d, n, n, d),
        '\u{255B}' => (l, n, d, n),
        '\u{255C}' => (d, n, l, n),
        '\u{255D}' => (d, n, d, n),
        '\u{255E}' => (l, l, n, d),
        '\u{255F}' => (d, d, n, l),
        '\u{2560}' => (d, d, n, d),
        '\u{2561}' => (l, l, d, n),
        '\u{2562}' => (d, d, l, n),
        '\u{2563}' => (d, d, d, n),
        '\u{2564}' => (n, l, d, d),
        '\u{2565}' => (n, d, l, l),
        '\u{2566}' => (n, d, d, d),
        '\u{2567}' => (l, n, d, d),
        '\u{2568}' => (d, n, l, l),
        '\u{2569}' => (d, n, d, d),
        '\u{256A}' => (l, l, d, d),
        '\u{256B}' => (d, d, l, l),
        '\u{256C}' => (d, d, d, d),
        '\u{2574}' => (n, n, l, n),
        '\u{2575}' => (l, n, n, n),
        '\u{2576}' => (n, n, n, l),
        '\u{2577}' => (n, l, n, n),
        '\u{2578}' => (n, n, h, n),
        '\u{2579}' => (h, n, n, n),
        '\u{257A}' => (n, n, n, h),
        '\u{257B}' => (n, h, n, n),
        '\u{257C}' => (n, n, l, h),
        '\u{257D}' => (l, h, n, n),
        '\u{257E}' => (n, n, h, l),
        '\u{257F}' => (h, l, n, n),
        _ => return None,
    })
}

/// Horizontal dashed lines.
pub open spec fn horizontal_dash(c: char) -> bool {
    code_in(c, 0x2504, 0x2505) || code_in(c, 0x2508, 0x2509) || code_in(c, 0x254C, 0x254D)
}

/// Vertical dashed lines.
pub open spec fn vertical_dash(c: char) -> bool {
    code_in(c, 0x2506, 0x2507) || code_in(c, 0x250A, 0x250B) || code_in(c, 0x254E, 0x254F)
}

/// The diagonals and their cross.
pub open spec fn diagonal(c: char) -> bool {
    code_in(c, 0x2571, 0x2573)
}

/// The rounded corners.
pub open spec fn rounded_corner(c: char) -> bool {
    code_in(c, 0x256D, 0x2570)
}

/// Every box drawing character is exactly one of a line with arms, a dashed
/// line, a diagonal and a rounded corner.
pub proof fn law_box_drawing_is_partitioned(c: char)
    ensures
        box_drawing(c) == (line_arms(c) is Some || horizontal_dash(c) || vertical_dash(c)
            || diagonal(c) || rounded_corner(c)),
        line_arms(c) is Some ==> !horizontal_dash(c) && !vertical_dash(c) && !diagonal(c)
            && !rounded_corner(c),
        !(horizontal_dash(c) && vertical_dash(c)),
        !(diagonal(c) && rounded_corner(c)),
        !((horizontal_dash(c) || vertical_dash(c)) && (diagonal(c) || rounded_corner(c))),
{
}

/// Every line character has at least one arm.
pub proof fn law_lines_have_an_arm(c: char)
    ensures
        line_arms(c) matches Some((up, down, left, right)) ==> !(up == Stroke::Empty && down
            == Stroke::Empty && left == Stroke::Empty && right == Stroke::Empty),
{
}

/// Number of gaps in a dashed line: one for the double, two for the triple and
/// three for the quadruple dash.
pub open spec fn gap_count(c: char) -> usize {
    if code_in(c, 0x2504, 0x2507) {
        2
    } else if code_in(c, 0x2508, 0x250B) {
        3
    } else {
        1
    }
}

pub fn dash_num_gaps(c: char) -> (r: usize)
    ensures
        r == gap_count(c),
{
    match c {
        '\u{2504}' | '\u{2505}' | '\u{2506}' | '\u{2507}' => 2,
        '\u{2508}' | '\u{2509}' | '\u{250A}' | '\u{250B}' => 3,
        _ => 1,
    }
}

/// The characters that consist of straight lines, and no others, have arms.
pub proof fn law_line_characters_have_arms(c: char)
    ensures
        ({
            let n = c as int;
            line_arms(c) is Some <==> (
                0x2500 <= n <= 0x2503 || 0x250C <= n <= 0x254B || 0x2550 <= n <= 0x256C || 0x2574
                <= n <= 0x257F
            )
        }),
{
}

/// The characters with an arm upwards, by its style, as their names say it.
pub proof fn law_arms_up_are_as_named(c: char)
    requires
        line_arms(c) is Some,
    ensures
        ({
            let n = c as int;
            let arms = line_arms(c)->0;
            &&& arms.0 == Stroke::Light <==> (
                n == 0x2502 || 0x2514 <= n <= 0x2515 || 0x2518 <= n <= 0x2519 || 0x251C <= n <=
                0x251D || n == 0x251F || n == 0x2522 || 0x2524 <= n <= 0x2525 || n == 0x2527 || n
                == 0x252A || 0x2534 <= n <= 0x2537 || 0x253C <= n <= 0x253F || n == 0x2541 ||
                0x2545 <= n <= 0x2546 || n == 0x2548 || n == 0x2558 || n == 0x255B || n == 0x255E
                || n == 0x2561 || n == 0x2567 || n == 0x256A || n == 0x2575 || n == 0x257D
            )
            &&& arms.0 == Stroke::Heavy <==> (
                n == 0x2503 || 0x2516 <= n <= 0x2517 || 0x251A <= n <= 0x251B || n == 0x251E ||
                0x2520 <= n <= 0x2521 || n == 0x2523 || n == 0x2526 || 0x2528 <= n <= 0x2529 || n
                == 0x252B || 0x2538 <= n <= 0x253B || n == 0x2540 || 0x2542 <= n <= 0x2544 || n ==
                0x2547 || 0x2549 <= n <= 0x254B || n == 0x2579 || n == 0x257F
            )
            &&& arms.0 == Stroke::Double <==> (
                n == 0x2551 || 0x2559 <= n <= 0x255A || 0x255C <= n <= 0x255D || 0x255F <= n <=
                0x2560 || 0x2562 <= n <= 0x2563 || 0x2568 <= n <= 0x2569 || 0x256B <= n <= 0x256C
            )
        }),
{
}

/// The characters with an arm downwards, by its style, as their names say it.
pub proof fn law_arms_down_are_as_named(c: char)
    requires
        line_arms(c) is Some,
    ensures
        ({
            let n = c as int;
            let arms = line_arms(c)->0;
            &&& arms.1 == Stroke::Light <==> (
                n == 0x2502 || 0x250C <= n <= 0x250D || 0x2510 <= n <= 0x2511 || 0x251C <= n <=
                0x251E || n == 0x2521 || 0x2524 <= n <= 0x2526 || n == 0x2529 || 0x252C <= n <=
                0x252F || 0x253C <= n <= 0x2540 || 0x2543 <= n <= 0x2544 || n == 0x2547 || n ==
                0x2552 || n == 0x2555 || n == 0x255E || n == 0x2561 || n == 0x2564 || n == 0x256A
                || n == 0x2577 || n == 0x257F
            )
            &&& arms.1 == Stroke::Heavy <==> (
                n == 0x2503 || 0x250E <= n <= 0x250F || 0x2512 <= n <= 0x2513 || 0x251F <= n <=
                0x2520 || 0x2522 <= n <= 0x2523 || 0x2527 <= n <= 0x2528 || 0x252A <= n <= 0x252B
                || 0x2530 <= n <= 0x2533 || 0x2541 <= n <= 0x2542 || 0x2545 <= n <= 0x2546 ||
                0x2548 <= n <= 0x254B || n == 0x257B || n == 0x257D
            )
            &&& arms.1 == Stroke::Double <==> (
                n == 0x2551 || 0x2553 <= n <= 0x2554 || 0x2556 <= n <= 0x2557 || 0x255F <= n <=
                0x2560 || 0x2562 <= n <= 0x2563 || 0x2565 <= n <= 0x2566 || 0x256B <= n <= 0x256C
            )
        }),
{
}

/// The characters with an arm to the left, by its style, as their names say it.
pub proof fn law_arms_left_are_as_named(c: char)
    requires
        line_arms(c) is Some,
    ensures
        ({
            let n = c as int;
            let arms = line_arms(c)->0;
            &&& arms.2 == Stroke::Light <==> (
                n == 0x2500 || n == 0x2510 || n == 0x2512 || n == 0x2518 || n == 0x251A || n ==
                0x2524 || 0x2526 <= n <= 0x2528 || n == 0x252C || n == 0x252E || n == 0x2530 || n
                == 0x2532 || n == 0x2534 || n == 0x2536 || n == 0x2538 || n == 0x253A || n ==
                0x253C || n == 0x253E || 0x2540 <= n <= 0x2542 || n == 0x2544 || n == 0x2546 || n
                == 0x254A || n == 0x2556 || n == 0x255C || n == 0x2562 || n == 0x2565 || n ==
                0x2568 || n == 0x256B || n == 0x2574 || n == 0x257C
            )
            &&& arms.2 == Stroke::Heavy <==> (
                n == 0x2501 || n == 0x2511 || n == 0x2513 || n == 0x2519 || n == 0x251B || n ==
                0x2525 || 0x2529 <= n <= 0x252B || n == 0x252D || n == 0x252F || n == 0x2531 || n
                == 0x2533 || n == 0x2535 || n == 0x2537 || n == 0x2539 || n == 0x253B || n ==
                0x253D || n == 0x253F || n == 0x2543 || n == 0x2545 || 0x2547 <= n <= 0x2549 || n
                == 0x254B || n == 0x2578 || n == 0x257E
            )
            &&& arms.2 == Stroke::Double <==> (
                n == 0x2550 || n == 0x2555 || n == 0x2557 || n == 0x255B || n == 0x255D || n ==
                0x2561 || 0x2563 <= n <= 0x2564 || 0x2566 <= n <= 0x2567 || 0x2569 <= n <= 0x256A
                || n == 0x256C
            )
        }),
{
}

/// The characters with an arm to the right, by its style, as their names say it.
pub proof fn law_arms_right_are_as_named(c: char)
    requires
        line_arms(c) is Some,
    ensures
        ({
            let n = c as int;
            let arms = line_arms(c)->0;
            &&& arms.3 == Stroke::Light <==> (
                n == 0x2500 || n == 0x250C || n == 0x250E || n == 0x2514 || n == 0x2516 || n ==
                0x251C || 0x251E <= n <= 0x2520 || 0x252C <= n <= 0x252D || 0x2530 <= n <= 0x2531
                || 0x2534 <= n <= 0x2535 || 0x2538 <= n <= 0x2539 || 0x253C <= n <= 0x253D ||
                0x2540 <= n <= 0x2543 || n == 0x2545 || n == 0x2549 || n == 0x2553 || n == 0x2559
                || n == 0x255F || n == 0x2565 || n == 0x2568 || n == 0x256B || n == 0x2576 || n ==
                0x257E
            )
            &&& arms.3 == Stroke::Heavy <==> (
                n == 0x2501 || n == 0x250D || n == 0x250F || n == 0x2515 || n == 0x2517 || n ==
                0x251D || 0x2521 <= n <= 0x2523 || 0x252E <= n <= 0x252F || 0x2532 <= n <= 0x2533
                || 0x2536 <= n <= 0x2537 || 0x253A <= n <= 0x253B || 0x253E <= n <= 0x253F || n ==
                0x2544 || 0x2546 <= n <= 0x2548 || 0x254A <= n <= 0x254B || n == 0x257A || n ==
                0x257C
            )
            &&& arms.3 == Stroke::Double <==> (
                n == 0x2550 || n == 0x2552 || n == 0x2554 || n == 0x2558 || n == 0x255A || n ==
                0x255E || n == 0x2560 || n == 0x2564 || 0x2566 <= n <= 0x2567 || 0x2569 <= n <=
                0x256A || n == 0x256C
            )
        }),
{
}

/// The dashed lines, by their direction and the number of their dashes.
pub proof fn law_dashes_are_as_named(c: char)
    ensures
        ({
            let n = c as int;
            &&& horizontal_dash(c) <==> (
                0x2504 <= n <= 0x2505 || 0x2508 <= n <= 0x2509 || 0x254C <= n <= 0x254D
            )
            &&& vertical_dash(c) <==> (
                0x2506 <= n <= 0x2507 || 0x250A <= n <= 0x250B || 0x254E <= n <= 0x254F
            )
            &&& 0x2504 <= n <= 0x2507 ==> gap_count(c) + 1 == 3
            &&& 0x2508 <= n <= 0x250B ==> gap_count(c) + 1 == 4
            &&& 0x254C <= n <= 0x254F ==> gap_count(c) + 1 == 2
            &&& diagonal(c) <==> n == 0x2571 || n == 0x2572 || n == 0x2573
            &&& rounded_corner(c) <==> n == 0x256D || n == 0x256E || n == 0x256F || n == 0x2570
        }),
{
}

} // verus!
