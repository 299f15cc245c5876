//! The glyphs that the terminal draws by itself, at concrete cell metrics.
use std::sync::Arc;

use cosmic_terminal::box_drawing;
use cosmic_terminal::box_drawing::BoxRect;
use cosmic_terminal::corner::CornerCoverage;
use cosmic_terminal::corner::CornerPixel;
use cosmic_terminal::dash::dash_segments;
use cosmic_terminal::dash::DashSegment;
use cosmic_terminal::dash::DashStart;
use cosmic_terminal::glyph;
use cosmic_terminal::glyph::is_block_element;
use cosmic_terminal::glyph::is_box_drawing;
use cosmic_terminal::glyph::is_builtin_glyph;
use cosmic_terminal::glyph::is_powerline;
use cosmic_terminal::glyph::is_segment_block;
use cosmic_terminal::glyph::is_sextant;
use cosmic_terminal::glyph::EighthRect;
use cosmic_terminal::glyph::SextantCell;
use cosmic_terminal::glyph_rects;
use cosmic_terminal::glyph_rects::GlyphRects;
use cosmic_terminal::glyph_rects::RectCache;
use cosmic_terminal::glyph_rects::RECT_CACHE_CAPACITY;
use cosmic_terminal::line::light_stroke;
use cosmic_terminal::line::stroke_bands;
use cosmic_terminal::line::Coord;
use cosmic_terminal::line::StrokeRect;
use cosmic_terminal::powerline;
use cosmic_terminal::powerline::PixelRect;
use cosmic_terminal::slope::BandSample;
use cosmic_terminal::slope::PieceCoverage;
use cosmic_terminal::slope::PieceEnd;
use cosmic_terminal::slope::SlopeLine;
use cosmic_terminal::slope::SlopeRect;
use cosmic_terminal::stroke::box_drawing_arms;
use cosmic_terminal::stroke::dash_num_gaps;
use cosmic_terminal::stroke::Stroke;

/// A rectangle as position and size in fractions of the cell, with its alpha.
type CellRect = ([f32; 2], [f32; 2], f32);

/// A rectangle in pixels, with its alpha.
type PixelArea = (f32, f32, f32, f32, f32);

fn normalize_rects(rects: Vec<PixelArea>, cell_width: f32, cell_height: f32) -> Vec<CellRect> {
    rects
        .into_iter()
        .map(|(x, y, width, height, alpha)| {
            let x = x.clamp(0.0, cell_width);
            let y = y.clamp(0.0, cell_height);
            (
                [x / cell_width, y / cell_height],
                [
                    width.min(cell_width - x).max(0.0) / cell_width,
                    height.min(cell_height - y).max(0.0) / cell_height,
                ],
                alpha,
            )
        })
        .filter(|&(_, size, _)| size[0] > 0.0 && size[1] > 0.0)
        .collect()
}

fn coord(coord: Coord, cell: f32, stroke: f32) -> f32 {
    let base = match coord.halves {
        0 => 0.0,
        1 => cell / 2.0,
        _ => cell,
    };
    base + coord.gaps as f32 * (stroke / 2.0 + 1.0) + coord.half_strokes as f32 * (stroke / 2.0)
}

fn eval_stroke(rect: &StrokeRect, width: f32, height: f32, stroke: f32) -> PixelArea {
    let (along, across) = if rect.vertical {
        (height, width)
    } else {
        (width, height)
    };
    let start = coord(rect.start, along, stroke);
    let len = coord(rect.end, along, stroke) - start;
    let pos = coord(rect.band.across, across, stroke);
    let thickness = rect.band.thickness as f32 * stroke;
    if rect.vertical {
        (pos, start, thickness, len, 1.0)
    } else {
        (start, pos, len, thickness, 1.0)
    }
}

fn eval_dash(segment: &DashSegment, total: f32) -> (f32, f32) {
    let dash = segment.len as f32;
    let start = match segment.start {
        DashStart::At(start) => start as f32,
        DashStart::BeforeEnd => (total - dash).max(0.0),
    };
    (start, dash.min((total - start).max(0.0)))
}

fn eval_pixel(pixel: &CornerPixel, width: f32, height: f32, stroke: f32) -> PixelArea {
    let short = (width.max(1.0) as usize).min(height.max(1.0) as usize);
    let stroke_size = stroke.max(1.0) as usize;
    let radius = (short + stroke_size) as f32 / 2.0;
    let bias = if short % 2 == stroke_size % 2 { 0.0 } else { 0.5 };
    let distance = |dx: u32, dy: u32| (dx as f32).hypot(dy as f32) + bias;
    let alpha: f32 = match pixel.coverage {
        CornerCoverage::Full => 1.0,
        CornerCoverage::Inner { dx, dy } => 1.0 + distance(dx, dy) - (radius - stroke_size as f32),
        CornerCoverage::Outer { dx, dy } => radius - distance(dx, dy),
    };
    (pixel.x as f32, pixel.y as f32, 1.0, 1.0, alpha.min(1.0))
}

/// A diagonal with its borders at every step.
struct Diagonal {
    line: SlopeLine,
    borders: Vec<(f32, f32)>,
}

fn diagonal(from: (f32, f32), to: (f32, f32), thickness: f32, cell: (f32, f32)) -> Diagonal {
    let steep = (to.1 - from.1).abs() > (to.0 - from.0).abs();
    let (mut a, mut a_minor, mut b, mut b_minor) = if steep {
        (from.1, from.0, to.1, to.0)
    } else {
        (from.0, from.1, to.0, to.1)
    };
    if a > b {
        std::mem::swap(&mut a, &mut b);
        std::mem::swap(&mut a_minor, &mut b_minor);
    }
    let slope = (b_minor - a_minor) / (b - a);
    let (major_max, minor_max) = if steep { (cell.1, cell.0) } else { cell };
    let first_step = a.floor() as i32;
    let mut samples = Vec::new();
    let mut borders = Vec::new();
    for m in first_step..(b.ceil() as i32) {
        let center = a_minor + (m as f32 + 0.5 - a) * slope;
        let (lo, hi) = (center - thickness / 2.0, center + thickness / 2.0);
        samples.push(BandSample {
            first: lo.floor() as i32,
            last: hi.floor() as i32,
            flush: hi == hi.floor(),
            visible: !(hi <= 0.0 || lo >= minor_max),
        });
        borders.push((lo, hi));
    }
    Diagonal {
        line: SlopeLine {
            steep,
            first_step,
            samples,
            major_floor: major_max.floor() as i32,
            major_ceil: major_max.ceil() as i32,
            minor_floor: minor_max.floor() as i32,
            minor_ceil: minor_max.ceil() as i32,
        },
        borders,
    }
}

fn eval_slope(rect: &SlopeRect, diagonal: &Diagonal, cell: (f32, f32)) -> PixelArea {
    let (lo, hi) = diagonal.borders[(rect.step - diagonal.line.first_step) as usize];
    let (major_max, minor_max) = if rect.steep { (cell.1, cell.0) } else { cell };
    let start = rect.start as f32;
    let end = match rect.end {
        PieceEnd::At(end) => end as f32,
        PieceEnd::CellEdge => minor_max,
    };
    let span = end - start;
    let alpha: f32 = match rect.coverage {
        PieceCoverage::Whole => 1.0,
        PieceCoverage::FromLower => start + 1.0 - lo,
        PieceCoverage::ToUpper => hi - start,
        PieceCoverage::Between => hi - lo,
    };
    let step = rect.step as f32;
    let step_end = match rect.step_end {
        PieceEnd::At(end) => end as f32,
        PieceEnd::CellEdge => major_max,
    };
    let length = step_end - step;
    if rect.steep {
        (start, step, span, length, alpha.min(1.0))
    } else {
        (step, start, length, span, alpha.min(1.0))
    }
}

fn eval_box(rects: &[BoxRect], cell: (f32, f32), falling: &Diagonal, rising: &Diagonal, c: char) -> Vec<CellRect> {
    let (width, height) = cell;
    let stroke = light_stroke(width as u32) as f32;
    let mut areas = Vec::new();
    let falling_rects = if c == '\u{2571}' {
        0
    } else {
        cosmic_terminal::slope::aa_line_rects(&falling.line).len()
    };
    for (i, rect) in rects.iter().enumerate() {
        match rect {
            BoxRect::Stroke(rect) => areas.push(eval_stroke(rect, width, height, stroke)),
            BoxRect::Dash { vertical, band, segment } => {
                let (along, across) = if *vertical {
                    (height, width)
                } else {
                    (width, height)
                };
                let (start, len) = eval_dash(segment, along);
                let pos = coord(band.across, across, stroke);
                let thickness = band.thickness as f32 * stroke;
                areas.push(if *vertical {
                    (pos, start, thickness, len, 1.0)
                } else {
                    (start, pos, len, thickness, 1.0)
                });
            }
            BoxRect::Slope(rect) => {
                let line = if i < falling_rects { falling } else { rising };
                areas.push(eval_slope(rect, line, cell));
            }
            BoxRect::Pixel(pixel) => areas.push(eval_pixel(pixel, width, height, stroke)),
        }
    }
    normalize_rects(areas, width, height)
}

fn diagonals(cell_width: f32, cell_height: f32) -> (Diagonal, Diagonal) {
    let cell = (cell_width, cell_height);
    let thickness = light_stroke(cell_width as u32) as f32 + 0.5;
    (
        diagonal((0.0, 0.0), cell, thickness, cell),
        diagonal((0.0, cell_height), (cell_width, 0.0), thickness, cell),
    )
}

fn box_drawing_rects(c: char, cell_width: f32, cell_height: f32) -> Vec<CellRect> {
    let (falling, rising) = diagonals(cell_width, cell_height);
    let rects = box_drawing::box_drawing_rects(
        c,
        cell_width as u32,
        cell_height as u32,
        &falling.line,
        &rising.line,
    );
    eval_box(&rects, (cell_width, cell_height), &falling, &rising, c)
}

fn eval_powerline(rects: &[PixelRect], cell_width: f32, cell_height: f32) -> Vec<CellRect> {
    let areas = rects
        .iter()
        .map(|rect| {
            (
                rect.x as f32,
                rect.y as f32,
                rect.width as f32,
                rect.height as f32,
                1.0,
            )
        })
        .collect();
    normalize_rects(areas, cell_width, cell_height)
}

fn powerline_rects(c: char, cell_width: f32, cell_height: f32) -> Vec<CellRect> {
    let rects = powerline::powerline_rects(
        c,
        cell_width.max(1.0) as i32,
        cell_height.max(1.0) as i32,
    );
    eval_powerline(&rects, cell_width, cell_height)
}

fn powerline_fits(cell_width: f32, cell_height: f32) -> bool {
    powerline::powerline_fits(cell_width.max(1.0) as i32, cell_height.max(1.0) as i32)
}

fn eighth(rect: &EighthRect) -> ([f32; 2], [f32; 2]) {
    (
        [rect.x as f32 / 8.0, rect.y as f32 / 8.0],
        [rect.width as f32 / 8.0, rect.height as f32 / 8.0],
    )
}

fn block_element_rects(c: char) -> Vec<([f32; 2], [f32; 2])> {
    glyph::block_element_rects(c).iter().map(eighth).collect()
}

fn block_element_alpha(c: char) -> f32 {
    glyph::block_element_alpha(c) as f32 / 4.0
}

fn sextant(cell: &SextantCell) -> ([f32; 2], [f32; 2]) {
    const THIRD: f32 = 1.0 / 3.0;
    (
        [cell.column as f32 * 0.5, cell.row as f32 * THIRD],
        [0.5, THIRD],
    )
}

fn sextant_rects(c: char) -> Vec<([f32; 2], [f32; 2])> {
    glyph::sextant_rects(c).iter().map(sextant).collect()
}

fn build_glyph_rects(c: char, cell_width: f32, cell_height: f32) -> Vec<CellRect> {
    let (falling, rising) = diagonals(cell_width, cell_height);
    let rects = glyph_rects::builtin_glyph_rects(
        c,
        cell_width as u32,
        cell_height as u32,
        &falling.line,
        &rising.line,
    );
    match rects {
        GlyphRects::Block { rects, alpha } => rects
            .iter()
            .map(|rect| {
                let (pos, size) = eighth(rect);
                (pos, size, alpha as f32 / 4.0)
            })
            .collect(),
        GlyphRects::Sextant(cells) => cells
            .iter()
            .map(|cell| {
                let (pos, size) = sextant(cell);
                (pos, size, 1.0)
            })
            .collect(),
        GlyphRects::Powerline(rects) => eval_powerline(&rects, cell_width, cell_height),
        GlyphRects::BoxDrawing(rects) => {
            eval_box(&rects, (cell_width, cell_height), &falling, &rising, c)
        }
    }
}

fn builtin_glyph_rects(
    cache: &mut RectCache<Vec<CellRect>>,
    c: char,
    cell_width: f32,
    cell_height: f32,
) -> Arc<Vec<CellRect>> {
    cache.get_or_build(c, cell_width.to_bits(), cell_height.to_bits(), || {
        build_glyph_rects(c, cell_width, cell_height)
    })
}

#[test]
fn all_block_elements_have_valid_rects() {
    for cp in 0x2580..=0x259F {
        let c = char::from_u32(cp).unwrap();
        assert!(is_block_element(c), "{c:?} should be a block element");

        for (pos, size) in block_element_rects(c) {
            assert!(size[0] > 0.0 && size[1] > 0.0, "{c:?} rect not empty");
            assert!(pos[0] >= 0.0 && pos[1] >= 0.0, "{c:?} rect starts in cell");
            assert!(
                pos[0] + size[0] <= 1.0 && pos[1] + size[1] <= 1.0,
                "{c:?} rect ends in cell"
            );
        }

        match c {
            '\u{2591}' | '\u{2592}' | '\u{2593}' => {
                assert_eq!(block_element_rects(c), vec![([0.0, 0.0], [1.0, 1.0])]);
            }
            _ => assert_eq!(block_element_alpha(c), 1.0),
        }
    }

    let area = |c: char| -> f32 {
        block_element_rects(c)
            .iter()
            .map(|&(_, size)| size[0] * size[1])
            .sum()
    };
    assert_eq!(area('\u{2580}'), 0.5); // ▀
    assert_eq!(area('\u{2588}'), 1.0); // █
    assert_eq!(area('\u{258C}'), 0.5); // ▌
    assert_eq!(area('\u{2598}'), 0.25); // ▘
    assert_eq!(area('\u{259F}'), 0.75); // ▟
    // Vertical eighths from ▁ up to █ fill the cell in steps
    for (i, c) in ('\u{2581}'..='\u{2588}').enumerate() {
        assert_eq!(area(c), (i + 1) as f32 / 8.0);
    }
}

#[test]
fn half_blocks_tile_seamlessly() {
    // The bottom edge of an upper half block must meet the top edge of a
    // lower half block in the row below exactly at the cell boundary
    let (upper_pos, upper_size) = block_element_rects('\u{2580}')[0];
    assert_eq!((upper_pos, upper_size), ([0.0, 0.0], [1.0, 0.5]));
    let (lower_pos, lower_size) = block_element_rects('\u{2584}')[0];
    assert_eq!((lower_pos, lower_size), ([0.0, 0.5], [1.0, 0.5]));
    assert_eq!(upper_pos[1] + upper_size[1], lower_pos[1]);

    assert_eq!(block_element_rects('\u{2588}')[0], ([0.0, 0.0], [1.0, 1.0]));
    assert_eq!(block_element_alpha('\u{2591}'), 0.25);
    assert_eq!(block_element_alpha('\u{2592}'), 0.5);
    assert_eq!(block_element_alpha('\u{2593}'), 0.75);
}

#[test]
fn builtin_glyph_coverage() {
    // All box drawing characters, including the diagonals, all block
    // elements and segment blocks, the sextant mosaics and the powerline
    // symbols are drawn by the terminal itself
    for cp in (0x2500..=0x259F)
        .chain(0x1FB00..=0x1FB3B)
        .chain(0x1FB82..=0x1FB8B)
    {
        let c = char::from_u32(cp).unwrap();
        assert!(is_builtin_glyph(c), "{c:?} should be a builtin glyph");
    }
    for c in '\u{E0B0}'..='\u{E0B3}' {
        assert!(is_builtin_glyph(c), "{c:?} should be a builtin glyph");
    }
    assert!(!is_builtin_glyph('a'));
    assert!(!is_builtin_glyph('✓'));
    // Neighboring Symbols for Legacy Computing and powerline code points
    // stay font glyphs
    for cp in [0x1FB3C, 0x1FB70, 0x1FB8C, 0xE0AF, 0xE0B4] {
        let c = char::from_u32(cp).unwrap();
        assert!(!is_builtin_glyph(c), "{c:?} should be a font glyph");
    }
}

#[test]
fn box_drawing_rects_stay_in_cell() {
    for cp in 0x2500..=0x257F {
        let c = char::from_u32(cp).unwrap();
        for &(pos, size, alpha) in &box_drawing_rects(c, 9.0, 21.0) {
            assert!(size[0] > 0.0 && size[1] > 0.0, "{c:?} rect not empty");
            assert!(pos[0] >= 0.0 && pos[1] >= 0.0, "{c:?} rect starts in cell");
            assert!(
                pos[0] + size[0] <= 1.0 + 1e-5 && pos[1] + size[1] <= 1.0 + 1e-5,
                "{c:?} rect ends in cell"
            );
            assert!(
                (0.0..=1.0).contains(&alpha),
                "{c:?} alpha {alpha} out of range"
            );
        }
    }
}

#[test]
fn box_drawing_lines_reach_cell_edges() {
    // With a 9x21 cell the light stroke is 1px and the heavy stroke 2px.
    let rects = |c: char| box_drawing_rects(c, 9.0, 21.0);

    assert_eq!(
        rects('\u{2503}'),
        vec![([3.5 / 9.0, 0.0], [2.0 / 9.0, 1.0], 1.0)]
    );
    assert_eq!(
        rects('\u{2502}'),
        vec![([4.0 / 9.0, 0.0], [1.0 / 9.0, 1.0], 1.0)]
    );
    assert_eq!(
        rects('\u{2500}'),
        vec![([0.0, 10.0 / 21.0], [1.0, 1.0 / 21.0], 1.0)]
    );
    assert_eq!(
        rects('\u{2501}'),
        vec![([0.0, 9.5 / 21.0], [1.0, 2.0 / 21.0], 1.0)]
    );
    assert_eq!(
        rects('\u{2551}'),
        vec![
            ([2.5 / 9.0, 0.0], [1.0 / 9.0, 1.0], 1.0),
            ([5.5 / 9.0, 0.0], [1.0 / 9.0, 1.0], 1.0),
        ]
    );

    // Corners and half lines meet the edges they point at: ┌ reaches the
    // bottom and the right edge, ╵ only the top half of the vertical
    let corner = rects('\u{250C}');
    assert_eq!(corner.len(), 2);
    assert!(corner.iter().any(|&(_, size, _)| size == [1.0 / 9.0, 0.5]));
    assert!(corner.iter().any(|&(_, size, _)| size == [0.5, 1.0 / 21.0]));
    assert_eq!(
        rects('\u{2575}'),
        vec![([4.0 / 9.0, 0.0], [1.0 / 9.0, 0.5], 1.0)]
    );
}

#[test]
fn box_drawing_lines_tile_seamlessly() {
    let cw = 9.0;
    let ch = 21.0;

    assert_eq!(box_drawing_rects('\u{2504}', cw, ch).len(), 3); // ┄ triple
    assert_eq!(box_drawing_rects('\u{2508}', cw, ch).len(), 4); // ┈ quadruple
    assert_eq!(box_drawing_rects('\u{254C}', cw, ch).len(), 2); // ╌ double

    // Every vertical stroke of the vertical line and dash characters is
    // centered on the cell's horizontal center line, so borders mixing
    // them keep their columns aligned.
    for c in [
        '\u{2502}', '\u{2503}', '\u{2506}', '\u{2507}', '\u{250A}', '\u{250B}', '\u{254E}',
        '\u{254F}', '\u{2551}',
    ] {
        let centers: Vec<f32> = box_drawing_rects(c, cw, ch)
            .iter()
            .map(|&(pos, size, _)| pos[0] + size[0] / 2.0)
            .collect();
        let mid = centers.iter().sum::<f32>() / centers.len() as f32;
        assert!((mid - 0.5).abs() < 1e-5, "{c:?} strokes centered");
    }
    for c in [
        '\u{2500}', '\u{2501}', '\u{2504}', '\u{2505}', '\u{2508}', '\u{2509}', '\u{254C}',
        '\u{254D}', '\u{2550}',
    ] {
        let centers: Vec<f32> = box_drawing_rects(c, cw, ch)
            .iter()
            .map(|&(pos, size, _)| pos[1] + size[1] / 2.0)
            .collect();
        let mid = centers.iter().sum::<f32>() / centers.len() as f32;
        assert!((mid - 0.5).abs() < 1e-5, "{c:?} strokes centered");
    }

    // A single stroke meeting a double stroke stops at its outer edge:
    // ╤'s stem starts below the lower line of the double horizontal and
    // runs to the bottom edge, leaving the gap between the lines open.
    let stem = box_drawing_rects('\u{2564}', cw, ch)
        .into_iter()
        .find(|&(_, size, _)| size[0] < 0.2)
        .unwrap();
    assert!(stem.0[1] > 0.5, "stem starts below the cell center");
    assert_eq!(stem.0[1] + stem.1[1], 1.0, "stem runs to the bottom edge");
}

#[test]
fn box_drawing_arcs_connect_edge_midpoints() {
    // ╰ connects the vertical stroke of the cell above (at the horizontal
    // center) with the horizontal stroke of the cell to its right (at the
    // vertical center).
    let rects = box_drawing_rects('\u{2570}', 9.0, 21.0);
    assert!(rects.iter().any(|&(pos, size, _)| {
        let cx = pos[0] + size[0] / 2.0;
        pos[1] == 0.0 && (cx - 0.5).abs() < 0.01 && size[1] > 0.0
    }));
    assert!(rects.iter().any(|&(pos, size, _)| {
        let cy = pos[1] + size[1] / 2.0;
        pos[0] + size[0] > 0.99 && (cy - 0.5).abs() < 0.01 && size[0] > 0.0
    }));
}

#[test]
fn box_drawing_arcs_match_hand_rasterized_reference() {
    // '╯' in a 5x7 cell with a 1px stroke: a quarter circle of radius 3
    // centered at (0, 1), drawn as a distance field with antialiased
    // borders, plus the straight connector from the top edge to the arc.
    let pixels: Vec<(usize, usize, f32)> = box_drawing_rects('\u{256F}', 5.0, 7.0)
        .into_iter()
        .map(|(pos, size, alpha)| {
            assert!((size[0] * 5.0 - 1.0).abs() < 1e-5, "{pos:?} {size:?}");
            assert!((size[1] * 7.0 - 1.0).abs() < 1e-5, "{pos:?} {size:?}");
            (
                (pos[0] * 5.0).round() as usize,
                (pos[1] * 7.0).round() as usize,
                alpha,
            )
        })
        .collect();
    let expected = [
        ((2, 0), 1.0), // connector from the top edge
        ((2, 1), 1.0), // stroke peak, one stroke inside the outer radius
        ((1, 2), 0.414_214),
        ((2, 2), 0.763_932),
        ((0, 3), 1.0), // meets the horizontal stroke at the vertical center
        ((1, 3), 0.763_932),
        ((2, 3), 0.171_573),
    ];
    assert_eq!(pixels.len(), expected.len());
    for (pixel, (at, alpha)) in pixels.iter().zip(expected) {
        assert_eq!((pixel.0, pixel.1), at, "alpha {alpha} vs {pixel:?}");
        assert!(
            (pixel.2 - alpha).abs() < 1e-5,
            "alpha at {at:?}: {} vs {alpha}",
            pixel.2
        );
    }
}

#[test]
fn box_drawing_arcs_are_mirrors_of_each_other() {
    // Pixel coverage of a corner, optionally mirrored on an axis the way
    // `rounded_corner_pixels` mirrors its base '╯': like reflecting an
    // image, an axis whose pixel count and stroke disagree in parity
    // duplicates the outermost column or row. Alphas are compared
    // quantized to 1/255 steps.
    let coverage = |c: char, w: f32, h: f32| -> Vec<(usize, usize, u32)> {
        let mut pixels: Vec<(usize, usize, u32)> = box_drawing_rects(c, w, h)
            .into_iter()
            .map(|(pos, _, alpha)| {
                (
                    (pos[0] * w).round() as usize,
                    (pos[1] * h).round() as usize,
                    (alpha * 255.0).round() as u32,
                )
            })
            .collect();
        pixels.sort_unstable();
        pixels
    };
    let mirrored = |c: char, w: f32, h: f32, fx: bool, fy: bool| -> Vec<(usize, usize, u32)> {
        let (iw, ih) = (w as usize, h as usize);
        let stroke = (w / 8.0).round().max(1.0) as usize;
        let extra_x = usize::from(stroke % 2 != iw % 2);
        let extra_y = usize::from(stroke % 2 != ih % 2);
        let mut pixels: Vec<(usize, usize, u32)> = coverage(c, w, h)
            .into_iter()
            .flat_map(|(x, y, a)| {
                let mut mapped = vec![(x, y, a)];
                if fx && x == 0 && extra_x == 1 {
                    mapped.push((iw - 1, y, a));
                }
                if fy && y == 0 && extra_y == 1 {
                    mapped.push((x, ih - 1, a));
                }
                if fx {
                    mapped[0].0 = iw - 1 - x - extra_x;
                }
                if fy {
                    mapped[0].1 = ih - 1 - y - extra_y;
                }
                mapped
            })
            .collect();
        pixels.sort_unstable();
        pixels
    };
    let close = |a: &[(usize, usize, u32)], b: &[(usize, usize, u32)]| {
        assert_eq!(a.len(), b.len(), "{a:?} vs {b:?}");
        for (p, q) in a.iter().zip(b) {
            assert_eq!(p, q, "mismatched pixel");
        }
    };
    // Cell sizes exercising odd/even width, height and stroke parity.
    for (w, h) in [(9.0, 21.0), (10.0, 21.0), (21.0, 9.0), (10.0, 20.0)] {
        // ╰ is the base '╯' mirrored on the X axis, ╮ on the Y axis, and
        // ╭ on both.
        close(
            &mirrored('\u{256F}', w, h, true, false),
            &coverage('\u{2570}', w, h),
        );
        close(
            &mirrored('\u{256F}', w, h, false, true),
            &coverage('\u{256E}', w, h),
        );
        close(
            &mirrored('\u{256F}', w, h, true, true),
            &coverage('\u{256D}', w, h),
        );
    }
}

#[test]
fn box_drawing_arc_stem_has_no_jog() {
    // The curve of '╰' must leave the vertical stem without a sideways
    // step: the stem column keeps full coverage down to where the arc
    // starts, and nothing pokes out beside it above that point.
    let rects = box_drawing_rects('\u{2570}', 9.0, 21.0);
    let at = |x: usize, y: usize| {
        rects
            .iter()
            .find(|&&(pos, _, _)| {
                (pos[0] * 9.0).round() as usize == x && (pos[1] * 21.0).round() as usize == y
            })
            .map(|&(_, _, alpha)| alpha)
            .unwrap_or(0.0)
    };
    for y in 0..=6 {
        assert_eq!(at(4, y), 1.0, "stem pixel (4, {y}) fully covered");
        assert_eq!(at(3, y), 0.0, "nothing left of the stem at row {y}");
        assert_eq!(at(5, y), 0.0, "nothing right of the stem at row {y}");
    }
    // From there the arc sweeps right, reaching the vertical center at
    // the right edge, where the horizontal stroke of the next cell
    // attaches.
    assert_eq!(at(8, 10), 1.0);
    assert_eq!(at(8, 9), 0.0);
    assert_eq!(at(8, 11), 0.0);
}

#[test]
fn box_drawing_diagonals_run_corner_to_corner_without_holes() {
    // The regression this test guards against: font-rendered diagonals do
    // not fill the cell height, leaving holes at every line boundary and
    // sawtoothing back to the glyph's left bearing.
    for c in ['\u{2571}', '\u{2572}'] {
        let rects = box_drawing_rects(c, 9.0, 21.0);
        assert!(!rects.is_empty(), "{c:?} has rects");

        // Antialiased: partial coverage pieces besides full ones.
        assert!(rects.iter().any(|&(_, _, alpha)| alpha < 1.0));
        assert!(
            rects
                .iter()
                .all(|&(_, _, alpha)| (0.0..=1.0).contains(&alpha))
        );

        // The coverage reaches all four cell edges, so consecutive
        // diagonal characters connect at the shared corners.
        type Rect = ([f32; 2], [f32; 2], f32);
        type EdgeTest = fn(&Rect) -> bool;
        let touches = |edge: EdgeTest| rects.iter().any(edge);
        assert!(touches(|&(pos, _, _)| pos[1] <= 1e-5), "{c:?} top edge");
        assert!(
            touches(|&(pos, size, _)| pos[1] + size[1] >= 1.0 - 1e-5),
            "{c:?} bottom edge"
        );
        assert!(touches(|&(pos, _, _)| pos[0] <= 1e-5), "{c:?} left edge");
        assert!(
            touches(|&(pos, size, _)| pos[0] + size[0] >= 1.0 - 1e-5),
            "{c:?} right edge"
        );

        // No holes: every pixel row of the cell carries coverage.
        let mut rows = [false; 21];
        for &(pos, size, alpha) in &rects {
            if alpha > 0.0 {
                let first = (pos[1] * 21.0).round() as usize;
                let last = ((pos[1] + size[1]) * 21.0).round() as usize;
                rows[first..last.min(21)].fill(true);
            }
        }
        assert!(rows.iter().all(|&row| row), "{c:?} covers every row");
    }
}

#[test]
fn box_drawing_cross_has_both_diagonals() {
    // ╳ diverges from the top-left and the top-right corner at once
    let rects = box_drawing_rects('\u{2573}', 9.0, 21.0);
    let starts_left = rects
        .iter()
        .any(|&(pos, _, _)| pos[0] <= 1e-5 && pos[1] <= 1e-5);
    let starts_right = rects
        .iter()
        .any(|&(pos, size, _)| pos[0] + size[0] >= 1.0 - 1e-5 && pos[1] <= 1e-5);
    assert!(starts_left, "╳ reaches the top left corner");
    assert!(starts_right, "╳ reaches the top right corner");

    // And it is the union of both single diagonals
    let single = |c: char| box_drawing_rects(c, 9.0, 21.0).len();
    assert_eq!(rects.len(), single('\u{2571}') + single('\u{2572}'));
}

#[test]
fn segment_blocks_fill_their_namesakes() {
    let area = |c: char| -> f32 {
        block_element_rects(c)
            .iter()
            .map(|&(_, size)| size[0] * size[1])
            .sum()
    };

    for cp in 0x1FB82..=0x1FB8B {
        let c = char::from_u32(cp).unwrap();
        assert!(is_segment_block(c), "{c:?} should be a segment block");
        assert_eq!(block_element_rects(c).len(), 1, "{c:?} is a single rect");
        let &(pos, size) = &block_element_rects(c)[0];
        assert!(
            pos[0] >= 0.0
                && pos[1] >= 0.0
                && pos[0] + size[0] <= 1.0
                && pos[1] + size[1] <= 1.0,
            "{c:?} rect stays in cell"
        );
        assert_eq!(block_element_alpha(c), 1.0);
    }

    // Upper blocks grow from a quarter to seven eighths, anchored at
    // the top edge of the cell
    for (i, c) in ('\u{1FB82}'..='\u{1FB86}').enumerate() {
        let height = [2.0 / 8.0, 3.0 / 8.0, 5.0 / 8.0, 6.0 / 8.0, 7.0 / 8.0][i];
        assert_eq!(
            block_element_rects(c)[0],
            ([0.0, 0.0], [1.0, height]),
            "{c:?}"
        );
    }
    // Right blocks are anchored at the right edge of the cell
    for (i, c) in ('\u{1FB87}'..='\u{1FB8B}').enumerate() {
        let width = [2.0 / 8.0, 3.0 / 8.0, 5.0 / 8.0, 6.0 / 8.0, 7.0 / 8.0][i];
        let &(pos, size) = &block_element_rects(c)[0];
        assert_eq!((size[0], size[1]), (width, 1.0), "{c:?}");
        assert_eq!(pos[0] + size[0], 1.0, "{c:?} touches the right edge");
    }

    // Upper blocks complement the Block Elements lower blocks exactly,
    // so stacks of them tile the cell without gaps or overlap
    assert!((area('\u{1FB82}') + area('\u{2586}') - 1.0).abs() < 1e-6); // 🮂 + ▆
    assert!((area('\u{1FB83}') + area('\u{2585}') - 1.0).abs() < 1e-6); // 🮃 + ▅
    assert!((area('\u{1FB84}') + area('\u{2583}') - 1.0).abs() < 1e-6); // 🮄 + ▃
    assert!((area('\u{1FB85}') + area('\u{2582}') - 1.0).abs() < 1e-6); // 🮅 + ▂
    assert!((area('\u{1FB86}') + area('\u{2581}') - 1.0).abs() < 1e-6); // 🮆 + ▁
}

#[test]
fn sextants_match_their_unicode_names() {
    // Grids derived from the Unicode names BLOCK SEXTANT-N,
    // whose digits 1-6 enumerate the grid cells of the 2x3 mosaic in
    // reading order
    let cell = |digits: &str| {
        const CELLS: [([f32; 2], [f32; 2]); 6] = [
            ([0.0, 0.0], [0.5, 1.0 / 3.0]),
            ([0.5, 0.0], [0.5, 1.0 / 3.0]),
            ([0.0, 1.0 / 3.0], [0.5, 1.0 / 3.0]),
            ([0.5, 1.0 / 3.0], [0.5, 1.0 / 3.0]),
            ([0.0, 2.0 / 3.0], [0.5, 1.0 / 3.0]),
            ([0.5, 2.0 / 3.0], [0.5, 1.0 / 3.0]),
        ];
        digits
            .chars()
            .map(|d| CELLS[d.to_digit(10).unwrap() as usize - 1])
            .collect::<Vec<_>>()
    };

    assert_eq!(sextant_rects('\u{1FB00}'), cell("1")); // 🬀
    assert_eq!(sextant_rects('\u{1FB01}'), cell("2")); // 🬁
    assert_eq!(sextant_rects('\u{1FB02}'), cell("12")); // 🬂
    assert_eq!(sextant_rects('\u{1FB03}'), cell("3")); // 🬃
    assert_eq!(sextant_rects('\u{1FB07}'), cell("4")); // 🬇
    assert_eq!(sextant_rects('\u{1FB0F}'), cell("5")); // 🬏
    assert_eq!(sextant_rects('\u{1FB1E}'), cell("6")); // 🬞
    assert_eq!(sextant_rects('\u{1FB14}'), cell("235")); // 🬔
    assert_eq!(sextant_rects('\u{1FB1D}'), cell("12345")); // 🬝
    assert_eq!(sextant_rects('\u{1FB3B}'), cell("23456")); // 🬻
}

#[test]
fn sextants_fill_whole_grid_cells() {
    for cp in 0x1FB00..=0x1FB3B {
        let c = char::from_u32(cp).unwrap();
        let rects = sextant_rects(c);
        // The empty, checkerboard and full mosaics have no code point,
        // so every character fills between one and five cells
        assert!(!rects.is_empty(), "{c:?} fills no cell");
        assert!(rects.len() <= 5, "{c:?} fills more than five cells");

        for &(pos, size) in &rects {
            assert_eq!(size, [0.5, 1.0 / 3.0], "{c:?} fills a whole cell");
            let column = (pos[0] * 2.0).round() as i32;
            let row = (pos[1] * 3.0).round() as i32;
            assert!(
                (0..2).contains(&column) && (0..3).contains(&row),
                "{c:?} rect {pos:?} snaps to the 2x3 grid"
            );
        }

        // No cell is filled twice
        let mut corners: Vec<_> = rects.iter().map(|&(pos, _)| pos).collect();
        corners.sort_by(|a, b| a.partial_cmp(b).unwrap());
        corners.dedup_by(|a, b| a == b);
        assert_eq!(corners.len(), rects.len(), "{c:?} fills a cell twice");

        let area: f32 = rects.iter().map(|&(_, size)| size[0] * size[1]).sum();
        assert!(
            (area - rects.len() as f32 / 6.0).abs() < 1e-6,
            "{c:?} covers {} sixths of the cell",
            rects.len()
        );
    }
}

#[test]
fn powerline_triangles_match_hand_rasterized_reference() {
    // At 5x7 the diagonals start one pixel inside the corners, the runs
    // grow with the distance from them and meet in the middle row
    let mut rects = powerline_rects('\u{E0B0}', 5.0, 7.0);
    rects.sort_by(|a, b| (a.0[1], a.0[0]).partial_cmp(&(b.0[1], b.0[0])).unwrap());
    let expected: Vec<([f32; 2], [f32; 2], f32)> =
        [(1.0, 1.0), (2.0, 2.0), (3.0, 3.0), (2.0, 4.0), (1.0, 5.0)]
            .iter()
            .map(|&(w, y)| ([0.0, y / 7.0], [w / 5.0, 1.0 / 7.0], 1.0))
            .collect();
    assert_eq!(rects, expected);

    // At 3x7 the widest runs are clamped to the cell width
    let mut rects = powerline_rects('\u{E0B0}', 3.0, 7.0);
    rects.sort_by(|a, b| (a.0[1], a.0[0]).partial_cmp(&(b.0[1], b.0[0])).unwrap());
    assert_eq!(rects[2].1[0], 1.0, "middle row spans the whole cell");
}

#[test]
fn powerline_arrows_match_hand_rasterized_reference() {
    // At 5x7 with stroke 1 the arrow is a dotted chevron meeting at the
    // center pixel
    let mut rects = powerline_rects('\u{E0B1}', 5.0, 7.0);
    rects.sort_by(|a, b| (a.0[1], a.0[0]).partial_cmp(&(b.0[1], b.0[0])).unwrap());
    let expected: Vec<([f32; 2], [f32; 2], f32)> =
        [(0.0, 1.0), (1.0, 2.0), (2.0, 3.0), (1.0, 4.0), (0.0, 5.0)]
            .iter()
            .map(|&(x, y)| ([x / 5.0, y / 7.0], [1.0 / 5.0, 1.0 / 7.0], 1.0))
            .collect();
    assert_eq!(rects, expected);

    // At 9x21 the diagonals reach the right edge before they meet and
    // are connected by a vertical tip on the last column
    let rects = powerline_rects('\u{E0B1}', 9.0, 21.0);
    assert_eq!(rects.len(), 17);
    assert!(
        rects.iter().any(|&(pos, size, _)| {
            (pos[0] - 8.0 / 9.0).abs() < 1e-6
                && (pos[1] - 9.0 / 21.0).abs() < 1e-6
                && (size[1] - 3.0 / 21.0).abs() < 1e-6
        }),
        "arrow tip connects the strokes on the last column"
    );
}

#[test]
fn powerline_right_variants_mirror_left() {
    // Mirrored normalized coordinates can differ in the last ulp from
    // the ones mirrored in pixel space, so compare with a tolerance
    let close = |a: &[([f32; 2], [f32; 2], f32)], b: &[([f32; 2], [f32; 2], f32)]| {
        a.len() == b.len()
            && a.iter().zip(b.iter()).all(|(a, b)| {
                let e = |x: f32, y: f32| (x - y).abs() < 1e-5;
                e(a.0[0], b.0[0])
                    && e(a.0[1], b.0[1])
                    && e(a.1[0], b.1[0])
                    && e(a.1[1], b.1[1])
                    && e(a.2, b.2)
            })
    };
    for &(w, h) in &[(5.0, 7.0), (9.0, 21.0), (10.0, 20.0), (8.0, 16.0)] {
        for &(ltr, rtl) in &[('\u{E0B0}', '\u{E0B2}'), ('\u{E0B1}', '\u{E0B3}')] {
            let mut mirrored: Vec<([f32; 2], [f32; 2], f32)> = powerline_rects(ltr, w, h)
                .iter()
                .map(|&(pos, size, alpha)| ([1.0 - pos[0] - size[0], pos[1]], size, alpha))
                .collect();
            mirrored.sort_by(|a, b| (a.0[1], a.0[0]).partial_cmp(&(b.0[1], b.0[0])).unwrap());
            let mut right = powerline_rects(rtl, w, h);
            right.sort_by(|a, b| (a.0[1], a.0[0]).partial_cmp(&(b.0[1], b.0[0])).unwrap());
            assert!(
                close(&right, &mirrored),
                "{ltr:?} mirrored is {rtl:?} at {w}x{h}:\n{right:?}\n{mirrored:?}"
            );
        }
    }
}

#[test]
fn powerline_fits_only_wide_enough_cells() {
    assert!(powerline_fits(9.0, 21.0));
    assert!(powerline_fits(10.0, 21.0));
    assert!(powerline_fits(8.0, 16.0));
    assert!(!powerline_fits(8.0, 21.0), "the tip is cut off too hard");
    assert!(
        !powerline_fits(5.0, 21.0),
        "the tip is cut off way too hard"
    );
}

#[test]
fn powerline_rects_stay_in_cell() {
    for &(w, h) in &[(9.0, 21.0), (5.79, 21.3), (10.5, 20.0), (6.0, 12.0)] {
        for c in '\u{E0B0}'..='\u{E0B3}' {
            for &(pos, size, alpha) in &powerline_rects(c, w, h) {
                assert!(size[0] > 0.0 && size[1] > 0.0, "{c:?} rect not empty");
                assert!(
                    pos[0] >= 0.0 && pos[1] >= 0.0 && pos[0] + size[0] <= 1.0 + 1e-5,
                    "{c:?} rect starts in cell"
                );
                assert!(pos[1] + size[1] <= 1.0 + 1e-5, "{c:?} rect ends in cell");
                assert!((0.0..=1.0).contains(&alpha), "{c:?} alpha {alpha} in range");
            }
        }
    }
}

#[test]
fn builtin_glyph_rects_dispatch_and_cache() {
    let mut cache = RectCache::new();
    // The dispatcher routes every builtin family to its geometry
    // unchanged, with shade alphas folded per rectangle
    for &(c, w, h) in &[
        ('\u{2500}', 9.0, 21.0),
        ('\u{256E}', 9.0, 21.0),
        ('\u{2591}', 9.0, 21.0),
        ('\u{2588}', 9.0, 21.0),
        ('\u{1FB00}', 9.0, 21.0),
        ('\u{1FB3B}', 9.0, 21.0),
        ('\u{1FB87}', 9.0, 21.0),
        ('\u{E0B0}', 9.0, 21.0),
        ('\u{E0B1}', 9.0, 21.0),
        ('\u{256D}', 5.79, 21.3),
    ] {
        let expected: Vec<([f32; 2], [f32; 2], f32)> = if is_block_element(c) {
            block_element_rects(c)
                .iter()
                .map(|&(pos, size)| (pos, size, block_element_alpha(c)))
                .collect()
        } else if is_segment_block(c) {
            block_element_rects(c)
                .iter()
                .map(|&(pos, size)| (pos, size, 1.0))
                .collect()
        } else if is_sextant(c) {
            sextant_rects(c)
                .into_iter()
                .map(|(pos, size)| (pos, size, 1.0))
                .collect()
        } else if is_powerline(c) {
            powerline_rects(c, w, h)
        } else {
            box_drawing_rects(c, w, h)
        };
        assert_eq!(*builtin_glyph_rects(&mut cache, c, w, h), expected, "{c:?}");
    }

    // Repeats at the same metrics are served from the cache
    let first = builtin_glyph_rects(&mut cache, '\u{256D}', 9.0, 21.0);
    let second = builtin_glyph_rects(&mut cache, '\u{256D}', 9.0, 21.0);
    assert!(Arc::ptr_eq(&first, &second));
}

#[test]
fn glyph_families_are_disjoint() {
    for cp in (0x2400..0x2700).chain(0xE000..0xE200).chain(0x1FA00..0x1FC00) {
        let c = char::from_u32(cp).unwrap();
        let families = [
            is_block_element(c),
            is_segment_block(c),
            is_sextant(c),
            is_powerline(c),
            is_box_drawing(c),
        ];
        let count = families.iter().filter(|&&family| family).count();
        assert!(count <= 1);
        assert_eq!(count == 1, is_builtin_glyph(c));
    }
}

#[test]
fn light_stroke_is_an_eighth_of_the_width() {
    let expected = [
        (0, 1), (1, 1), (4, 1), (8, 1), (9, 1), (11, 1), (12, 2), (16, 2), (19, 2), (20, 3), (21, 3),
        (u32::MAX, 0x2000_0000),
    ];
    for (width, stroke) in expected {
        assert_eq!(light_stroke(width), stroke);
    }
}

#[test]
fn strokes_are_centered() {
    for style in [Stroke::Light, Stroke::Heavy, Stroke::Double] {
        let bands = stroke_bands(style);
        let sum: f32 = bands
            .iter()
            .map(|band| coord(band.across, 10.0, 2.0) + band.thickness as f32)
            .sum();
        assert_eq!(sum / bands.len() as f32, 5.0);
    }
    assert!(stroke_bands(Stroke::Empty).is_empty());
}

#[test]
fn arms_of_box_drawing_lines() {
    use_arms('\u{253C}', [Stroke::Light; 4]);
    use_arms(
        '\u{2543}',
        [Stroke::Heavy, Stroke::Light, Stroke::Heavy, Stroke::Light],
    );
    use_arms(
        '\u{2553}',
        [Stroke::Empty, Stroke::Double, Stroke::Empty, Stroke::Light],
    );
    use_arms(
        '\u{257D}',
        [Stroke::Light, Stroke::Heavy, Stroke::Empty, Stroke::Empty],
    );
    for c in ['\u{2504}', '\u{254F}', '\u{256D}', '\u{2573}', 'a'] {
        assert!(box_drawing_arms(c).is_none());
    }
}

fn use_arms(c: char, arms: [Stroke; 4]) {
    assert_eq!(
        box_drawing_arms(c),
        Some((arms[0], arms[1], arms[2], arms[3]))
    );
}

#[test]
fn every_line_character_is_drawn() {
    for cp in 0x2500..=0x257F {
        let c = char::from_u32(cp).unwrap();
        assert!(!box_drawing_rects(c, 9.0, 21.0).is_empty());
        assert!(!box_drawing_rects(c, 8.4, 17.7).is_empty());
    }
}

#[test]
fn dashes_share_the_cell() {
    assert_eq!(dash_num_gaps('\u{2505}'), 2);
    assert_eq!(dash_num_gaps('\u{250A}'), 3);
    assert_eq!(dash_num_gaps('\u{254F}'), 1);
    let starts: Vec<DashStart> = dash_segments(24, 2).iter().map(|dash| dash.start).collect();
    assert_eq!(
        starts,
        vec![DashStart::At(0), DashStart::At(9), DashStart::At(18)]
    );
    assert!(dash_segments(24, 2).iter().all(|dash| dash.len == 6));
    // Too short for dashes and gaps of a pixel each
    let short = dash_segments(3, 3);
    assert_eq!(short[0].start, DashStart::At(0));
    assert_eq!(short[1].start, DashStart::At(2));
    assert_eq!(short[2].start, DashStart::BeforeEnd);
    assert!(short.iter().all(|dash| dash.len == 1));
}

#[test]
fn stem_stops_at_the_double_stroke() {
    // ╤ in a cell of 9x21 with a stroke of one pixel: the lower line of the
    // double stroke ends half a pixel below 12
    let rects = box_drawing_rects('\u{2564}', 9.0, 21.0);
    assert_eq!(rects.len(), 3);
    assert_eq!(rects[0].0, [4.0 / 9.0, 12.5 / 21.0]);
    // ╔ runs through the gap between the lines
    let corner = box_drawing_rects('\u{2553}', 9.0, 21.0);
    assert_eq!(corner.len(), 3);
}

#[test]
fn diagonal_pieces_of_a_step() {
    let line = SlopeLine {
        steep: false,
        first_step: -1,
        samples: vec![
            BandSample { first: 0, last: 0, flush: false, visible: true },
            BandSample { first: 1, last: 3, flush: false, visible: true },
            BandSample { first: -1, last: 0, flush: false, visible: true },
            BandSample { first: 1, last: 3, flush: true, visible: true },
            BandSample { first: 2, last: 9, flush: false, visible: false },
        ],
        major_floor: 4,
        major_ceil: 4,
        minor_floor: 4,
        minor_ceil: 4,
    };
    let rects = cosmic_terminal::slope::aa_line_rects(&line);
    // The first step lies outside the cell, and the last one is not visible
    let pieces: Vec<(i32, i32, PieceEnd, PieceCoverage)> = rects
        .iter()
        .map(|rect| (rect.step, rect.start, rect.end, rect.coverage))
        .collect();
    assert_eq!(
        pieces,
        vec![
            (0, 1, PieceEnd::At(2), PieceCoverage::FromLower),
            (0, 2, PieceEnd::At(3), PieceCoverage::Whole),
            (0, 3, PieceEnd::At(4), PieceCoverage::ToUpper),
            (1, 0, PieceEnd::At(1), PieceCoverage::ToUpper),
            (2, 1, PieceEnd::At(2), PieceCoverage::FromLower),
            (2, 2, PieceEnd::At(3), PieceCoverage::Whole),
        ]
    );
}

#[test]
fn corner_pixels_come_row_by_row() {
    let pixels = cosmic_terminal::corner::rounded_corner_pixels('\u{256D}', 9, 21, 1);
    for pair in pixels.windows(2) {
        assert!((pair[0].y, pair[0].x) < (pair[1].y, pair[1].x));
    }
    assert!(pixels.iter().all(|pixel| pixel.x < 9 && pixel.y < 21));
    // In a single pixel there is room for the stroke alone
    let single = cosmic_terminal::corner::rounded_corner_pixels('\u{256F}', 1, 1, 1);
    assert_eq!(single.len(), 1);
}

#[test]
fn powerline_symbols_leave_the_outermost_rows_empty() {
    for c in '\u{E0B0}'..='\u{E0B3}' {
        for rect in powerline::powerline_rects(c, 10, 20) {
            assert!(rect.y >= 1 && rect.y + rect.height <= 19);
        }
        assert!(powerline::powerline_rects(c, 3, 2).is_empty());
    }
    assert_eq!(
        powerline::powerline_rects('\u{E0B3}', 5, 3),
        vec![PixelRect { x: 4, y: 1, width: 1, height: 1 }]
    );
}

#[test]
fn full_cache_starts_over() {
    let mut cache: RectCache<u32> = RectCache::new();
    for i in 0..RECT_CACHE_CAPACITY as u32 {
        assert_eq!(*cache.get_or_build('a', i, 1, || i), i);
    }
    // Still all there
    assert_eq!(*cache.get_or_build('a', 7, 1, || 0), 7);
    // One more clears the rest, and keeps itself
    assert_eq!(*cache.get_or_build('b', 7, 1, || 100), 100);
    assert_eq!(*cache.get_or_build('b', 7, 1, || 200), 100);
    assert_eq!(*cache.get_or_build('a', 7, 1, || 300), 300);
    // Character, width and height all count
    assert_eq!(*cache.get_or_build('a', 1, 7, || 400), 400);
}

#[test]
fn corners_join_the_strokes() {
    for width in 3..40u32 {
        for height in 3..40u32 {
            let stroke = light_stroke(width);
            if stroke + 2 > width || stroke + 2 > height {
                continue;
            }
            let pixels =
                cosmic_terminal::corner::rounded_corner_pixels('\u{256F}', width, height, stroke);
            let areas: Vec<PixelArea> = pixels
                .iter()
                .map(|pixel| eval_pixel(pixel, width as f32, height as f32, stroke as f32))
                .collect();
            let mut top: Vec<u32> = Vec::new();
            let mut left: Vec<u32> = Vec::new();
            for &(x, y, _, _, alpha) in &areas {
                if x == 0.0 || y == 0.0 {
                    assert_eq!(alpha, 1.0);
                }
                if y == 0.0 {
                    top.push(x as u32);
                }
                if x == 0.0 {
                    left.push(y as u32);
                }
            }
            let centered = |side: u32| {
                let first = (side - stroke) / 2;
                (first..first + stroke).collect::<Vec<u32>>()
            };
            assert_eq!(top, centered(width), "{width}x{height}");
            assert_eq!(left, centered(height), "{width}x{height}");
        }
    }
}

#[test]
fn corners_follow_the_distance_from_their_center() {
    for width in 1..32usize {
        for height in 1..32usize {
            let stroke = light_stroke(width as u32) as usize;
            let short = width.min(height);
            let long = width.max(height);
            let radius = (short + stroke) as f32 / 2.0;
            let bias = if short % 2 == stroke % 2 { 0.0 } else { 0.5 };
            let mut slide = long as f32 / 2.0 - radius + stroke as f32 / 2.0;
            if width % 2 != height % 2 && long % 2 == stroke % 2 {
                slide += 1.0;
            }
            // The coverage of the base shape, row by row
            let mut expected = vec![0.0f32; width * height];
            for dy in 0..short + stroke {
                for dx in 0..short + stroke {
                    let distance = (dx as f32).hypot(dy as f32) + bias;
                    let alpha = (1.0 + distance - (radius - stroke as f32))
                        .min(radius - distance)
                        .min(1.0);
                    let (x, y) = if height > width {
                        (dx as f32, dy as f32 + slide)
                    } else {
                        (dx as f32 + slide, dy as f32)
                    };
                    if alpha > 0.0 && x <= width as f32 - 1.0 && y <= height as f32 - 1.0 {
                        expected[x as usize + y as usize * width] = alpha;
                    }
                }
            }
            let (across, along) = if height > width {
                (width, height)
            } else {
                (height, width)
            };
            let start = (across as f32 / 2.0 - stroke as f32 * 0.5) as usize;
            let end = (((across + stroke) as f32) / 2.0) as usize;
            for i in 0..(slide as usize).min(along) {
                for j in start..end.min(across) {
                    let (x, y) = if height > width { (j, i) } else { (i, j) };
                    expected[x + y * width] = 1.0;
                }
            }

            let mut found = vec![0.0f32; width * height];
            let pixels = cosmic_terminal::corner::rounded_corner_pixels(
                '\u{256F}',
                width as u32,
                height as u32,
                stroke as u32,
            );
            for pixel in &pixels {
                let (x, y, _, _, alpha) =
                    eval_pixel(pixel, width as f32, height as f32, stroke as f32);
                found[x as usize + y as usize * width] = alpha;
            }
            for (i, (found, expected)) in found.iter().zip(&expected).enumerate() {
                assert!(
                    (found - expected).abs() < 1e-5,
                    "pixel {i} at {width}x{height}: {found} and {expected}"
                );
            }
        }
    }
}

#[test]
fn diagonal_pieces_lie_in_the_cell() {
    for cell in [(9.5, 21.0), (9.0, 21.0), (8.0, 16.0), (5.79, 21.3), (21.3, 5.79), (8.25, 8.5), (1.0, 1.0)] {
        let (falling, rising) = diagonals(cell.0, cell.1);
        for line in [&falling, &rising] {
            let rects = cosmic_terminal::slope::aa_line_rects(&line.line);
            assert!(!rects.is_empty());
            for rect in &rects {
                let (x, y, width, height, alpha) = eval_slope(rect, line, cell);
                assert!(alpha > 0.0 && alpha <= 1.0);
                assert!(x >= 0.0 && x + width <= cell.0, "{rect:?} in {cell:?}");
                assert!(y >= 0.0 && y + height <= cell.1, "{rect:?} in {cell:?}");
            }
        }
    }
    // A step of the falling diagonal whose last pixel is cut in half
    let (falling, _) = diagonals(9.5, 21.0);
    let ends: Vec<PieceEnd> = cosmic_terminal::slope::aa_line_rects(&falling.line)
        .iter()
        .filter(|rect| rect.step == 19)
        .map(|rect| rect.end)
        .collect();
    assert_eq!(ends, vec![PieceEnd::At(9), PieceEnd::CellEdge]);
}

#[test]
fn low_corners_are_mirrors() {
    // In a cell of a single row, that row is mirrored, too
    let columns = |c: char| -> Vec<u32> {
        cosmic_terminal::corner::rounded_corner_pixels(c, 9, 1, 1)
            .iter()
            .map(|pixel| pixel.x)
            .collect()
    };
    let base = columns('\u{256F}');
    let mut mirrored: Vec<u32> = base.iter().map(|x| 8 - x).collect();
    mirrored.sort();
    assert_eq!(columns('\u{2570}'), mirrored);
}
