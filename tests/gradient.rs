use gradient_generator::color::Rgb;
use gradient_generator::generate_gradient;
use gradient_generator::palette::{build_palette, SourceGrid};
use gradient_generator::resample::{resample, GradientError, OutputGrid};

const BLACK: Rgb = Rgb { r: 0, g: 0, b: 0 };
const WHITE: Rgb = Rgb { r: 255, g: 255, b: 255 };
const RED: Rgb = Rgb { r: 255, g: 0, b: 0 };
const BLUE: Rgb = Rgb { r: 0, g: 0, b: 255 };

fn grid(width: u32, height: u32, pixels: Vec<Rgb>) -> SourceGrid {
    SourceGrid::new(width, height, pixels).expect("pixel count matches the size")
}

fn assert_row(out: &OutputGrid, y: u32, expected: Rgb) {
    for x in 0..out.width() {
        assert_eq!(out.pixel(x, y), expected);
    }
}

#[test]
fn lightness_is_max_plus_min() {
    assert_eq!(BLACK.lightness(), 0);
    assert_eq!(WHITE.lightness(), 510);
    assert_eq!(RED.lightness(), 255);
    assert_eq!(Rgb { r: 10, g: 20, b: 30 }.lightness(), 40);
    assert_eq!(Rgb { r: 200, g: 7, b: 90 }.lightness(), 207);
}

#[test]
fn order_key_leads_with_lightness() {
    assert_eq!(Rgb { r: 10, g: 20, b: 30 }.order_key(), (40, 10, 20, 30));
}

#[test]
fn palette_round_trip_keeps_primary_colors() {
    let g = grid(4, 1, vec![WHITE, BLUE, BLACK, RED]);
    assert_eq!(build_palette(&g), vec![BLACK, BLUE, RED, WHITE]);
}

#[test]
fn source_grid_rejects_wrong_pixel_count() {
    assert!(SourceGrid::new(2, 2, vec![BLACK; 3]).is_none());
    assert!(SourceGrid::new(0, 0, vec![]).is_some());
    let g = grid(3, 1, vec![RED, BLACK, WHITE]);
    assert_eq!(g.width(), 3);
    assert_eq!(g.height(), 1);
    assert_eq!(g.pixels(), &vec![RED, BLACK, WHITE]);
}

#[test]
fn scenario_black_before_white() {
    let g = grid(2, 1, vec![WHITE, BLACK]);
    assert_eq!(build_palette(&g), vec![BLACK, WHITE]);
}

#[test]
fn palette_has_one_entry_per_pixel() {
    let g = grid(3, 2, vec![WHITE, RED, BLACK, BLUE, WHITE, BLACK]);
    assert_eq!(build_palette(&g).len(), 6);
}

#[test]
fn palette_is_sorted_by_lightness() {
    let g = grid(3, 1, vec![WHITE, RED, BLACK]);
    let p = build_palette(&g);
    assert_eq!(p, vec![BLACK, RED, WHITE]);
    for i in 1..p.len() {
        assert!(p[i - 1].lightness() <= p[i].lightness());
    }
}

#[test]
fn palette_breaks_lightness_ties_by_channels() {
    let g = grid(2, 1, vec![RED, BLUE]);
    assert_eq!(build_palette(&g), vec![BLUE, RED]);
}

#[test]
fn palette_keeps_duplicates() {
    let g = grid(3, 1, vec![WHITE, BLACK, WHITE]);
    assert_eq!(build_palette(&g), vec![BLACK, WHITE, WHITE]);
}

#[test]
fn empty_grid_gives_empty_palette() {
    let g = grid(0, 0, vec![]);
    assert!(build_palette(&g).is_empty());
}

#[test]
fn scenario_two_rows_of_four() {
    let out = resample(&vec![BLACK, WHITE], 2, 4, 2).expect("in range");
    assert_eq!(out.width(), 4);
    assert_eq!(out.height(), 2);
    assert_eq!(out.pixels(), &vec![BLACK, BLACK, BLACK, BLACK, WHITE, WHITE, WHITE, WHITE]);
    assert_row(&out, 0, BLACK);
    assert_row(&out, 1, WHITE);
}

#[test]
fn row_index_divides_before_multiplying() {
    // 5 / 3 truncates to 1: rows take entries 0, 1 and 2 (not 0, 1 and 3).
    let palette = vec![BLACK, RED, BLUE, WHITE, WHITE];
    let out = resample(&palette, 5, 1, 3).expect("in range");
    assert_eq!(out.pixels(), &vec![BLACK, RED, BLUE]);
}

#[test]
fn taller_output_than_pixels_repeats_first_entry() {
    let g = grid(2, 2, vec![WHITE, BLACK, RED, BLUE]);
    let out = generate_gradient(3, 10, &g).expect("index stays at zero");
    assert_eq!(out.height(), 10);
    for y in 0..10 {
        assert_row(&out, y, BLACK);
    }
}

#[test]
fn index_past_palette_is_rejected() {
    assert_eq!(
        resample(&vec![BLACK, WHITE], 8, 2, 2).err(),
        Some(GradientError::IndexOutOfRange)
    );
    assert_eq!(resample(&vec![], 0, 2, 2).err(), Some(GradientError::IndexOutOfRange));
}

#[test]
fn resample_rejects_zero_dimension() {
    assert_eq!(
        resample(&vec![BLACK, WHITE], 2, 0, 2).err(),
        Some(GradientError::InvalidDimension)
    );
    assert_eq!(
        resample(&vec![BLACK, WHITE], 2, 2, 0).err(),
        Some(GradientError::InvalidDimension)
    );
}

#[test]
fn generate_rejects_zero_dimension() {
    let g = grid(2, 1, vec![WHITE, BLACK]);
    assert_eq!(generate_gradient(5, 0, &g).err(), Some(GradientError::InvalidDimension));
    assert_eq!(generate_gradient(0, 5, &g).err(), Some(GradientError::InvalidDimension));
}

#[test]
fn generate_without_image_fails() {
    let g = grid(0, 0, vec![]);
    assert_eq!(generate_gradient(4, 4, &g).err(), Some(GradientError::NoSourceImage));
}

#[test]
fn generated_rows_are_uniform() {
    let g = grid(3, 2, vec![WHITE, RED, BLACK, BLUE, WHITE, BLACK]);
    let out = generate_gradient(5, 3, &g).expect("valid request");
    // palette: black, black, blue, red, white, white; step 6 / 3 = 2
    assert_row(&out, 0, BLACK);
    assert_row(&out, 1, BLUE);
    assert_row(&out, 2, WHITE);
    assert_eq!(out.pixels().len(), 15);
}
