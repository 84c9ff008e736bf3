use neuropal_lens::link::{anterior_view, dorsal_view, is_highlighted, HoverPos};
use neuropal_lens::list::{row_range, row_style, scroll_height};
use neuropal_lens::plot::{marker_radius_milli, marker_style};
use neuropal_lens::point::Neuron;
use neuropal_lens::textfmt::{format_coord_milli, pad_left, pad_right};

fn mk(name: &str, x: i64, y: i64, z: i64, r: u32, g: u32, b: u32) -> Neuron {
    Neuron { name: name.as_bytes().to_vec(), x, y, z, r, g, b }
}

#[test]
fn radius_formula_reference_spans() {
    // spans of 0, 100 and 1000 units give radii 6, 5 and 1
    assert_eq!(marker_radius_milli(0), 6000);
    assert_eq!(marker_radius_milli(100_000), 5000);
    assert_eq!(marker_radius_milli(1_000_000), 1000);
}

#[test]
fn radius_is_clamped() {
    assert_eq!(marker_radius_milli(10_000_000), 1000);
    assert_eq!(marker_radius_milli(1), 6000);
    assert_eq!(marker_radius_milli(500_000), 1000);
    assert_eq!(marker_radius_milli(499_900), 1001);
}

#[test]
fn row_range_plain_viewport() {
    // rows 1000 milli high; viewport covers rows 0..3
    assert_eq!(row_range(0, 3000, 1000, 10), (0, 4));
    assert_eq!(row_range(2500, 4200, 1000, 10), (2, 6));
}

#[test]
fn row_range_clamps_to_rows() {
    assert_eq!(row_range(-500, 1500, 1000, 10), (0, 3));
    assert_eq!(row_range(0, 99_000, 1000, 10), (0, 10));
    assert_eq!(row_range(20_000, 30_000, 1000, 10), (10, 10));
}

#[test]
fn row_range_degenerate_viewports() {
    // no rows at all
    assert_eq!(row_range(0, 3000, 1000, 0), (0, 0));
    // viewport entirely above the rows
    assert_eq!(row_range(-5000, -3000, 1000, 10), (0, 0));
    // inverted viewport yields an empty range
    let (first, last) = row_range(5000, 1000, 1000, 10);
    assert_eq!(first, last);
}

#[test]
fn scroll_region_reserves_full_height() {
    assert_eq!(scroll_height(10, 1000), 10_000);
    assert_eq!(scroll_height(0, 1000), 0);
}

#[test]
fn black_row_background_becomes_white() {
    let n = mk("RID", 0, 0, 0, 0, 0, 0);
    let (bg, text_black) = row_style(&n);
    assert_eq!(bg, [255, 255, 255]);
    // luminance 0 draws black text on the white swatch
    assert!(text_black);
}

#[test]
fn near_black_row_background_becomes_white() {
    // channels that round to 0 in 8 bits count as pure black
    let n = mk("RID", 0, 0, 0, 19, 19, 19);
    let (bg, text_black) = row_style(&n);
    assert_eq!(bg, [255, 255, 255]);
    assert!(!text_black);
}

#[test]
fn row_text_contrast_thresholds() {
    // red alone: luminance 0.2126, at most one half: white text
    let red = mk("A", 0, 0, 0, 10000, 0, 0);
    assert_eq!(row_style(&red), ([255, 0, 0], false));
    // white: luminance 1: black text
    let white = mk("B", 0, 0, 0, 10000, 10000, 10000);
    assert_eq!(row_style(&white), ([255, 255, 255], true));
    // green alone: luminance 0.7152, above one half: black text
    let green = mk("C", 0, 0, 0, 0, 10000, 0);
    assert_eq!(row_style(&green), ([0, 255, 0], true));
}

#[test]
fn eight_bit_channels_round() {
    let n = mk("A", 0, 0, 0, 5000, 20, 19);
    assert_eq!(n.rgb(), [128, 1, 0]);
    let full = mk("B", 0, 0, 0, 10000, 0, 9999);
    assert_eq!(full.rgb(), [255, 0, 255]);
}

#[test]
fn black_marker_white_only_under_dark_theme() {
    let n = mk("RID", 0, 0, 5, 0, 0, 0);
    let (dark_rgb, dim) = marker_style(&n, true);
    assert_eq!(dark_rgb, [255, 255, 255]);
    assert!(!dim);
    let (light_rgb, _) = marker_style(&n, false);
    assert_eq!(light_rgb, [0, 0, 0]);
}

#[test]
fn negative_z_markers_are_dimmed() {
    let n = mk("AVAR", 0, 0, -1, 10000, 0, 0);
    let (rgb, dim) = marker_style(&n, false);
    assert_eq!(rgb, [255, 0, 0]);
    assert!(dim);
    let front = mk("AVAL", 0, 0, 0, 10000, 0, 0);
    assert!(!marker_style(&front, false).1);
}

#[test]
fn hover_scenario_highlights_nearby_point() {
    // hover at (1.0, 2.0); point at (1.05, 1.98, z = 0.5): distance
    // about 0.054, well inside 0.35
    let n = mk("AVAL", 1050, 1980, 500, 5000, 5000, 5000);
    let hover = HoverPos { x: 1000, y: 2000 };
    assert!(is_highlighted(&n, hover));
    let data = vec![n];
    let ant = anterior_view(&data, Some(hover));
    assert_eq!(ant.len(), 1);
    assert_eq!(ant[0].index, 0);
    assert_eq!((ant[0].px, ant[0].py), (500, 1980));
    assert!(ant[0].highlighted);
    let dor = dorsal_view(&data, Some(hover), -10_000, 10_000);
    assert_eq!(dor.len(), 1);
    assert_eq!((dor[0].px, dor[0].py), (1050, -500));
    assert!(dor[0].highlighted);
}

#[test]
fn highlight_needs_distance_under_threshold() {
    let hover = HoverPos { x: 0, y: 0 };
    // 0.349 away: highlighted
    let near = mk("A", 349, 0, 0, 0, 0, 0);
    assert!(is_highlighted(&near, hover));
    // exactly 0.35 away: not highlighted (strict bound)
    let edge = mk("B", 350, 0, 0, 0, 0, 0);
    assert!(!is_highlighted(&edge, hover));
}

#[test]
fn anterior_slab_is_inclusive_at_its_edges() {
    let hover = HoverPos { x: 1000, y: 0 };
    let inside = mk("IN", 2500, 0, 7, 0, 0, 0);
    let outside = mk("OUT", 2501, 0, 7, 0, 0, 0);
    let data = vec![inside, outside];
    let ms = anterior_view(&data, Some(hover));
    assert_eq!(ms.len(), 1);
    assert_eq!(ms[0].index, 0);
    assert!(!ms[0].highlighted);
}

#[test]
fn dorsal_view_respects_primary_bounds_and_slab() {
    let hover = HoverPos { x: 0, y: 1000 };
    let data = vec![
        mk("A", 0, 1000, 5, 0, 0, 0),      // in bounds, in slab
        mk("B", 9000, 1000, 5, 0, 0, 0),   // outside x bounds
        mk("C", 0, 2501, 5, 0, 0, 0),      // outside y slab
        mk("D", 0, 2500, 5, 0, 0, 0),      // on the slab edge
    ];
    let ms = dorsal_view(&data, Some(hover), -5000, 5000);
    let idx: Vec<usize> = ms.iter().map(|m| m.index).collect();
    assert_eq!(idx, vec![0, 3]);
}

#[test]
fn without_hover_all_points_draw_unhighlighted() {
    let data = vec![
        mk("A", 100_000, 0, 0, 0, 0, 0),
        mk("B", -100_000, 0, 0, 0, 0, 0),
    ];
    let ant = anterior_view(&data, None);
    assert_eq!(ant.len(), 2);
    assert!(ant.iter().all(|m| !m.highlighted));
    // without hover no restriction applies in the dorsal view either:
    // even the point outside the primary bounds draws
    let dor = dorsal_view(&data, None, -200_000, 0);
    let idx: Vec<usize> = dor.iter().map(|m| m.index).collect();
    assert_eq!(idx, vec![0, 1]);
    assert!(dor.iter().all(|m| !m.highlighted));
}

#[test]
fn coordinates_render_with_one_decimal() {
    assert_eq!(format_coord_milli(1500), b"1.5".to_vec());
    assert_eq!(format_coord_milli(0), b"0.0".to_vec());
    assert_eq!(format_coord_milli(12_345), b"12.3".to_vec());
    assert_eq!(format_coord_milli(-20), b"-0.0".to_vec());
    assert_eq!(format_coord_milli(50), b"0.1".to_vec());
    assert_eq!(format_coord_milli(-2750), b"-2.8".to_vec());
}

#[test]
fn padding_aligns_fixed_width_columns() {
    let mut v = b"1.5".to_vec();
    pad_left(&mut v, 5);
    assert_eq!(v, b"  1.5".to_vec());
    let mut n = b"AVAL".to_vec();
    pad_right(&mut n, 5);
    assert_eq!(n, b"AVAL ".to_vec());
    let mut long = b"ALREADY".to_vec();
    pad_left(&mut long, 5);
    assert_eq!(long, b"ALREADY".to_vec());
}

#[test]
fn luminance_is_the_scaled_weighted_sum() {
    // weights 0.2126, 0.7152, 0.0722 at a 10^8 scale
    assert_eq!(mk("W", 0, 0, 0, 10000, 10000, 10000).luminance(), 100_000_000);
    assert_eq!(mk("R", 0, 0, 0, 10000, 0, 0).luminance(), 21_260_000);
    assert_eq!(mk("G", 0, 0, 0, 0, 10000, 0).luminance(), 71_520_000);
    assert_eq!(mk("B", 0, 0, 0, 0, 0, 10000).luminance(), 7_220_000);
    assert_eq!(mk("K", 0, 0, 0, 0, 0, 0).luminance(), 0);
}

#[test]
fn row_text_lays_out_fixed_width_columns() {
    let n = mk("AVAL", 1500, -20, 12_345, 0, 0, 0);
    let text = neuropal_lens::textfmt::row_text(&n);
    assert_eq!(
        String::from_utf8(text).unwrap(),
        "AVAL  (  1.5,  -0.0,  12.3)",
    );
    let long = mk("LONGNAME", 0, 0, 0, 0, 0, 0);
    assert_eq!(
        String::from_utf8(neuropal_lens::textfmt::row_text(&long)).unwrap(),
        "LONGNAME (  0.0,   0.0,   0.0)",
    );
}
