use climg::geometry::TerminalGeometry;
use climg::imaging::{resample, to_grayscale_luma8, ColorImage};
use climg::pipeline::{fit_image, invert_requested, render_image, RenderError};

fn solid(width: u32, height: u32, rgba: [u8; 4]) -> ColorImage {
    let mut bytes = Vec::new();
    for _ in 0..width * height {
        bytes.extend_from_slice(&rgba);
    }
    ColorImage::new(width, height, bytes).unwrap()
}

fn terminal(columns: u16, rows: u16) -> TerminalGeometry {
    TerminalGeometry { columns, rows }
}

#[test]
fn picture_needs_four_bytes_per_position() {
    assert!(ColorImage::new(2, 2, vec![0; 16]).is_some());
    assert!(ColorImage::new(2, 2, vec![0; 15]).is_none());
    assert!(ColorImage::new(2, 2, vec![0; 4]).is_none());
    assert!(ColorImage::new(0, 2, vec![]).is_some());
}

#[test]
fn luminance_weighs_the_channels() {
    let img = ColorImage::new(
        3,
        2,
        vec![
            255, 0, 0, 255, //
            0, 255, 0, 255, //
            0, 0, 255, 255, //
            255, 255, 255, 0, //
            0, 0, 0, 255, //
            10, 20, 30, 7,
        ],
    )
    .unwrap();
    let gray = to_grayscale_luma8(&img);
    assert_eq!((gray.width, gray.height), (3, 2));
    // 2126 * 255 / 10000 = 54.2; 7152 * 255 / 10000 = 182.4; 722 * 255 / 10000 = 18.4
    // (21260 + 143040 + 21660) / 10000 = 18.6
    assert_eq!(gray.data, vec![54, 182, 18, 255, 0, 18]);
}

#[test]
fn resampling_keeps_the_aspect_inside_the_bounds() {
    let img = solid(8, 4, [200, 100, 50, 255]);
    let out = resample(&img, 4, 4).unwrap();
    assert_eq!((out.width, out.height), (4, 2));
    assert_eq!(out.rgba.len(), 4 * 4 * 2);
    let same = resample(&img, 8, 4).unwrap();
    assert_eq!((same.width, same.height), (8, 4));
    assert_eq!(same.rgba, img.rgba);
    let tiny = resample(&img, 0, 0).unwrap();
    assert_eq!((tiny.width, tiny.height), (1, 1));
    assert_eq!(tiny.rgba.len(), 4);
}

#[test]
fn fitting_scales_to_the_terminal() {
    let img = solid(16, 16, [255, 255, 255, 255]);
    // grid 4 x 4
    let out = fit_image(&img, terminal(2, 3)).unwrap();
    assert_eq!((out.width, out.height), (4, 4));
    assert_eq!(out.rgba.len(), 64);
}

#[test]
fn white_picture_renders_filled() {
    let img = solid(16, 16, [255, 255, 255, 255]);
    let out = render_image(&img, terminal(2, 3), false).unwrap();
    assert_eq!((out.raster.width, out.raster.height), (4, 4));
    assert_eq!(out.raster.data, vec![255; 16]);
    assert_eq!(out.threshold, 0);
    assert_eq!(out.lines, vec!["\u{28FF}\u{28FF}".to_string()]);
    let inverted = render_image(&img, terminal(2, 3), true).unwrap();
    assert_eq!(inverted.lines, vec!["\u{2800}\u{2800}".to_string()]);
}

#[test]
fn halves_of_a_picture_render_apart() {
    // left half black, right half white, already at the size of the grid
    let mut bytes = Vec::new();
    for _y in 0..4 {
        for x in 0..4 {
            let v = if x < 2 { 0 } else { 255 };
            bytes.extend_from_slice(&[v, v, v, 255]);
        }
    }
    let img = ColorImage::new(4, 4, bytes).unwrap();
    let out = render_image(&img, terminal(2, 3), false).unwrap();
    assert_eq!(out.threshold, 0);
    assert_eq!(out.lines, vec!["\u{28FF}\u{28FF}".to_string()]);
    let inverted = render_image(&img, terminal(2, 3), true).unwrap();
    assert_eq!(inverted.lines, vec!["\u{2800}\u{2800}".to_string()]);
}

#[test]
fn rendering_stays_inside_the_terminal() {
    // grid 20 x 12; 20 * 16 / 64 = 5 rows of samples
    let img = solid(64, 16, [30, 60, 90, 255]);
    let out = render_image(&img, terminal(10, 5), false).unwrap();
    assert_eq!((out.raster.width, out.raster.height), (20, 5));
    assert_eq!(out.lines.len(), 2);
    for line in &out.lines {
        assert_eq!(line.chars().count(), 10);
    }
    // every sample is 2126 * 30 + 7152 * 60 + 722 * 90 = 557880 -> 55
    assert_eq!(out.raster.data, vec![55; 100]);
    assert_eq!(out.lines[0], "\u{28FF}".repeat(10));
    // the second line holds the fifth row of samples alone: bits 0 and 3
    assert_eq!(out.lines[1], "\u{2809}".repeat(10));
}

#[test]
fn terminal_without_usable_rows_is_refused() {
    let img = solid(4, 4, [0, 0, 0, 255]);
    for rows in 0..=2u16 {
        assert_eq!(fit_image(&img, terminal(80, rows)).unwrap_err(), RenderError::TerminalTooSmall);
        assert_eq!(
            render_image(&img, terminal(80, rows), false).unwrap_err(),
            RenderError::TerminalTooSmall
        );
    }
}

#[test]
fn oversized_target_is_refused() {
    let img = solid(1, 1, [0, 0, 0, 255]);
    let huge = terminal(u16::MAX, u16::MAX);
    assert_eq!(fit_image(&img, huge).unwrap_err(), RenderError::PictureTooLarge);
    assert_eq!(render_image(&img, huge, false).unwrap_err(), RenderError::PictureTooLarge);
}

#[test]
fn errors_have_messages() {
    assert_eq!(RenderError::TerminalTooSmall.message(), "terminal has too few rows");
    assert_eq!(RenderError::PictureTooLarge.message(), "picture is too large to render");
}

#[test]
fn only_the_word_invert_inverts() {
    assert!(invert_requested(Some("invert")));
    assert!(!invert_requested(None));
    for other in ["", "Invert", "invert ", " invert", "inver", "inverts", "invers", "yes", "\u{e9}nvert"] {
        assert!(!invert_requested(Some(other)));
    }
}
