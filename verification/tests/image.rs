use cardex::render::image::{
    fit, fit_scaled, image_lines, load_art, load_sprite, sprite, sprite_lines, sprite_scaled, RgbPixels, RgbaPixels,
};
use cardex::render::style::vis_width;

fn png_rgb(w: u32, h: u32, f: impl Fn(u32, u32) -> [u8; 3]) -> Vec<u8> {
    let img = image::RgbImage::from_fn(w, h, |x, y| image::Rgb(f(x, y)));
    let mut buf = std::io::Cursor::new(Vec::new());
    img.write_to(&mut buf, image::ImageFormat::Png).unwrap();
    buf.into_inner()
}

fn png_rgba(w: u32, h: u32, f: impl Fn(u32, u32) -> [u8; 4]) -> Vec<u8> {
    let img = image::RgbaImage::from_fn(w, h, |x, y| image::Rgba(f(x, y)));
    let mut buf = std::io::Cursor::new(Vec::new());
    img.write_to(&mut buf, image::ImageFormat::Png).unwrap();
    buf.into_inner()
}

fn cell(t: (u8, u8, u8), b: (u8, u8, u8)) -> String {
    format!("\x1b[38;2;{};{};{}m\x1b[48;2;{};{};{}m▀", t.0, t.1, t.2, b.0, b.1, b.2)
}

#[test]
fn decodes_a_png_to_rgb() {
    let bytes = png_rgb(2, 1, |x, _| if x == 0 { [10, 20, 30] } else { [40, 50, 60] });
    let img = load_art(&bytes).unwrap();
    assert_eq!((img.width, img.height), (2, 1));
    assert_eq!(img.data, vec![10, 20, 30, 40, 50, 60]);
}

#[test]
fn decodes_a_png_to_rgba() {
    let bytes = png_rgba(1, 2, |_, y| if y == 0 { [1, 2, 3, 4] } else { [5, 6, 7, 255] });
    let img = load_sprite(&bytes).unwrap();
    assert_eq!((img.width, img.height), (1, 2));
    assert_eq!(img.data, vec![1, 2, 3, 4, 5, 6, 7, 255]);
}

#[test]
fn rejects_bytes_that_are_not_an_image() {
    assert!(load_art(&b"not an image".to_vec()).is_err());
    assert!(load_sprite(&Vec::new()).is_err());
}

#[test]
fn half_blocks_pair_pixel_rows() {
    // 2 wide, 3 tall: the last line pairs row 2 with itself.
    let data = vec![
        1, 1, 1, 2, 2, 2, //
        3, 3, 3, 4, 4, 4, //
        5, 5, 5, 6, 6, 6,
    ];
    let img = RgbPixels { width: 2, height: 3, data };
    let lines = image_lines(&img);
    assert_eq!(lines.len(), 2);
    assert_eq!(lines[0], format!("{}{}\x1b[0m", cell((1, 1, 1), (3, 3, 3)), cell((2, 2, 2), (4, 4, 4))));
    assert_eq!(lines[1], format!("{}{}\x1b[0m", cell((5, 5, 5), (5, 5, 5)), cell((6, 6, 6), (6, 6, 6))));
    for l in &lines {
        assert_eq!(vis_width(l), 2);
    }
}

#[test]
fn fit_draws_exactly_the_rows_asked_for() {
    let bytes = png_rgb(30, 40, |x, y| [x as u8, y as u8, 128]);
    let img = load_art(&bytes).unwrap();
    let lines = fit(&img, 24, 34);
    assert_eq!(lines.len(), 24);
    for l in &lines {
        assert_eq!(vis_width(l), 34);
    }
    let small = fit(&img, 1, 2);
    assert_eq!(small.len(), 1);
}

#[test]
fn fit_keeps_a_same_size_image_unchanged() {
    let data = vec![9, 8, 7, 6, 5, 4];
    let img = RgbPixels { width: 1, height: 2, data };
    assert_eq!(fit(&img, 1, 1), vec![format!("{}\x1b[0m", cell((9, 8, 7), (6, 5, 4)))]);
}

#[test]
fn sprite_cells_by_transparency() {
    // top opaque / bottom opaque, top only, bottom only, neither.
    let data = vec![
        10, 10, 10, 255, 20, 20, 20, 255, 30, 30, 30, 0, 40, 40, 40, 0, //
        50, 50, 50, 255, 60, 60, 60, 0, 70, 70, 70, 255, 80, 80, 80, 95,
    ];
    let img = RgbaPixels { width: 4, height: 2, data };
    let lines = sprite_lines(&img);
    assert_eq!(lines.len(), 1);
    assert_eq!(
        lines[0],
        format!(
            "{}{}{}{}\x1b[0m",
            cell((10, 10, 10), (50, 50, 50)),
            "\x1b[49m\x1b[38;2;20;20;20m▀",
            "\x1b[49m\x1b[38;2;70;70;70m▄",
            "\x1b[49m ",
        )
    );
    assert_eq!(vis_width(&lines[0]), 4);
}

#[test]
fn sprites_are_padded_and_centred() {
    let img = RgbaPixels { width: 2, height: 2, data: vec![0; 16] };
    let lines = sprite(&img, 4, 6, 2, 2);
    let blank = " ".repeat(6);
    let row = format!("  {}  ", "\x1b[49m \x1b[49m \x1b[0m");
    assert_eq!(lines, vec![blank.clone(), row, blank.clone(), blank]);
    for l in &lines {
        assert_eq!(vis_width(l), 6);
    }
}

#[test]
fn sprite_resamples_to_the_given_size() {
    let bytes = png_rgba(20, 10, |x, _| [x as u8 * 10, 0, 0, 255]);
    let img = load_sprite(&bytes).unwrap();
    let lines = sprite(&img, 8, 36, 32, 16);
    assert_eq!(lines.len(), 8);
    for l in &lines {
        assert_eq!(vis_width(l), 36);
    }
}

#[test]
fn fitting_cuts_evenly_and_pads_below() {
    // 1 wide, 6 tall: three lines.
    let img = RgbPixels { width: 1, height: 6, data: (1..=18).collect() };
    let all = image_lines(&img);
    assert_eq!(all.len(), 3);
    assert_eq!(fit_scaled(&img, 1), vec![all[1].clone()]);
    assert_eq!(fit_scaled(&img, 2), vec![all[0].clone(), all[1].clone()]);
    assert_eq!(fit_scaled(&img, 5), vec![all[0].clone(), all[1].clone(), all[2].clone(), " ".to_string(), " ".to_string()]);
    let empty = RgbPixels { width: 0, height: 0, data: vec![] };
    assert!(fit_scaled(&empty, 3).is_empty());
}

#[test]
fn scaled_sprite_is_centred_in_its_slot() {
    let img = RgbaPixels { width: 1, height: 2, data: vec![0; 8] };
    let lines = sprite_scaled(&img, 3, 4);
    let row = format!(" {}  ", "\x1b[49m \x1b[0m");
    assert_eq!(lines, vec![" ".repeat(4), row, " ".repeat(4)]);
}
