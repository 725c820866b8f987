//! Decoded images → half-block terminal lines. The `image` crate decodes
//! and resamples; this module rasterises.

use vstd::prelude::*;
use vstd::string::*;

use super::style::{
    escapes_closed, is_ascii_alpha, lemma_dec_digits, lemma_escape, lemma_fg_prefix,
    lemma_plain_width, lemma_repeat_width, lemma_sgr, lemma_visible_concat, vis_width, visible,
    Rgb,
};
use crate::text::{dec, push_char_n, push_dec, spaces, spaces_string, strs};

verus! {

/// An RGB image: `width * height` pixels, row by row, three bytes each.
pub struct RgbPixels {
    pub width: u32,
    pub height: u32,
    pub data: Vec<u8>,
}

/// An RGBA image: `width * height` pixels, row by row, four bytes each.
pub struct RgbaPixels {
    pub width: u32,
    pub height: u32,
    pub data: Vec<u8>,
}

impl RgbPixels {
    /// The buffer holds exactly the pixels.
    pub open spec fn wf(&self) -> bool {
        self.data@.len() == 3 * self.width * self.height
    }

    /// The colour at column `x`, row `y`.
    pub open spec fn at(&self, x: int, y: int) -> Rgb {
        let i = 3 * (y * self.width + x);
        (self.data@[i], self.data@[i + 1], self.data@[i + 2])
    }
}

impl RgbaPixels {
    /// The buffer holds exactly the pixels.
    pub open spec fn wf(&self) -> bool {
        self.data@.len() == 4 * self.width * self.height
    }

    /// The colour and alpha at column `x`, row `y`.
    pub open spec fn at(&self, x: int, y: int) -> (u8, u8, u8, u8) {
        let i = 4 * (y * self.width + x);
        (self.data@[i], self.data@[i + 1], self.data@[i + 2], self.data@[i + 3])
    }
}

#[verifier::external_type_specification]
#[verifier::external_body]
pub struct ExImageError(image::ImageError);

// ── Trusted calls into `image` ───────────────────────────────────────

/// What `image::load_from_memory(bytes)` followed by `to_rgb8` yields
/// for these bytes: width, height and pixel bytes, or nothing when the
/// bytes are not an image the crate decodes.
pub uninterp spec fn decoded_rgb(bytes: Seq<u8>) -> Option<(nat, nat, Seq<u8>)>;

/// What `image::load_from_memory(bytes)` followed by `to_rgba8` yields.
pub uninterp spec fn decoded_rgba(bytes: Seq<u8>) -> Option<(nat, nat, Seq<u8>)>;

/// The pixel bytes `image::imageops::resize` with `FilterType::Lanczos3`
/// produces from an RGB image of the given size at the new size.
pub uninterp spec fn lanczos_rgb(w: nat, h: nat, data: Seq<u8>, nw: nat, nh: nat) -> Seq<u8>;

/// The pixel bytes `image::imageops::resize` with `FilterType::Lanczos3`
/// produces from an RGBA image of the given size at the new size.
pub uninterp spec fn lanczos_rgba(w: nat, h: nat, data: Seq<u8>, nw: nat, nh: nat) -> Seq<u8>;

/// `image::load_from_memory` then `DynamicImage::to_rgb8`: the decoded
/// pixels (a function of the bytes alone) or the decoder's error. The
/// buffer of an `ImageBuffer` always holds exactly its pixels.
#[verifier::external_body]
fn load_rgb(bytes: &[u8]) -> (r: Result<RgbPixels, image::ImageError>)
    ensures
        match r {
            Ok(p) => p.wf() && decoded_rgb(bytes@) == Some(
                (p.width as nat, p.height as nat, p.data@),
            ),
            Err(_) => decoded_rgb(bytes@) is None,
        },
{
    let img = image::load_from_memory(bytes)?.to_rgb8();
    Ok(RgbPixels { width: img.width(), height: img.height(), data: img.into_raw() })
}

/// `image::load_from_memory` then `DynamicImage::to_rgba8`.
#[verifier::external_body]
fn load_rgba(bytes: &[u8]) -> (r: Result<RgbaPixels, image::ImageError>)
    ensures
        match r {
            Ok(p) => p.wf() && decoded_rgba(bytes@) == Some(
                (p.width as nat, p.height as nat, p.data@),
            ),
            Err(_) => decoded_rgba(bytes@) is None,
        },
{
    let img = image::load_from_memory(bytes)?.to_rgba8();
    Ok(RgbaPixels { width: img.width(), height: img.height(), data: img.into_raw() })
}

/// `image::imageops::resize(.., FilterType::Lanczos3)` on an RGB image:
/// the result is exactly `nw` by `nh`. The crate allocates the result and
/// a float buffer of the old width by the new height, so both must fit.
#[verifier::external_body]
fn resize_rgb(img: &RgbPixels, nw: u32, nh: u32) -> (r: RgbPixels)
    requires
        img.wf(),
        16 * (nw as nat) * (nh as nat) <= usize::MAX,
        16 * (img.width as nat) * (nh as nat) <= usize::MAX,
    ensures
        r.width == nw,
        r.height == nh,
        r.wf(),
        r.data@ == lanczos_rgb(img.width as nat, img.height as nat, img.data@, nw as nat, nh as nat),
{
    let src = image::RgbImage::from_raw(img.width, img.height, img.data.clone()).unwrap();
    let out = image::imageops::resize(&src, nw, nh, image::imageops::FilterType::Lanczos3);
    RgbPixels { width: nw, height: nh, data: out.into_raw() }
}

/// `image::imageops::resize(.., FilterType::Lanczos3)` on an RGBA image.
#[verifier::external_body]
fn resize_rgba(img: &RgbaPixels, nw: u32, nh: u32) -> (r: RgbaPixels)
    requires
        img.wf(),
        16 * (nw as nat) * (nh as nat) <= usize::MAX,
        16 * (img.width as nat) * (nh as nat) <= usize::MAX,
    ensures
        r.width == nw,
        r.height == nh,
        r.wf(),
        r.data@ == lanczos_rgba(img.width as nat, img.height as nat, img.data@, nw as nat, nh as nat),
{
    let src = image::RgbaImage::from_raw(img.width, img.height, img.data.clone()).unwrap();
    let out = image::imageops::resize(&src, nw, nh, image::imageops::FilterType::Lanczos3);
    RgbaPixels { width: nw, height: nh, data: out.into_raw() }
}

/// Decodes card artwork (any format the crate knows) to RGB.
pub fn load_art(bytes: &Vec<u8>) -> (r: Result<RgbPixels, image::ImageError>)
    ensures
        match r {
            Ok(p) => p.wf() && decoded_rgb(bytes@) == Some(
                (p.width as nat, p.height as nat, p.data@),
            ),
            Err(_) => decoded_rgb(bytes@) is None,
        },
{
    load_rgb(bytes.as_slice())
}

/// Decodes a transparent sprite (a set logo or symbol) to RGBA.
pub fn load_sprite(bytes: &Vec<u8>) -> (r: Result<RgbaPixels, image::ImageError>)
    ensures
        match r {
            Ok(p) => p.wf() && decoded_rgba(bytes@) == Some(
                (p.width as nat, p.height as nat, p.data@),
            ),
            Err(_) => decoded_rgba(bytes@) is None,
        },
{
    load_rgba(bytes.as_slice())
}

// ── Half-block rasterising ───────────────────────────────────────────

/// SGR 24-bit foreground.
pub open spec fn sgr_fg(c: Rgb) -> Seq<char> {
    "\x1b[38;2;"@ + dec(c.0 as nat) + ";"@ + dec(c.1 as nat) + ";"@ + dec(c.2 as nat) + "m"@
}

/// SGR 24-bit background.
pub open spec fn sgr_bg(c: Rgb) -> Seq<char> {
    "\x1b[48;2;"@ + dec(c.0 as nat) + ";"@ + dec(c.1 as nat) + ";"@ + dec(c.2 as nat) + "m"@
}

/// `▀` with the top pixel as foreground and the bottom one as background.
pub open spec fn half_block(top: Rgb, bottom: Rgb) -> Seq<char> {
    sgr_fg(top) + sgr_bg(bottom) + "▀"@
}

/// The pixel row under `y`: `y + 1`, or `y` itself on the last row.
pub open spec fn below(y: int, height: int) -> int {
    if y + 1 <= height - 1 {
        y + 1
    } else {
        height - 1
    }
}

/// The first `k` cells of the terminal line drawn from pixel rows `y`, `y+1`.
pub open spec fn rgb_cells(img: RgbPixels, y: int, k: nat) -> Seq<char>
    decreases k,
{
    if k == 0 {
        Seq::empty()
    } else {
        rgb_cells(img, y, (k - 1) as nat) + half_block(
            img.at(k - 1, y),
            img.at(k - 1, below(y, img.height as int)),
        )
    }
}

/// One line per two pixel rows, each cell a half block, each line ending
/// with a full reset.
pub open spec fn image_text(img: RgbPixels) -> Seq<Seq<char>> {
    Seq::new(
        (img.height as nat + 1) / 2,
        |j: int| rgb_cells(img, 2 * j, img.width as nat) + "\x1b[0m"@,
    )
}

fn push_sgr_fg(s: &mut String, c: Rgb)
    ensures
        final(s)@ == old(s)@ + sgr_fg(c),
{
    s.append("\x1b[38;2;");
    push_dec(s, c.0 as u64);
    s.append(";");
    push_dec(s, c.1 as u64);
    s.append(";");
    push_dec(s, c.2 as u64);
    s.append("m");
    assert(s@ =~= old(s)@ + sgr_fg(c));
}

fn push_sgr_bg(s: &mut String, c: Rgb)
    ensures
        final(s)@ == old(s)@ + sgr_bg(c),
{
    s.append("\x1b[48;2;");
    push_dec(s, c.0 as u64);
    s.append(";");
    push_dec(s, c.1 as u64);
    s.append(";");
    push_dec(s, c.2 as u64);
    s.append("m");
    assert(s@ =~= old(s)@ + sgr_bg(c));
}

proof fn lemma_index(w: int, h: int, x: int, y: int, k: int)
    requires
        0 <= x < w,
        0 <= y < h,
        1 <= k,
    ensures
        0 <= y * w,
        y * w <= y * w + x,
        y * w + x <= k * (y * w + x),
        0 <= k * (y * w + x),
        k * (y * w + x) + k <= k * w * h,
{
    assert(y * w + x <= k * (y * w + x)) by (nonlinear_arith)
        requires
            0 <= x,
            0 <= y,
            0 <= w,
            1 <= k,
    ;
    assert(y * w + x < w * h) by (nonlinear_arith)
        requires
            0 <= x < w,
            0 <= y < h,
    ;
    assert(0 <= y * w) by (nonlinear_arith)
        requires
            0 <= y,
            0 <= w,
    ;
    assert(k * (y * w + x) + k <= k * (w * h)) by (nonlinear_arith)
        requires
            y * w + x < w * h,
            1 <= k,
    ;
    assert(0 <= k * (y * w + x)) by (nonlinear_arith)
        requires
            0 <= y * w + x,
            1 <= k,
    ;
    assert(k * (w * h) == k * w * h) by (nonlinear_arith);
}

fn rgb_pixel(img: &RgbPixels, x: u32, y: u32) -> (c: Rgb)
    requires
        img.wf(),
        x < img.width,
        y < img.height,
    ensures
        c == img.at(x as int, y as int),
{
    let len = img.data.len();
    proof {
        lemma_index(img.width as int, img.height as int, x as int, y as int, 3);
    }
    let yw = y as usize * img.width as usize;
    let i = 3 * (yw + x as usize);
    (img.data[i], img.data[i + 1], img.data[i + 2])
}

/// One ▀ per column: foreground = top pixel, background = bottom pixel.
pub fn image_lines(img: &RgbPixels) -> (r: Vec<String>)
    requires
        img.wf(),
    ensures
        strs(r@) == image_text(*img),
{
    let width = img.width;
    let height = img.height;
    let ghost want = image_text(*img);
    let mut lines: Vec<String> = Vec::new();
    let mut y: u64 = 0;
    while y < height as u64
        invariant
            width == img.width,
            height == img.height,
            img.wf(),
            y % 2 == 0,
            y <= height + 1,
            want == image_text(*img),
            strs(lines@) == want.subrange(0, (y / 2) as int),
        decreases height + 1 - y,
    {
        let mut line = String::new();
        let mut x: u32 = 0;
        let yb: u32 = if y + 1 <= height as u64 - 1 {
            (y + 1) as u32
        } else {
            height - 1
        };
        while x < width
            invariant
                x <= width,
                y < height,
                yb == below(y as int, height as int),
                width == img.width,
                height == img.height,
                img.wf(),
                line@ == rgb_cells(*img, y as int, x as nat),
            decreases width - x,
        {
            let t = rgb_pixel(img, x, y as u32);
            let b = rgb_pixel(img, x, yb);
            push_sgr_fg(&mut line, t);
            push_sgr_bg(&mut line, b);
            line.append("▀");
            x = x + 1;
            assert(line@ =~= rgb_cells(*img, y as int, x as nat));
        }
        line.append("\x1b[0m");
        let ghost before = strs(lines@);
        lines.push(line);
        assert(strs(lines@) =~= before.push(want[(y / 2) as int]));
        y = y + 2;
        assert(strs(lines@) =~= want.subrange(0, (y / 2) as int));
    }
    assert(want.len() == (height as nat + 1) / 2);
    assert(want.subrange(0, (y / 2) as int) =~= want);
    lines
}

/// Alpha below this is drawn as an empty cell, so the terminal background
/// shows through instead of a black box.
pub open spec fn alpha_cutoff() -> u8 {
    96
}

/// A sprite cell: both halves opaque → ▀ over a background; only one
/// opaque → that half alone on the default background; neither → a space.
pub open spec fn sprite_cell(t: (u8, u8, u8, u8), b: (u8, u8, u8, u8)) -> Seq<char> {
    let t_on = t.3 >= alpha_cutoff();
    let b_on = b.3 >= alpha_cutoff();
    if t_on && b_on {
        sgr_fg((t.0, t.1, t.2)) + sgr_bg((b.0, b.1, b.2)) + "▀"@
    } else if t_on {
        "\x1b[49m"@ + sgr_fg((t.0, t.1, t.2)) + "▀"@
    } else if b_on {
        "\x1b[49m"@ + sgr_fg((b.0, b.1, b.2)) + "▄"@
    } else {
        "\x1b[49m "@
    }
}

/// The first `k` cells of the sprite line drawn from rows `y`, `y+1`.
pub open spec fn rgba_cells(img: RgbaPixels, y: int, k: nat) -> Seq<char>
    decreases k,
{
    if k == 0 {
        Seq::empty()
    } else {
        rgba_cells(img, y, (k - 1) as nat) + sprite_cell(
            img.at(k - 1, y),
            img.at(k - 1, below(y, img.height as int)),
        )
    }
}

/// Like `image_text`, but transparent pixels become empty cells.
pub open spec fn sprite_text(img: RgbaPixels) -> Seq<Seq<char>> {
    Seq::new(
        (img.height as nat + 1) / 2,
        |j: int| rgba_cells(img, 2 * j, img.width as nat) + "\x1b[0m"@,
    )
}

fn rgba_pixel(img: &RgbaPixels, x: u32, y: u32) -> (c: (u8, u8, u8, u8))
    requires
        img.wf(),
        x < img.width,
        y < img.height,
    ensures
        c == img.at(x as int, y as int),
{
    let len = img.data.len();
    proof {
        lemma_index(img.width as int, img.height as int, x as int, y as int, 4);
    }
    let yw = y as usize * img.width as usize;
    let i = 4 * (yw + x as usize);
    (img.data[i], img.data[i + 1], img.data[i + 2], img.data[i + 3])
}

fn push_sprite_cell(s: &mut String, t: (u8, u8, u8, u8), b: (u8, u8, u8, u8))
    ensures
        final(s)@ == old(s)@ + sprite_cell(t, b),
{
    let t_on = t.3 >= 96;
    let b_on = b.3 >= 96;
    if t_on && b_on {
        push_sgr_fg(s, (t.0, t.1, t.2));
        push_sgr_bg(s, (b.0, b.1, b.2));
        s.append("▀");
    } else if t_on {
        s.append("\x1b[49m");
        push_sgr_fg(s, (t.0, t.1, t.2));
        s.append("▀");
    } else if b_on {
        s.append("\x1b[49m");
        push_sgr_fg(s, (b.0, b.1, b.2));
        s.append("▄");
    } else {
        s.append("\x1b[49m ");
    }
    assert(s@ =~= old(s)@ + sprite_cell(t, b));
}

/// Like `image_lines`, but transparent pixels become empty cells.
pub fn sprite_lines(img: &RgbaPixels) -> (r: Vec<String>)
    requires
        img.wf(),
    ensures
        strs(r@) == sprite_text(*img),
{
    let width = img.width;
    let height = img.height;
    let ghost want = sprite_text(*img);
    let mut lines: Vec<String> = Vec::new();
    let mut y: u64 = 0;
    while y < height as u64
        invariant
            width == img.width,
            height == img.height,
            img.wf(),
            y % 2 == 0,
            y <= height + 1,
            want == sprite_text(*img),
            strs(lines@) == want.subrange(0, (y / 2) as int),
        decreases height + 1 - y,
    {
        let mut line = String::new();
        let mut x: u32 = 0;
        let yb: u32 = if y + 1 <= height as u64 - 1 {
            (y + 1) as u32
        } else {
            height - 1
        };
        while x < width
            invariant
                x <= width,
                y < height,
                yb == below(y as int, height as int),
                width == img.width,
                height == img.height,
                img.wf(),
                line@ == rgba_cells(*img, y as int, x as nat),
            decreases width - x,
        {
            let t = rgba_pixel(img, x, y as u32);
            let b = rgba_pixel(img, x, yb);
            push_sprite_cell(&mut line, t, b);
            x = x + 1;
            assert(line@ =~= rgba_cells(*img, y as int, x as nat));
        }
        line.append("\x1b[0m");
        let ghost before = strs(lines@);
        lines.push(line);
        assert(strs(lines@) =~= before.push(want[(y / 2) as int]));
        y = y + 2;
        assert(strs(lines@) =~= want.subrange(0, (y / 2) as int));
    }
    assert(want.len() == (height as nat + 1) / 2);
    assert(want.subrange(0, (y / 2) as int) =~= want);
    lines
}

// ── Fitting to a number of lines ─────────────────────────────────────

/// Exactly `rows` lines: surplus lines cut evenly from the top (half,
/// rounded down) and the bottom; missing lines added at the bottom as
/// blanks as wide as the first line. No lines stay no lines.
pub open spec fn fit_rows(lines: Seq<Seq<char>>, rows: nat) -> Seq<Seq<char>> {
    if lines.len() > rows {
        let cut = (lines.len() - rows) as nat / 2;
        lines.subrange(cut as int, (cut + rows) as int)
    } else if lines.len() < rows && lines.len() > 0 {
        lines + Seq::new((rows - lines.len()) as nat, |_i: int| spaces(visible(lines[0])))
    } else {
        lines
    }
}

/// `r` is the art of `img` resampled to `scaled`, `cols` columns by
/// `2 * rows` pixel rows (at least one), fitted to `rows` lines.
pub open spec fn fitted(r: Seq<String>, img: RgbPixels, rows: nat, cols: nat, scaled: RgbPixels) -> bool {
    &&& scaled.width == cols
    &&& scaled.height == (if rows * 2 >= 1 {
        rows * 2
    } else {
        1
    })
    &&& scaled.wf()
    &&& scaled.data@ == lanczos_rgb(
        img.width as nat,
        img.height as nat,
        img.data@,
        scaled.width as nat,
        scaled.height as nat,
    )
    &&& strs(r) == fit_rows(image_text(scaled), rows)
}

/// The lines of an image already resampled to `2 * rows` pixel rows,
/// fitted to exactly `rows` lines.
pub fn fit_scaled(scaled: &RgbPixels, rows: usize) -> (r: Vec<String>)
    requires
        scaled.wf(),
    ensures
        strs(r@) == fit_rows(image_text(*scaled), rows as nat),
{
    let mut lines = image_lines(scaled);
    let ghost full = strs(lines@);
    let n = lines.len();
    if n > rows {
        let cut = (n - rows) / 2;
        let mut out: Vec<String> = Vec::new();
        let mut i: usize = cut;
        while i < cut + rows
            invariant
                cut <= i <= cut + rows,
                cut + rows <= n,
                n == lines@.len(),
                full == strs(lines@),
                strs(out@) == full.subrange(cut as int, i as int),
            decreases cut + rows - i,
        {
            let ghost before = strs(out@);
            out.push(lines[i].clone());
            assert(strs(out@) =~= before.push(full[i as int]));
            i = i + 1;
            assert(strs(out@) =~= full.subrange(cut as int, i as int));
        }
        return out;
    } else if n < rows && n > 0 {
        let blank = spaces_string(vis_width(lines[0].as_str()));
        let mut k: usize = n;
        while k < rows
            invariant
                n <= k <= rows,
                n > 0,
                n == full.len(),
                blank@ == spaces(visible(full[0])),
                strs(lines@) == full + Seq::new((k - n) as nat, |_i: int| spaces(visible(full[0]))),
            decreases rows - k,
        {
            let ghost before = strs(lines@);
            lines.push(blank.clone());
            assert(strs(lines@) =~= before.push(blank@));
            k = k + 1;
            assert(strs(lines@) =~= full + Seq::new(
                (k - n) as nat,
                |_i: int| spaces(visible(full[0])),
            ));
        }
    }
    lines
}

/// Render `img` at exactly `rows` lines and `cols` columns (at card
/// proportions `cols` is `rows * 2 * 63 / 88`, computed by the caller).
pub fn fit(img: &RgbPixels, rows: usize, cols: u32) -> (r: Vec<String>)
    requires
        img.wf(),
        rows * 2 <= u32::MAX,
        16 * (cols as nat) * (rows * 2 + 1) <= usize::MAX,
        16 * (img.width as nat) * (rows * 2 + 1) <= usize::MAX,
    ensures
        exists|scaled: RgbPixels| #[trigger] fitted(r@, *img, rows as nat, cols as nat, scaled),
{
    let h: u32 = if rows * 2 >= 1 {
        (rows * 2) as u32
    } else {
        1
    };
    assert(16 * (cols as nat) * (h as nat) <= 16 * (cols as nat) * (rows * 2 + 1)) by (nonlinear_arith)
        requires
            h <= rows * 2 + 1,
    ;
    assert(16 * (img.width as nat) * (h as nat) <= 16 * (img.width as nat) * (rows * 2 + 1))
        by (nonlinear_arith)
        requires
            h <= rows * 2 + 1,
    ;
    let scaled = resize_rgb(img, cols, h);
    let out = fit_scaled(&scaled, rows);
    assert(fitted(out@, *img, rows as nat, cols as nat, scaled));
    out
}

// ── Sprites: transparent PNGs (set logos) ────────────────────────────

/// Blank lines added alternately above (when the count so far is even)
/// and below until there are `rows`.
pub open spec fn center_rows(lines: Seq<Seq<char>>, rows: nat, blank: Seq<char>) -> Seq<Seq<char>>
    decreases rows - lines.len(),
{
    if lines.len() >= rows {
        lines
    } else if lines.len() % 2 == 0 {
        center_rows(seq![blank] + lines, rows, blank)
    } else {
        center_rows(lines.push(blank), rows, blank)
    }
}

/// Each line centred in `max_cols` columns for a sprite `w` columns wide.
pub open spec fn pad_sprite(lines: Seq<Seq<char>>, w: nat, max_cols: nat) -> Seq<Seq<char>> {
    let pad_l = (max_cols - w) as nat / 2;
    let pad_r = (max_cols - w - pad_l) as nat;
    lines.map_values(|l: Seq<char>| spaces(pad_l) + l + spaces(pad_r))
}

/// `r` is the sprite of `img` resampled to `scaled`, `w` by `h` pixels,
/// padded and centred in `max_cols` columns and at least `rows` lines.
pub open spec fn sprite_from(
    r: Seq<String>,
    img: RgbaPixels,
    rows: nat,
    max_cols: nat,
    w: u32,
    h: u32,
    scaled: RgbaPixels,
) -> bool {
    &&& scaled.width == w
    &&& scaled.height == h
    &&& scaled.wf()
    &&& scaled.data@ == lanczos_rgba(img.width as nat, img.height as nat, img.data@, w as nat, h as nat)
    &&& strs(r) == center_rows(pad_sprite(sprite_text(scaled), w as nat, max_cols), rows, spaces(max_cols))
}

/// The lines of a sprite already resampled to `w` columns, each centred
/// in `max_cols` columns, with blank lines added alternately above and
/// below until there are `rows`.
pub fn sprite_scaled(scaled: &RgbaPixels, rows: usize, max_cols: usize) -> (r: Vec<String>)
    requires
        scaled.wf(),
        scaled.width <= max_cols,
    ensures
        strs(r@) == center_rows(
            pad_sprite(sprite_text(*scaled), scaled.width as nat, max_cols as nat),
            rows as nat,
            spaces(max_cols as nat),
        ),
{
    let w = scaled.width;
    let lines = sprite_lines(scaled);
    let pad_l = (max_cols - w as usize) / 2;
    let pad_r = max_cols - w as usize - pad_l;
    let ghost raw = strs(lines@);
    let ghost padded = pad_sprite(raw, w as nat, max_cols as nat);
    let mut out: Vec<String> = Vec::new();
    let mut i: usize = 0;
    while i < lines.len()
        invariant
            i <= lines@.len(),
            raw == strs(lines@),
            padded == pad_sprite(raw, w as nat, max_cols as nat),
            pad_l == (max_cols - w) as nat / 2,
            pad_r == (max_cols - w - pad_l) as nat,
            strs(out@) == padded.subrange(0, i as int),
        decreases lines@.len() - i,
    {
        let mut l = String::new();
        push_char_n(&mut l, ' ', pad_l);
        l.append(lines[i].as_str());
        push_char_n(&mut l, ' ', pad_r);
        let ghost before = strs(out@);
        out.push(l);
        assert(strs(out@) =~= before.push(padded[i as int]));
        i = i + 1;
        assert(strs(out@) =~= padded.subrange(0, i as int));
    }
    assert(padded.subrange(0, lines@.len() as int) =~= padded);
    let blank = spaces_string(max_cols);
    let ghost bv = blank@;
    while out.len() < rows
        invariant
            bv == blank@,
            center_rows(strs(out@), rows as nat, bv) == center_rows(padded, rows as nat, bv),
        decreases rows - out@.len(),
    {
        let ghost before = strs(out@);
        if out.len() % 2 == 0 {
            out.insert(0, blank.clone());
            assert(strs(out@) =~= seq![bv] + before);
        } else {
            out.push(blank.clone());
            assert(strs(out@) =~= before.push(bv));
        }
    }
    assert(center_rows(strs(out@), rows as nat, bv) == strs(out@));
    out
}

/// Render a transparent image at `rows` lines, resampled to `w` by `h`
/// pixels (its own aspect ratio within `max_cols`, computed by the
/// caller), every line padded to `max_cols` (centred) so sprites line up
/// in a list, and blank lines added to reach `rows`.
pub fn sprite(img: &RgbaPixels, rows: usize, max_cols: usize, w: u32, h: u32) -> (r: Vec<String>)
    requires
        img.wf(),
        w <= max_cols,
        16 * (w as nat) * (h as nat) <= usize::MAX,
        16 * (img.width as nat) * (h as nat) <= usize::MAX,
    ensures
        exists|scaled: RgbaPixels| #[trigger] sprite_from(r@, *img, rows as nat, max_cols as nat, w, h, scaled),
        (h as nat + 1) / 2 <= rows ==> r@.len() == rows && forall|j: int|
            0 <= j < r@.len() ==> visible(#[trigger] r@[j]@) == max_cols,
{
    let scaled = resize_rgba(img, w, h);
    let out = sprite_scaled(&scaled, rows, max_cols);
    assert(sprite_from(out@, *img, rows as nat, max_cols as nat, w, h, scaled));
    proof {
        if (h as nat + 1) / 2 <= rows {
            lemma_sprite_law(out@, *img, rows as nat, max_cols as nat, w, h, scaled);
        }
    }
    out
}

// ── Laws ─────────────────────────────────────────────────────────────

/// The background-setting escape takes no width.
proof fn lemma_bg_prefix(c: Rgb)
    ensures
        vis_scan_zero(sgr_bg(c)),
{
    reveal_strlit("\x1b[48;2;");
    reveal_strlit(";");
    reveal_strlit("m");
    lemma_dec_digits(c.0 as nat);
    lemma_dec_digits(c.1 as nat);
    lemma_dec_digits(c.2 as nat);
    let mid = seq!['[', '4', '8', ';', '2', ';'] + dec(c.0 as nat) + seq![';'] + dec(c.1 as nat)
        + seq![';'] + dec(c.2 as nat);
    assert forall|i: int| 0 <= i < mid.len() implies !is_ascii_alpha(#[trigger] mid[i]) by {
        let a = dec(c.0 as nat).len();
        let b = dec(c.1 as nat).len();
        if 6 <= i < 6 + a {
            assert(mid[i] == dec(c.0 as nat)[i - 6]);
        } else if 7 + a <= i < 7 + a + b {
            assert(mid[i] == dec(c.1 as nat)[i - 7 - a]);
        } else if 8 + a + b <= i {
            assert(mid[i] == dec(c.2 as nat)[i - 8 - a - b]);
        }
    }
    lemma_escape(mid, 'm');
    assert(sgr_bg(c) =~= seq!['\x1b'] + mid + seq!['m']);
}

/// `s` takes no width and leaves no escape open.
pub open spec fn vis_scan_zero(s: Seq<char>) -> bool {
    visible(s) == 0 && escapes_closed(s)
}

proof fn lemma_fg_zero(c: Rgb)
    ensures
        vis_scan_zero(sgr_fg(c)),
{
    lemma_fg_prefix(c);
}

proof fn lemma_cell_glyph(g: Seq<char>)
    requires
        g.len() == 1,
        g[0] != '\x1b',
    ensures
        visible(g) == 1,
        escapes_closed(g),
{
    lemma_plain_width(g);
}

/// Every half-block cell is one column wide.
proof fn lemma_half_block_width(top: Rgb, bottom: Rgb)
    ensures
        visible(half_block(top, bottom)) == 1,
        escapes_closed(half_block(top, bottom)),
{
    reveal_strlit("▀");
    lemma_fg_zero(top);
    lemma_bg_prefix(bottom);
    lemma_cell_glyph("▀"@);
    lemma_visible_concat(sgr_fg(top), sgr_bg(bottom));
    lemma_visible_concat(sgr_fg(top) + sgr_bg(bottom), "▀"@);
}

proof fn lemma_reset_zero()
    ensures
        vis_scan_zero("\x1b[0m"@),
        vis_scan_zero("\x1b[49m"@),
{
    reveal_strlit("\x1b[0m");
    reveal_strlit("\x1b[49m");
    lemma_sgr(seq!['0']);
    lemma_sgr(seq!['4', '9']);
    assert("\x1b[0m"@ =~= seq!['\x1b', '['] + seq!['0'] + seq!['m']);
    assert("\x1b[49m"@ =~= seq!['\x1b', '['] + seq!['4', '9'] + seq!['m']);
}

/// Every sprite cell is one column wide, transparent or not.
proof fn lemma_sprite_cell_width(t: (u8, u8, u8, u8), b: (u8, u8, u8, u8))
    ensures
        visible(sprite_cell(t, b)) == 1,
        escapes_closed(sprite_cell(t, b)),
{
    reveal_strlit("▀");
    reveal_strlit("▄");
    reveal_strlit("\x1b[49m ");
    reveal_strlit("\x1b[49m");
    reveal_strlit(" ");
    lemma_reset_zero();
    let tc = (t.0, t.1, t.2);
    let bc = (b.0, b.1, b.2);
    lemma_fg_zero(tc);
    lemma_fg_zero(bc);
    lemma_bg_prefix(bc);
    lemma_cell_glyph("▀"@);
    lemma_cell_glyph("▄"@);
    lemma_cell_glyph(" "@);
    lemma_visible_concat(sgr_fg(tc), sgr_bg(bc));
    lemma_visible_concat(sgr_fg(tc) + sgr_bg(bc), "▀"@);
    lemma_visible_concat("\x1b[49m"@, sgr_fg(tc));
    lemma_visible_concat("\x1b[49m"@ + sgr_fg(tc), "▀"@);
    lemma_visible_concat("\x1b[49m"@, sgr_fg(bc));
    lemma_visible_concat("\x1b[49m"@ + sgr_fg(bc), "▄"@);
    assert("\x1b[49m "@ =~= "\x1b[49m"@ + " "@);
    lemma_visible_concat("\x1b[49m"@, " "@);
}

proof fn lemma_rgb_cells_width(img: RgbPixels, y: int, k: nat)
    ensures
        visible(rgb_cells(img, y, k)) == k,
        escapes_closed(rgb_cells(img, y, k)),
    decreases k,
{
    if k == 0 {
        assert(rgb_cells(img, y, 0) =~= Seq::<char>::empty());
    } else {
        lemma_rgb_cells_width(img, y, (k - 1) as nat);
        let t = img.at(k - 1, y);
        let b = img.at(k - 1, below(y, img.height as int));
        lemma_half_block_width(t, b);
        lemma_visible_concat(rgb_cells(img, y, (k - 1) as nat), half_block(t, b));
    }
}

proof fn lemma_rgba_cells_width(img: RgbaPixels, y: int, k: nat)
    ensures
        visible(rgba_cells(img, y, k)) == k,
        escapes_closed(rgba_cells(img, y, k)),
    decreases k,
{
    if k == 0 {
        assert(rgba_cells(img, y, 0) =~= Seq::<char>::empty());
    } else {
        lemma_rgba_cells_width(img, y, (k - 1) as nat);
        let t = img.at(k - 1, y);
        let b = img.at(k - 1, below(y, img.height as int));
        lemma_sprite_cell_width(t, b);
        lemma_visible_concat(rgba_cells(img, y, (k - 1) as nat), sprite_cell(t, b));
    }
}

/// Each line of a drawn image is one column per pixel wide, and there is
/// one line per two pixel rows (rounding up).
pub proof fn lemma_image_text_width(img: RgbPixels)
    ensures
        image_text(img).len() == (img.height as nat + 1) / 2,
        forall|j: int|
            0 <= j < image_text(img).len() ==> visible(#[trigger] image_text(img)[j])
                == img.width && escapes_closed(image_text(img)[j]),
{
    assert forall|j: int| 0 <= j < image_text(img).len() implies visible(
        #[trigger] image_text(img)[j],
    ) == img.width && escapes_closed(image_text(img)[j]) by {
        lemma_rgb_cells_width(img, 2 * j, img.width as nat);
        lemma_reset_zero();
        lemma_visible_concat(rgb_cells(img, 2 * j, img.width as nat), "\x1b[0m"@);
    }
}

/// The same for sprites: transparent cells are as wide as opaque ones.
pub proof fn lemma_sprite_text_width(img: RgbaPixels)
    ensures
        sprite_text(img).len() == (img.height as nat + 1) / 2,
        forall|j: int|
            0 <= j < sprite_text(img).len() ==> visible(#[trigger] sprite_text(img)[j])
                == img.width && escapes_closed(sprite_text(img)[j]),
{
    assert forall|j: int| 0 <= j < sprite_text(img).len() implies visible(
        #[trigger] sprite_text(img)[j],
    ) == img.width && escapes_closed(sprite_text(img)[j]) by {
        lemma_rgba_cells_width(img, 2 * j, img.width as nat);
        lemma_reset_zero();
        lemma_visible_concat(rgba_cells(img, 2 * j, img.width as nat), "\x1b[0m"@);
    }
}

/// Card art is drawn at exactly `rows` lines, each `cols` columns wide.
pub proof fn lemma_fit_law(r: Seq<String>, img: RgbPixels, rows: nat, cols: nat, scaled: RgbPixels)
    requires
        fitted(r, img, rows, cols, scaled),
        rows >= 1,
    ensures
        r.len() == rows,
        forall|j: int| 0 <= j < r.len() ==> visible(#[trigger] r[j]@) == cols,
{
    lemma_image_text_width(scaled);
    assert(image_text(scaled).len() == rows);
    assert(fit_rows(image_text(scaled), rows) == image_text(scaled));
    assert forall|j: int| 0 <= j < r.len() implies visible(#[trigger] r[j]@) == cols by {
        assert(strs(r)[j] == r[j]@);
        assert(image_text(scaled)[j] == strs(r)[j]);
    }
}

proof fn lemma_center_rows(lines: Seq<Seq<char>>, rows: nat, blank: Seq<char>, m: nat)
    requires
        visible(blank) == m,
        forall|j: int| 0 <= j < lines.len() ==> visible(#[trigger] lines[j]) == m,
    ensures
        center_rows(lines, rows, blank).len() == if lines.len() >= rows {
            lines.len()
        } else {
            rows
        },
        forall|j: int|
            0 <= j < center_rows(lines, rows, blank).len() ==> visible(
                #[trigger] center_rows(lines, rows, blank)[j],
            ) == m,
    decreases rows - lines.len(),
{
    if lines.len() < rows {
        if lines.len() % 2 == 0 {
            let next = seq![blank] + lines;
            assert forall|j: int| 0 <= j < next.len() implies visible(#[trigger] next[j]) == m by {
                if j > 0 {
                    assert(next[j] == lines[j - 1]);
                }
            }
            lemma_center_rows(next, rows, blank, m);
        } else {
            let next = lines.push(blank);
            assert forall|j: int| 0 <= j < next.len() implies visible(#[trigger] next[j]) == m by {
                if j < lines.len() {
                    assert(next[j] == lines[j]);
                }
            }
            lemma_center_rows(next, rows, blank, m);
        }
    }
}

/// A sprite whose pixel height fits in `rows` lines is drawn at exactly
/// `rows` lines, each `max_cols` columns wide, so sprites line up.
pub proof fn lemma_sprite_law(
    r: Seq<String>,
    img: RgbaPixels,
    rows: nat,
    max_cols: nat,
    w: u32,
    h: u32,
    scaled: RgbaPixels,
)
    requires
        sprite_from(r, img, rows, max_cols, w, h, scaled),
        w <= max_cols,
        (h as nat + 1) / 2 <= rows,
    ensures
        r.len() == rows,
        forall|j: int| 0 <= j < r.len() ==> visible(#[trigger] r[j]@) == max_cols,
{
    let raw = sprite_text(scaled);
    lemma_sprite_text_width(scaled);
    let pad_l = (max_cols - w) as nat / 2;
    let pad_r = (max_cols - w - pad_l) as nat;
    let padded = pad_sprite(raw, w as nat, max_cols as nat);
    lemma_plain_width(seq![' ']);
    assert(visible(seq![' ']) == 1);
    lemma_repeat_width(seq![' '], pad_l);
    lemma_repeat_width(seq![' '], pad_r);
    lemma_repeat_width(seq![' '], max_cols);
    assert(visible(spaces(pad_l)) == pad_l);
    assert(visible(spaces(pad_r)) == pad_r);
    assert(visible(spaces(max_cols)) == max_cols);
    assert(scaled.width == w);
    assert forall|j: int| 0 <= j < padded.len() implies visible(#[trigger] padded[j]) == max_cols by {
        assert(padded[j] == spaces(pad_l) + raw[j] + spaces(pad_r));
        assert(visible(raw[j]) == w && escapes_closed(raw[j]));
        lemma_visible_concat(spaces(pad_l), raw[j]);
        lemma_visible_concat(spaces(pad_l) + raw[j], spaces(pad_r));
    }
    lemma_center_rows(padded, rows, spaces(max_cols), max_cols);
    assert forall|j: int| 0 <= j < r.len() implies visible(#[trigger] r[j]@) == max_cols by {
        assert(strs(r)[j] == r[j]@);
    }
}

} // verus!
