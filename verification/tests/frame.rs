use cardex::render::frame::{beside, Frame};
use cardex::render::style::{fg, lerp, shade, vis_width, Rgb};

fn esc_fg(s: &str, (r, g, b): Rgb) -> String {
    format!("\x1b[38;2;{r};{g};{b}m{s}\x1b[39m")
}

#[test]
fn frame_edges_rows_and_splits() {
    let accent = (240, 128, 48);
    let border = shade(accent, 55);
    let mut f = Frame::new(10, accent);
    assert_eq!(f.inner(), 10);
    f.top();
    f.row("hello");
    f.blank();
    f.split("ab", "cd");
    f.split("left", "");
    f.rule();
    f.bottom();
    let b = esc_fg("│", border);
    let l = f.lines();
    assert_eq!(l.len(), 7);
    assert_eq!(l[0], esc_fg(&format!("╭{}╮", "─".repeat(12)), border));
    assert_eq!(l[1], format!("{b} hello      {b}"));
    assert_eq!(l[2], format!("{b}            {b}"));
    assert_eq!(l[3], format!("{b} ab      cd {b}"));
    assert_eq!(l[4], format!("{b} left       {b}"));
    let mut rule = esc_fg("├", border);
    for i in 0..12u64 {
        rule.push_str(&esc_fg("─", lerp(accent, border, i, 11)));
    }
    rule.push_str(&esc_fg("┤", border));
    assert_eq!(l[5], rule);
    assert_eq!(l[6], esc_fg(&format!("╰{}╯", "─".repeat(12)), border));
    for line in l {
        assert_eq!(vis_width(line), 14);
    }
}

#[test]
fn rows_that_overflow_are_not_cut() {
    let mut f = Frame::new(3, (10, 20, 30));
    f.row("toolong");
    f.split("abc", "def");
    let b = esc_fg("│", shade((10, 20, 30), 55));
    assert_eq!(f.lines()[0], format!("{b} toolong {b}"));
    assert_eq!(f.lines()[1], format!("{b} abc def {b}"));
}

#[test]
fn styled_content_is_padded_by_visible_width() {
    let mut f = Frame::new(8, (1, 2, 3));
    let content = fg("ab", (9, 9, 9));
    f.row(&content);
    assert_eq!(vis_width(&f.lines()[0]), 12);
}

#[test]
fn beside_centres_the_shorter_column() {
    let left: Vec<String> = vec!["LL".into(), "LL".into()];
    let right: Vec<String> = vec!["a".into(), "b".into(), "c".into(), "d".into()];
    let out = beside(&left, &right, 3);
    assert_eq!(out, vec!["     a", "LL   b", "LL   c", "     d"]);

    let tall: Vec<String> = vec!["1".into(), "2".into(), "3".into()];
    let short: Vec<String> = vec!["x".into()];
    assert_eq!(beside(&tall, &short, 1), vec!["1 ", "2 x", "3 "]);
}

#[test]
fn beside_without_a_left_column_is_the_right_column() {
    let right: Vec<String> = vec!["a".into(), "b".into()];
    assert_eq!(beside(&[], &right, 3), right);
}
