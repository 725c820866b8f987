//! A rounded, type-coloured box with gradient dividers. Knows nothing
//! about cards — just rows, padding and borders.

use vstd::prelude::*;
use vstd::string::*;

use super::style::{
    blend, escapes_closed, fg, fg_text, lemma_plain_width, lemma_repeat_width, lemma_style_width,
    lemma_visible_concat, lerp, shade, shaded, vis_width, visible, Rgb,
};
use crate::text::{
    contains, lemma_contains_concat, occurs_at, push_char_n, repeat, repeat_str, spaces,
    spaces_string, strs,
};

verus! {

/// `╭──…──╮` over `inner + 2` dashes, in the border colour.
pub open spec fn top_text(border: Rgb, inner: nat) -> Seq<char> {
    fg_text("╭"@ + repeat("─"@, inner + 2) + "╮"@, border)
}

/// `╰──…──╯` over `inner + 2` dashes, in the border colour.
pub open spec fn bottom_text(border: Rgb, inner: nat) -> Seq<char> {
    fg_text("╰"@ + repeat("─"@, inner + 2) + "╯"@, border)
}

/// The first `k` dashes of a divider `n` cells wide, dash `i` coloured
/// `i/(n-1)` of the way from `accent` to `border`.
pub open spec fn rule_cells(accent: Rgb, border: Rgb, n: nat, k: nat) -> Seq<char>
    decreases k,
{
    if k == 0 {
        Seq::empty()
    } else {
        rule_cells(accent, border, n, (k - 1) as nat) + fg_text(
            "─"@,
            blend(accent, border, (k - 1) as nat, (n - 1) as nat),
        )
    }
}

/// A divider: `├`, `inner + 2` dashes fading from accent to border, `┤`.
pub open spec fn rule_text(accent: Rgb, border: Rgb, inner: nat) -> Seq<char> {
    fg_text("├"@, border) + rule_cells(accent, border, inner + 2, inner + 2) + fg_text("┤"@, border)
}

/// A boxed row: border, a space, the content padded to `inner` visible
/// columns, a space, border.
pub open spec fn row_text(border: Rgb, inner: nat, content: Seq<char>) -> Seq<char> {
    let b = fg_text("│"@, border);
    let pad = if visible(content) <= inner {
        (inner - visible(content)) as nat
    } else {
        0
    };
    b + " "@ + content + spaces(pad) + " "@ + b
}

/// What `split` puts in a row: `left`, at least one space, then `right`
/// flush against the right edge when both fit.
pub open spec fn split_content(inner: nat, left: Seq<char>, right: Seq<char>) -> Seq<char> {
    let used = visible(left) + visible(right);
    let gap = if used + 1 <= inner {
        (inner - used) as nat
    } else {
        1
    };
    left + spaces(gap) + right
}

/// The row `split` adds: `left` alone when `right` is empty.
pub open spec fn split_text(border: Rgb, inner: nat, left: Seq<char>, right: Seq<char>) -> Seq<
    char,
> {
    if right.len() == 0 {
        row_text(border, inner, left)
    } else {
        row_text(border, inner, split_content(inner, left, right))
    }
}

/// A glyph in a colour is one column wide.
proof fn lemma_glyph_width(g: Seq<char>, c: Rgb)
    requires
        g.len() == 1,
        g[0] != '\x1b',
    ensures
        visible(g) == 1,
        escapes_closed(g),
        visible(fg_text(g, c)) == 1,
        escapes_closed(fg_text(g, c)),
{
    lemma_plain_width(g);
    lemma_style_width(g, c);
}

proof fn lemma_spaces_width(n: nat)
    ensures
        visible(spaces(n)) == n,
        escapes_closed(spaces(n)),
{
    lemma_plain_width(seq![' ']);
    assert(visible(seq![' ']) == 1);
    lemma_repeat_width(seq![' '], n);
    assert(spaces(n) == repeat(seq![' '], n));
    assert(n * 1 == n);
}

/// A row is `inner + 4` columns wide whenever its content fits in `inner`:
/// the borders line up down the box.
pub proof fn lemma_row_width(border: Rgb, inner: nat, content: Seq<char>)
    requires
        escapes_closed(content),
        visible(content) <= inner,
    ensures
        visible(row_text(border, inner, content)) == inner + 4,
        escapes_closed(row_text(border, inner, content)),
{
    reveal_strlit("│");
    reveal_strlit(" ");
    let b = fg_text("│"@, border);
    lemma_glyph_width("│"@, border);
    lemma_plain_width(" "@);
    let pad = (inner - visible(content)) as nat;
    lemma_spaces_width(pad);
    lemma_visible_concat(b, " "@);
    lemma_visible_concat(b + " "@, content);
    lemma_visible_concat(b + " "@ + content, spaces(pad));
    lemma_visible_concat(b + " "@ + content + spaces(pad), " "@);
    lemma_visible_concat(b + " "@ + content + spaces(pad) + " "@, b);
}

/// A split row is `inner + 4` columns wide whenever both sides fit with a
/// space between them (or the left side alone fits, with nothing on the
/// right).
proof fn lemma_split_content_width(inner: nat, left: Seq<char>, right: Seq<char>)
    requires
        right.len() > 0,
        escapes_closed(left),
        escapes_closed(right),
        visible(left) + visible(right) + 1 <= inner,
    ensures
        visible(split_content(inner, left, right)) == inner,
        escapes_closed(split_content(inner, left, right)),
{
    let gap = (inner - visible(left) - visible(right)) as nat;
    lemma_spaces_width(gap);
    lemma_visible_concat(left, spaces(gap));
    lemma_visible_concat(left + spaces(gap), right);
}

pub proof fn lemma_split_width(border: Rgb, inner: nat, left: Seq<char>, right: Seq<char>)
    requires
        escapes_closed(left),
        escapes_closed(right),
        if right.len() == 0 {
            visible(left) <= inner
        } else {
            visible(left) + visible(right) + 1 <= inner
        },
    ensures
        visible(split_text(border, inner, left, right)) == inner + 4,
        escapes_closed(split_text(border, inner, left, right)),
{
    if right.len() == 0 {
        lemma_row_width(border, inner, left);
    } else {
        let gap = (inner - visible(left) - visible(right)) as nat;
        lemma_spaces_width(gap);
        lemma_visible_concat(left, spaces(gap));
        lemma_visible_concat(left + spaces(gap), right);
        lemma_row_width(border, inner, split_content(inner, left, right));
    }
}

proof fn lemma_rule_cells_width(accent: Rgb, border: Rgb, n: nat, k: nat)
    ensures
        visible(rule_cells(accent, border, n, k)) == k,
        escapes_closed(rule_cells(accent, border, n, k)),
    decreases k,
{
    if k > 0 {
        reveal_strlit("─");
        let c = blend(accent, border, (k - 1) as nat, (n - 1) as nat);
        lemma_rule_cells_width(accent, border, n, (k - 1) as nat);
        lemma_glyph_width("─"@, c);
        lemma_visible_concat(rule_cells(accent, border, n, (k - 1) as nat), fg_text("─"@, c));
    } else {
        assert(rule_cells(accent, border, n, 0) =~= Seq::<char>::empty());
    }
}

/// The top, the bottom and every divider are `inner + 4` columns wide, as
/// wide as a row whose content fits.
pub proof fn lemma_edge_width(accent: Rgb, border: Rgb, inner: nat)
    ensures
        visible(top_text(border, inner)) == inner + 4,
        visible(bottom_text(border, inner)) == inner + 4,
        visible(rule_text(accent, border, inner)) == inner + 4,
        escapes_closed(top_text(border, inner)),
        escapes_closed(bottom_text(border, inner)),
        escapes_closed(rule_text(accent, border, inner)),
{
    reveal_strlit("─");
    reveal_strlit("╭");
    reveal_strlit("╮");
    reveal_strlit("╰");
    reveal_strlit("╯");
    reveal_strlit("├");
    reveal_strlit("┤");
    lemma_plain_width("─"@);
    lemma_repeat_width("─"@, inner + 2);
    let dashes = repeat("─"@, inner + 2);
    lemma_glyph_width("╭"@, border);
    lemma_glyph_width("╮"@, border);
    lemma_glyph_width("╰"@, border);
    lemma_glyph_width("╯"@, border);
    lemma_visible_concat("╭"@, dashes);
    lemma_visible_concat("╭"@ + dashes, "╮"@);
    lemma_style_width("╭"@ + dashes + "╮"@, border);
    lemma_visible_concat("╰"@, dashes);
    lemma_visible_concat("╰"@ + dashes, "╯"@);
    lemma_style_width("╰"@ + dashes + "╯"@, border);
    lemma_glyph_width("├"@, border);
    lemma_glyph_width("┤"@, border);
    lemma_rule_cells_width(accent, border, inner + 2, inner + 2);
    lemma_visible_concat(fg_text("├"@, border), rule_cells(accent, border, inner + 2, inner + 2));
    lemma_visible_concat(
        fg_text("├"@, border) + rule_cells(accent, border, inner + 2, inner + 2),
        fg_text("┤"@, border),
    );
}

/// Every line is `inner + 4` columns wide and leaves no escape open.
pub open spec fn lines_aligned(t: Seq<Seq<char>>, inner: nat) -> bool {
    forall|i: int|
        0 <= i < t.len() ==> visible(#[trigger] t[i]) == inner + 4 && escapes_closed(t[i])
}

/// What a split row may hold for the box to stay aligned: both sides
/// close their escapes, and they fit with a space between them (or the
/// left side alone fits, with nothing on the right).
pub open spec fn split_fits(inner: nat, left: Seq<char>, right: Seq<char>) -> bool {
    &&& escapes_closed(left)
    &&& escapes_closed(right)
    &&& if right.len() == 0 {
        visible(left) <= inner
    } else {
        visible(left) + visible(right) + 1 <= inner
    }
}

proof fn lemma_aligned_push(t: Seq<Seq<char>>, inner: nat, line: Seq<char>)
    requires
        lines_aligned(t, inner),
        visible(line) == inner + 4,
        escapes_closed(line),
    ensures
        lines_aligned(t.push(line), inner),
{
    assert forall|i: int| 0 <= i < t.push(line).len() implies visible(#[trigger] t.push(line)[i])
        == inner + 4 && escapes_closed(t.push(line)[i]) by {
        if i < t.len() {
            assert(t.push(line)[i] == t[i]);
        }
    }
}

/// A row shows its content: whatever the content contains, the row does.
pub proof fn lemma_row_shows(border: Rgb, inner: nat, content: Seq<char>, n: Seq<char>)
    requires
        contains(content, n),
    ensures
        contains(row_text(border, inner, content), n),
{
    let b = fg_text("│"@, border);
    let pad = if visible(content) <= inner {
        (inner - visible(content)) as nat
    } else {
        0
    };
    lemma_contains_concat(b + " "@, content, spaces(pad) + " "@ + b, n);
    assert(b + " "@ + content + (spaces(pad) + " "@ + b) =~= row_text(border, inner, content));
}

/// A split row shows both of its sides.
pub proof fn lemma_split_shows(border: Rgb, inner: nat, left: Seq<char>, right: Seq<char>, n: Seq<char>)
    requires
        contains(left, n) || contains(right, n),
    ensures
        contains(split_text(border, inner, left, right), n),
{
    if right.len() == 0 {
        if !contains(left, n) {
            let i = choose|i: int| #[trigger] occurs_at(right, n, i);
            assert(n.len() == 0);
            assert(left.subrange(0, 0) =~= n);
            assert(occurs_at(left, n, 0));
        }
        lemma_row_shows(border, inner, left, n);
    } else {
        let used = visible(left) + visible(right);
        let gap = if used + 1 <= inner {
            (inner - used) as nat
        } else {
            1
        };
        if contains(left, n) {
            lemma_contains_concat(Seq::empty(), left, spaces(gap) + right, n);
            assert(Seq::<char>::empty() + left + (spaces(gap) + right) =~= split_content(inner, left, right));
        } else {
            lemma_contains_concat(left + spaces(gap), right, Seq::empty(), n);
            assert(left + spaces(gap) + right + Seq::<char>::empty() =~= split_content(inner, left, right));
        }
        lemma_row_shows(border, inner, split_content(inner, left, right), n);
    }
}

pub struct Frame {
    accent: Rgb,
    border: Rgb,
    inner: usize,
    lines: Vec<String>,
}

impl Frame {
    /// The accent the dividers fade from.
    pub closed spec fn accent_color(&self) -> Rgb {
        self.accent
    }

    /// The colour of the border: the accent at 55%.
    pub closed spec fn border_color(&self) -> Rgb {
        self.border
    }

    /// Text width between the borders.
    pub closed spec fn inner_spec(&self) -> nat {
        self.inner as nat
    }

    /// The lines drawn so far.
    pub closed spec fn text(&self) -> Seq<Seq<char>> {
        strs(self.lines@)
    }

    /// The lines drawn so far.
    pub fn lines(&self) -> (r: &Vec<String>)
        ensures
            strs(r@) == self.text(),
    {
        &self.lines
    }

    /// Everything but the lines is unchanged from `other`.
    pub open spec fn same_box(&self, other: &Frame) -> bool {
        &&& self.accent_color() == other.accent_color()
        &&& self.border_color() == other.border_color()
        &&& self.inner_spec() == other.inner_spec()
    }

    /// `inner` is the text width between the borders (padding excluded).
    pub fn new(inner: usize, accent: Rgb) -> (f: Self)
        ensures
            f.accent_color() == accent,
            f.border_color() == shaded(accent, 55),
            f.inner_spec() == inner,
            f.text().len() == 0,
            lines_aligned(f.text(), f.inner_spec()),
    {
        Self { accent, border: shade(accent, 55), inner, lines: Vec::new() }

    }

    /// Text width between the borders.
    pub fn inner(&self) -> (r: usize)
        ensures
            r == self.inner_spec(),
    {
        self.inner
    }

    pub fn top(&mut self)
        requires
            old(self).inner_spec() + 2 <= usize::MAX,
        ensures
            final(self).same_box(old(self)),
            final(self).text() == old(self).text().push(top_text(old(self).border_color(), old(self).inner_spec())),
            lines_aligned(old(self).text(), old(self).inner_spec()) ==> lines_aligned(
                final(self).text(),
                final(self).inner_spec(),
            ),
    {
        let mut s = String::from_str("╭");
        s.append(repeat_str("─", self.inner + 2).as_str());
        s.append("╮");
        let line = fg(s.as_str(), self.border);
        let ghost before = self.lines@.map_values(|l: String| l@);
        self.lines.push(line);
        assert(self.lines@.map_values(|l: String| l@) =~= before.push(line@));
        proof {
            lemma_edge_width(self.accent, self.border, self.inner as nat);
            if lines_aligned(old(self).text(), old(self).inner_spec()) {
                lemma_aligned_push(old(self).text(), self.inner as nat, top_text(self.border, self.inner as nat));
            }
        }
    }

    pub fn bottom(&mut self)
        requires
            old(self).inner_spec() + 2 <= usize::MAX,
        ensures
            final(self).same_box(old(self)),
            final(self).text() == old(self).text().push(bottom_text(old(self).border_color(), old(self).inner_spec())),
            lines_aligned(old(self).text(), old(self).inner_spec()) ==> lines_aligned(
                final(self).text(),
                final(self).inner_spec(),
            ),
    {
        let mut s = String::from_str("╰");
        s.append(repeat_str("─", self.inner + 2).as_str());
        s.append("╯");
        let line = fg(s.as_str(), self.border);
        let ghost before = self.lines@.map_values(|l: String| l@);
        self.lines.push(line);
        assert(self.lines@.map_values(|l: String| l@) =~= before.push(line@));
        proof {
            lemma_edge_width(self.accent, self.border, self.inner as nat);
            if lines_aligned(old(self).text(), old(self).inner_spec()) {
                lemma_aligned_push(old(self).text(), self.inner as nat, bottom_text(self.border, self.inner as nat));
            }
        }
    }

    /// Divider fading from the accent colour (left) to the border colour (right).
    pub fn rule(&mut self)
        requires
            old(self).inner_spec() + 2 <= usize::MAX,
        ensures
            final(self).same_box(old(self)),
            final(self).text() == old(self).text().push(
                rule_text(old(self).accent_color(), old(self).border_color(), old(self).inner_spec()),
            ),
            lines_aligned(old(self).text(), old(self).inner_spec()) ==> lines_aligned(
                final(self).text(),
                final(self).inner_spec(),
            ),
    {
        let mut s = fg("├", self.border);
        let n = self.inner + 2;
        let ghost start = s@;
        let mut i: usize = 0;
        while i < n
            invariant
                i <= n,
                n == self.inner + 2,
                n <= usize::MAX,
                s@ == start + rule_cells(self.accent, self.border, n as nat, i as nat),
            decreases n - i,
        {
            let c = lerp(self.accent, self.border, i as u64, (n - 1) as u64);
            s.append(fg("─", c).as_str());
            i = i + 1;
            assert(s@ =~= start + rule_cells(self.accent, self.border, n as nat, i as nat));
        }
        s.append(fg("┤", self.border).as_str());
        let ghost before = self.lines@.map_values(|l: String| l@);
        assert(s@ =~= rule_text(self.accent, self.border, self.inner as nat));
        self.lines.push(s);
        assert(self.lines@.map_values(|l: String| l@) =~= before.push(
            rule_text(self.accent, self.border, self.inner as nat),
        ));
        proof {
            lemma_edge_width(self.accent, self.border, self.inner as nat);
            if lines_aligned(old(self).text(), old(self).inner_spec()) {
                lemma_aligned_push(old(self).text(), self.inner as nat, rule_text(self.accent, self.border, self.inner as nat));
            }
        }
    }

    pub fn blank(&mut self)
        ensures
            final(self).same_box(old(self)),
            final(self).text() == old(self).text().push(row_text(old(self).border_color(), old(self).inner_spec(), Seq::empty())),
            lines_aligned(old(self).text(), old(self).inner_spec()) ==> lines_aligned(
                final(self).text(),
                final(self).inner_spec(),
            ),
    {
        proof {
            reveal_strlit("");
            assert(""@ =~= Seq::<char>::empty());
        }
        self.row("");
        proof {
            assert(escapes_closed(Seq::<char>::empty()));
            lemma_row_width(self.border, self.inner as nat, Seq::<char>::empty());
            if lines_aligned(old(self).text(), old(self).inner_spec()) {
                lemma_aligned_push(old(self).text(), self.inner as nat, row_text(self.border, self.inner as nat, Seq::<char>::empty()));
            }
        }
    }

    pub fn row(&mut self, content: &str)
        ensures
            final(self).same_box(old(self)),
            final(self).text() == old(self).text().push(row_text(old(self).border_color(), old(self).inner_spec(), content@)),
            lines_aligned(old(self).text(), old(self).inner_spec()) && escapes_closed(content@)
                && visible(content@) <= old(self).inner_spec() ==> lines_aligned(
                final(self).text(),
                final(self).inner_spec(),
            ),
    {
        let w = vis_width(content);
        let pad = self.inner.saturating_sub(w);
        let b = fg("│", self.border);
        let mut s = String::new();
        s.append(b.as_str());
        s.append(" ");
        s.append(content);
        push_char_n(&mut s, ' ', pad);
        s.append(" ");
        s.append(b.as_str());
        let ghost before = self.lines@.map_values(|l: String| l@);
        assert(s@ =~= row_text(self.border, self.inner as nat, content@));
        self.lines.push(s);
        assert(self.lines@.map_values(|l: String| l@) =~= before.push(
            row_text(self.border, self.inner as nat, content@),
        ));
        proof {
            if lines_aligned(old(self).text(), old(self).inner_spec()) && escapes_closed(content@)
                && visible(content@) <= self.inner {
                lemma_row_width(self.border, self.inner as nat, content@);
                lemma_aligned_push(old(self).text(), self.inner as nat, row_text(self.border, self.inner as nat, content@));
            }
        }
    }

    pub fn split(&mut self, left: &str, right: &str)
        ensures
            final(self).same_box(old(self)),
            final(self).text() == old(self).text().push(split_text(old(self).border_color(), old(self).inner_spec(), left@, right@)),
            lines_aligned(old(self).text(), old(self).inner_spec()) && split_fits(
                old(self).inner_spec(),
                left@,
                right@,
            ) ==> lines_aligned(final(self).text(), final(self).inner_spec()),
    {
        if right.is_empty() {
            return self.row(left);
        }
        let used = vis_width(left).saturating_add(vis_width(right));
        let mut gap = self.inner.saturating_sub(used);
        if gap < 1 {
            gap = 1;
        }
        let mut s = String::from_str(left);
        push_char_n(&mut s, ' ', gap);
        s.append(right);
        assert(s@ =~= split_content(self.inner as nat, left@, right@));
        proof {
            if split_fits(self.inner as nat, left@, right@) {
                lemma_split_content_width(self.inner as nat, left@, right@);
            }
        }
        self.row(s.as_str());
    }
}

/// The two columns side by side: the shorter one centred against the
/// taller (rounding up), blank padding where a column has run out.
pub open spec fn beside_lines(left: Seq<Seq<char>>, right: Seq<Seq<char>>, gutter: nat) -> Seq<
    Seq<char>,
> {
    if left.len() == 0 {
        right
    } else {
        let rows = if left.len() >= right.len() {
            left.len()
        } else {
            right.len()
        };
        let loff = (rows - left.len()) as nat / 2;
        let roff = (rows - right.len()) as nat / 2;
        let blank = spaces(visible(left[0]));
        Seq::new(
            rows,
            |i: int|
                (if loff <= i < loff + left.len() {
                    left[i - loff]
                } else {
                    blank
                }) + spaces(gutter) + (if roff <= i < roff + right.len() {
                    right[i - roff]
                } else {
                    Seq::empty()
                }),
        )
    }
}

/// Beside a column of lines all `visible(left[0])` wide, the other column
/// lines up: there are as many rows as the taller column has, and line
/// `j` of `right` is in row `j + (rows - right.len()) / 2`, after a left
/// part exactly that wide and the gutter.
pub proof fn lemma_beside_law(left: Seq<Seq<char>>, right: Seq<Seq<char>>, gutter: nat)
    requires
        left.len() > 0,
        forall|k: int| 0 <= k < left.len() ==> visible(#[trigger] left[k]) == visible(left[0]),
    ensures
        beside_lines(left, right, gutter).len() == if left.len() >= right.len() {
            left.len()
        } else {
            right.len()
        },
        forall|j: int|
            #![trigger right[j]]
            0 <= j < right.len() ==> {
                let rows = beside_lines(left, right, gutter).len();
                let line = beside_lines(left, right, gutter)[j + (rows - right.len()) / 2];
                let x = line.subrange(0, line.len() - gutter - right[j].len());
                &&& line == x + spaces(gutter) + right[j]
                &&& visible(x) == visible(left[0])
            },
{
    let rows = if left.len() >= right.len() {
        left.len()
    } else {
        right.len()
    };
    let loff = (rows - left.len()) as nat / 2;
    let roff = (rows - right.len()) as nat / 2;
    let blank = spaces(visible(left[0]));
    lemma_spaces_width(visible(left[0]));
    crate::text::lemma_repeat_one_len(' ', gutter);
    assert forall|j: int|
        #![trigger right[j]]
        0 <= j < right.len() implies {
        let line = beside_lines(left, right, gutter)[j + (rows - right.len()) / 2];
        let x = line.subrange(0, line.len() - gutter - right[j].len());
        &&& line == x + spaces(gutter) + right[j]
        &&& visible(x) == visible(left[0])
    } by {
        let i = j + roff;
        let line = beside_lines(left, right, gutter)[i];
        let x0 = if loff <= i < loff + left.len() {
            left[i - loff]
        } else {
            blank
        };
        assert(line == x0 + spaces(gutter) + right[j]);
        assert(line.subrange(0, line.len() - gutter - right[j].len()) =~= x0);
    }
}

/// Lay `left` and `right` out as two columns separated by `gutter` spaces,
/// centring the shorter column against the taller. Rows where one column
/// has run out are padded so the other still lines up.
pub fn beside(left: &[String], right: &[String], gutter: usize) -> (r: Vec<String>)
    ensures
        strs(r@) == beside_lines(strs(left@), strs(right@), gutter as nat),
{
    let mut out: Vec<String> = Vec::new();
    if left.len() == 0 {
        let mut i: usize = 0;
        while i < right.len()
            invariant
                i <= right.len(),
                strs(out@) == strs(right@).subrange(0, i as int),
            decreases right.len() - i,
        {
            let ghost before = strs(out@);
            out.push(right[i].clone());
            assert(strs(out@) =~= before.push(right@[i as int]@));
            i = i + 1;
            assert(strs(out@) =~= strs(right@).subrange(0, i as int));
        }
        assert(strs(right@).subrange(0, right@.len() as int) =~= strs(right@));
        return out;
    }
    let left_blank = spaces_string(vis_width(left[0].as_str()));
    let gap = spaces_string(gutter);
    let rows = if left.len() >= right.len() {
        left.len()
    } else {
        right.len()
    };
    let loff = (rows - left.len()) / 2;
    let roff = (rows - right.len()) / 2;
    let ghost want = beside_lines(strs(left@), strs(right@), gutter as nat);
    let mut i: usize = 0;
    while i < rows
        invariant
            i <= rows,
            left@.len() > 0,
            rows == (if left@.len() >= right@.len() {
                left@.len()
            } else {
                right@.len()
            }),
            loff == (rows - left@.len()) as nat / 2,
            roff == (rows - right@.len()) as nat / 2,
            left_blank@ == spaces(visible(left@[0]@)),
            gap@ == spaces(gutter as nat),
            want == beside_lines(strs(left@), strs(right@), gutter as nat),
            strs(out@) == want.subrange(0, i as int),
        decreases rows - i,
    {
        let mut s = String::new();
        if i >= loff && i - loff < left.len() {
            s.append(left[i - loff].as_str());
        } else {
            s.append(left_blank.as_str());
        }
        s.append(gap.as_str());
        if i >= roff && i - roff < right.len() {
            s.append(right[i - roff].as_str());
        }
        assert(s@ =~= want[i as int]);
        let ghost before = strs(out@);
        out.push(s);
        assert(strs(out@) =~= before.push(want[i as int]));
        i = i + 1;
        assert(strs(out@) =~= want.subrange(0, i as int));
    }
    assert(want.subrange(0, rows as int) =~= want);
    out
}

} // verus!
