//! A pixel canvas with plain-text PPM serialization.
//!
//! The canvas is a width-by-height grid of colors, row-major with the
//! origin at the top left, initialized to black. Serialization follows the
//! plain PPM format: the header `P3`, the dimensions, the maximum channel
//! value 255, then one text line per canvas row of space-separated channel
//! values, each rounded and clamped to `0..=255`, wrapped before a line
//! would exceed 70 characters so that no pixel's triplet is split.

use vstd::prelude::*;

verus! {

use vstd::arithmetic::div_mod::{
    lemma_basic_div,
    lemma_div_pos_is_pos,
    lemma_div_is_ordered,
};
use vstd::string::StringExecFns;
use crate::rational::{Rat, Scalar, rat_wf, rat_int, lemma_wide_products};
use crate::color::{Color, ColorV};

/// Mathematical model of a canvas.
pub ghost struct CanvasV {
    pub width: int,
    pub height: int,
    pub pixels: Seq<Seq<ColorV>>,
}

/// The grid really is height rows of width pixels.
pub open spec fn canvas_wf(c: CanvasV) -> bool {
    &&& 0 <= c.width
    &&& 0 <= c.height
    &&& c.pixels.len() == c.height
    &&& forall|i: int| 0 <= i < c.pixels.len() ==> (#[trigger] c.pixels[i]).len() == c.width
}

/// Black: all three channels zero.
pub open spec fn color_black() -> ColorV {
    ColorV { red: rat_int(0), green: rat_int(0), blue: rat_int(0) }
}

/// A channel serialized as a byte: `round(channel * 255)`, half away from
/// zero, clamped to `0..=255`.
pub open spec fn channel_level(q: Rat) -> int
    recommends
        rat_wf(q),
{
    let p = 255 * q.n;
    let v = if p >= 0 {
        (2 * p + q.d) / (2 * q.d)
    } else {
        -(((-(2 * p)) + q.d) / (2 * q.d))
    };
    if v < 0 {
        0
    } else if v > 255 {
        255
    } else {
        v
    }
}

/// The decimal digit for a value below ten.
pub open spec fn digit_char(d: int) -> char {
    if d == 0 {
        '0'
    } else if d == 1 {
        '1'
    } else if d == 2 {
        '2'
    } else if d == 3 {
        '3'
    } else if d == 4 {
        '4'
    } else if d == 5 {
        '5'
    } else if d == 6 {
        '6'
    } else if d == 7 {
        '7'
    } else if d == 8 {
        '8'
    } else {
        '9'
    }
}

/// The decimal digits of a nonnegative integer, most significant first.
pub open spec fn dec_digits(n: int) -> Seq<char>
    recommends
        0 <= n,
    decreases n,
{
    if n < 10 {
        seq![digit_char(n)]
    } else {
        dec_digits(n / 10).push(digit_char(n % 10))
    }
}

/// One pixel's text: three channel values, each followed by one space.
pub open spec fn triplet(c: ColorV) -> Seq<char> {
    dec_digits(channel_level(c.red)) + seq![' '] + dec_digits(channel_level(c.green)) + seq![' ']
        + dec_digits(channel_level(c.blue)) + seq![' ']
}

/// The text of one canvas row from pixel `i` on, with `ll` characters
/// already on the current output line: a line break comes first whenever
/// appending the next triplet would push the line past 70 characters, and
/// the row ends with a line break.
pub open spec fn row_chars(row: Seq<ColorV>, i: int, ll: int) -> Seq<char>
    decreases row.len() - i,
{
    if i < 0 || i >= row.len() {
        seq!['\n']
    } else {
        let t = triplet(row[i]);
        if ll + t.len() > 70 {
            seq!['\n'] + t + row_chars(row, i + 1, t.len() as int)
        } else {
            t + row_chars(row, i + 1, ll + t.len())
        }
    }
}

/// The text of all canvas rows from row `r` on.
pub open spec fn rows_chars(pixels: Seq<Seq<ColorV>>, r: int) -> Seq<char>
    decreases pixels.len() - r,
{
    if r < 0 || r >= pixels.len() {
        Seq::empty()
    } else {
        row_chars(pixels[r], 0, 0) + rows_chars(pixels, r + 1)
    }
}

/// The PPM header: `P3`, the dimensions, and the maximum channel value.
pub open spec fn header_chars(w: int, h: int) -> Seq<char> {
    seq!['P', '3', '\n'] + dec_digits(w) + seq![' '] + dec_digits(h) + seq!['\n', '2', '5', '5', '\n']
}

/// The complete PPM text of a canvas.
pub open spec fn ppm_chars(c: CanvasV) -> Seq<char> {
    header_chars(c.width, c.height) + rows_chars(c.pixels, 0)
}

/// A width-by-height grid of colors, row-major, origin top left.
#[derive(Debug)]
pub struct Canvas {
    pub width: usize,
    pub height: usize,
    pub pixels: Vec<Vec<Color>>,
}

impl View for Canvas {
    type V = CanvasV;

    open spec fn view(&self) -> CanvasV {
        CanvasV {
            width: self.width as int,
            height: self.height as int,
            pixels: self.pixels.deep_view(),
        }
    }
}

impl Canvas {
    /// A canvas of the given size with every pixel black.
    pub fn new(width: usize, height: usize) -> (r: Canvas)
        ensures
            canvas_wf(r@),
            r@.width == width as int,
            r@.height == height as int,
            forall|i: int, j: int|
                0 <= i < height as int && 0 <= j < width as int ==> (#[trigger] r@.pixels[i][j])
                    == color_black(),
    {
        let zero = Scalar::from_int(0);
        let black = Color::new(zero, zero, zero);
        let mut pixels: Vec<Vec<Color>> = Vec::new();
        let mut i: usize = 0;
        while i < height
            invariant
                0 <= i <= height,
                black@ == color_black(),
                pixels@.len() == i as int,
                forall|p: int|
                    0 <= p < i as int ==> (#[trigger] pixels.deep_view()[p]).len() == width as int,
                forall|p: int, q: int|
                    0 <= p < i as int && 0 <= q < width as int ==> (#[trigger] pixels.deep_view()[p][q])
                        == color_black(),
            decreases height - i,
        {
            let mut row: Vec<Color> = Vec::new();
            let mut j: usize = 0;
            while j < width
                invariant
                    0 <= j <= width,
                    black@ == color_black(),
                    row@.len() == j as int,
                    forall|q: int|
                        0 <= q < j as int ==> (#[trigger] row.deep_view()[q]) == color_black(),
                decreases width - j,
            {
                let ghost pre = row;
                row.push(black);
                proof {
                    crate::rational::lemma_push_deep(pre, row, black);
                }
                j += 1;
            }
            let ghost pre_rows = pixels;
            pixels.push(row);
            proof {
                crate::rational::lemma_push_deep(pre_rows, pixels, row);
            }
            i += 1;
        }
        Canvas { width, height, pixels }
    }

    /// Stores `color` at `(x, y)`; writes outside the grid are ignored.
    pub fn write_pixel(&mut self, x: usize, y: usize, color: Color)
        requires
            canvas_wf(old(self)@),
        ensures
            canvas_wf(final(self)@),
            final(self)@.width == old(self)@.width,
            final(self)@.height == old(self)@.height,
            x < old(self).width && y < old(self).height ==> final(self)@.pixels == old(
                self,
            )@.pixels.update(y as int, old(self)@.pixels[y as int].update(x as int, color@)),
            !(x < old(self).width && y < old(self).height) ==> final(self)@ == old(self)@,
    {
        if x >= self.width || y >= self.height {
            return ;
        }
        proof {
            assert(self@.pixels[y as int].len() == self.pixels@[y as int]@.len());
        }
        self.pixels[y][x] = color;
        proof {
            assert(final(self)@.pixels =~~= old(self)@.pixels.update(
                y as int,
                old(self)@.pixels[y as int].update(x as int, color@),
            ));
        }
    }

    /// The color stored at `(x, y)`; only in-range reads are supported.
    pub fn pixel_at(&self, x: usize, y: usize) -> (r: Color)
        requires
            canvas_wf(self@),
            x < self@.width,
            y < self@.height,
        ensures
            r@ == self@.pixels[y as int][x as int],
    {
        proof {
            assert(self@.pixels[y as int].len() == self.pixels@[y as int]@.len());
            assert(self@.pixels[y as int][x as int] == self.pixels@[y as int]@[x as int]@);
        }
        self.pixels[y][x]
    }

    /// The canvas serialized as plain PPM text.
    pub fn canvas_to_ppm(&self) -> (r: String)
        requires
            canvas_wf(self@),
        ensures
            r@ == ppm_chars(self@),
    {
        let ghost c = self@;
        let mut s = String::new();
        s.append("P3\n");
        push_u64(&mut s, self.width as u64);
        s.append(" ");
        push_u64(&mut s, self.height as u64);
        s.append("\n255\n");
        proof {
            reveal_strlit("P3\n");
            reveal_strlit(" ");
            reveal_strlit("\n255\n");
            assert(s@ =~= header_chars(c.width, c.height));
        }
        let mut y: usize = 0;
        while y < self.pixels.len()
            invariant
                0 <= y <= self.pixels.len(),
                c == self@,
                canvas_wf(c),
                c.pixels.len() == self.pixels@.len(),
                s@ + rows_chars(c.pixels, y as int) == ppm_chars(c),
            decreases self.pixels.len() - y,
        {
            proof {
                assert(c.pixels[y as int].len() == self.pixels@[y as int]@.len());
            }
            let row = &self.pixels[y];
            let ghost rv = c.pixels[y as int];
            let mut ll: usize = 0;
            let mut x: usize = 0;
            proof {
                assert(s@ + (row_chars(rv, 0, 0) + rows_chars(c.pixels, y as int + 1)) =~= (s@
                    + row_chars(rv, 0, 0)) + rows_chars(c.pixels, y as int + 1));
            }
            while x < row.len()
                invariant
                    0 <= x <= row.len(),
                    0 <= y < self.pixels@.len(),
                    c == self@,
                    canvas_wf(c),
                    c.pixels.len() == self.pixels@.len(),
                    row == self.pixels@[y as int],
                    rv == c.pixels[y as int],
                    rv.len() == row@.len(),
                    ll <= 70,
                    (s@ + row_chars(rv, x as int, ll as int)) + rows_chars(c.pixels, y as int + 1)
                        == ppm_chars(c),
                decreases row.len() - x,
            {
                proof {
                    assert(rv[x as int] == row@[x as int]@);
                }
                let ghost t = triplet(rv[x as int]);
                let tlen = triplet_len(&row[x]);
                if ll + tlen > 70 {
                    s.append("\n");
                    proof {
                        reveal_strlit("\n");
                        assert(row_chars(rv, x as int, ll as int) == seq!['\n'] + t + row_chars(
                            rv,
                            x as int + 1,
                            t.len() as int,
                        ));
                    }
                    let written = push_triplet(&mut s, &row[x]);
                    ll = written;
                    proof {
                        assert((s@ + row_chars(rv, x as int + 1, ll as int)) + rows_chars(
                            c.pixels,
                            y as int + 1,
                        ) =~= ppm_chars(c));
                    }
                } else {
                    proof {
                        assert(row_chars(rv, x as int, ll as int) == t + row_chars(
                            rv,
                            x as int + 1,
                            ll as int + t.len(),
                        ));
                    }
                    let written = push_triplet(&mut s, &row[x]);
                    ll = ll + written;
                    proof {
                        assert((s@ + row_chars(rv, x as int + 1, ll as int)) + rows_chars(
                            c.pixels,
                            y as int + 1,
                        ) =~= ppm_chars(c));
                    }
                }
                x += 1;
            }
            s.append("\n");
            proof {
                reveal_strlit("\n");
                assert(row_chars(rv, x as int, ll as int) == seq!['\n']);
                assert(s@ + rows_chars(c.pixels, y as int + 1) =~= ppm_chars(c));
            }
            y += 1;
        }
        proof {
            assert(rows_chars(c.pixels, y as int) =~= Seq::<char>::empty());
            assert(s@ =~= ppm_chars(c));
        }
        s
    }
}

/// Every line of `s` fits within `bound` characters, given `cur`
/// characters already on the line under construction. A line ends at a
/// line break or at the end of the text.
pub open spec fn lines_bounded(s: Seq<char>, cur: int, bound: int) -> bool
    decreases s.len(),
{
    if s.len() == 0 {
        cur <= bound
    } else if s[0] == '\n' {
        cur <= bound && lines_bounded(s.skip(1), 0, bound)
    } else {
        lines_bounded(s.skip(1), cur + 1, bound)
    }
}

/// A serialized channel lies in the byte range.
proof fn lemma_channel_level_bounds(q: Rat)
    ensures
        0 <= channel_level(q) <= 255,
{
}

/// Digit text contains no line break.
proof fn lemma_dec_digits_flat(n: int)
    requires
        0 <= n,
    ensures
        forall|i: int| 0 <= i < dec_digits(n).len() ==> dec_digits(n)[i] != '\n',
    decreases n,
{
    if n < 10 {
        assert(dec_digits(n) == seq![digit_char(n)]);
        assert(digit_char(n) != '\n');
    } else {
        lemma_dec_digits_flat(n / 10);
        let pre = dec_digits(n / 10);
        assert(dec_digits(n) == pre.push(digit_char(n % 10)));
        assert(digit_char(n % 10) != '\n');
        assert forall|i: int| 0 <= i < dec_digits(n).len() implies dec_digits(n)[i] != '\n' by {
            if i < pre.len() {
                assert(dec_digits(n)[i] == pre[i]);
            } else {
                assert(dec_digits(n)[i] == digit_char(n % 10));
            }
        }
    }
}

/// A pixel's triplet is never split by a wrap: it contains no line break,
/// and it is between four and twelve characters long.
pub proof fn lemma_triplet_flat(c: ColorV)
    ensures
        forall|i: int| 0 <= i < triplet(c).len() ==> triplet(c)[i] != '\n',
        4 <= triplet(c).len() <= 12,
{
    lemma_channel_level_bounds(c.red);
    lemma_channel_level_bounds(c.green);
    lemma_channel_level_bounds(c.blue);
    lemma_dec_digits_flat(channel_level(c.red));
    lemma_dec_digits_flat(channel_level(c.green));
    lemma_dec_digits_flat(channel_level(c.blue));
    lemma_dec_len(channel_level(c.red));
    lemma_dec_len(channel_level(c.green));
    lemma_dec_len(channel_level(c.blue));
}

/// Text without line breaks only advances the line under construction.
proof fn lemma_lines_bounded_flat(s1: Seq<char>, s2: Seq<char>, cur: int, bound: int)
    requires
        forall|i: int| 0 <= i < s1.len() ==> s1[i] != '\n',
    ensures
        lines_bounded(s1 + s2, cur, bound) == lines_bounded(s2, cur + s1.len(), bound),
    decreases s1.len(),
{
    if s1.len() == 0 {
        assert(s1 + s2 =~= s2);
    } else {
        assert((s1 + s2)[0] == s1[0]);
        assert((s1 + s2).skip(1) =~= s1.skip(1) + s2);
        assert(forall|i: int| 0 <= i < s1.skip(1).len() ==> s1.skip(1)[i] != '\n');
        lemma_lines_bounded_flat(s1.skip(1), s2, cur + 1, bound);
    }
}

/// Bounded text that ends with a line break stays bounded when followed
/// by bounded text.
proof fn lemma_lines_bounded_concat(s1: Seq<char>, s2: Seq<char>, cur: int, bound: int)
    requires
        s1.len() > 0,
        s1[s1.len() - 1] == '\n',
        lines_bounded(s1, cur, bound),
        lines_bounded(s2, 0, bound),
    ensures
        lines_bounded(s1 + s2, cur, bound),
    decreases s1.len(),
{
    if s1.len() == 1 {
        assert((s1 + s2)[0] == '\n');
        assert((s1 + s2).skip(1) =~= s2);
    } else {
        assert((s1 + s2)[0] == s1[0]);
        assert((s1 + s2).skip(1) =~= s1.skip(1) + s2);
        assert(s1.skip(1)[s1.skip(1).len() - 1] == '\n');
        if s1[0] == '\n' {
            lemma_lines_bounded_concat(s1.skip(1), s2, 0, bound);
        } else {
            lemma_lines_bounded_concat(s1.skip(1), s2, cur + 1, bound);
        }
    }
}

/// A serialized row always ends with a line break.
proof fn lemma_row_chars_ends_newline(row: Seq<ColorV>, i: int, ll: int)
    ensures
        row_chars(row, i, ll).len() > 0,
        row_chars(row, i, ll)[row_chars(row, i, ll).len() - 1] == '\n',
    decreases row.len() - i,
{
    if i < 0 || i >= row.len() {
    } else {
        let t = triplet(row[i]);
        if ll + t.len() > 70 {
            lemma_row_chars_ends_newline(row, i + 1, t.len() as int);
        } else {
            lemma_row_chars_ends_newline(row, i + 1, ll + t.len());
        }
    }
}

/// The text of one serialized row keeps every line within 70 characters,
/// given at most 70 characters already on the current line.
proof fn lemma_row_chars_bounded(row: Seq<ColorV>, i: int, ll: int)
    requires
        0 <= ll <= 70,
    ensures
        lines_bounded(row_chars(row, i, ll), ll, 70),
    decreases row.len() - i,
{
    if i < 0 || i >= row.len() {
        assert(row_chars(row, i, ll) == seq!['\n']);
        assert(seq!['\n'].skip(1) =~= Seq::<char>::empty());
        assert(lines_bounded(Seq::<char>::empty(), 0, 70));
        assert(seq!['\n'][0] == '\n');
        assert(lines_bounded(seq!['\n'], ll, 70));
    } else {
        let t = triplet(row[i]);
        lemma_triplet_flat(row[i]);
        if ll + t.len() > 70 {
            let rest = row_chars(row, i + 1, t.len() as int);
            assert(row_chars(row, i, ll) == seq!['\n'] + t + rest);
            lemma_row_chars_bounded(row, i + 1, t.len() as int);
            lemma_lines_bounded_flat(t, rest, 0, 70);
            let s = seq!['\n'] + t + rest;
            assert(s.len() > 0 && s[0] == '\n');
            assert(s.skip(1) =~= t + rest);
            assert(lines_bounded(t + rest, 0, 70));
            assert(lines_bounded(s.skip(1), 0, 70));
            assert(lines_bounded(s, ll, 70));
        } else {
            let rest = row_chars(row, i + 1, ll + t.len());
            assert(row_chars(row, i, ll) == t + rest);
            lemma_row_chars_bounded(row, i + 1, ll + t.len());
            lemma_lines_bounded_flat(t, rest, ll, 70);
            assert(lines_bounded(rest, ll + t.len(), 70));
            assert(lines_bounded(t + rest, ll, 70));
        }
    }
}

/// The serialized pixel rows never produce an output line longer than 70
/// characters: a line break comes before any triplet that would pass the
/// limit, and triplets themselves contain no break.
pub proof fn lemma_rows_chars_bounded(pixels: Seq<Seq<ColorV>>, r: int)
    ensures
        lines_bounded(rows_chars(pixels, r), 0, 70),
    decreases pixels.len() - r,
{
    if r < 0 || r >= pixels.len() {
    } else {
        lemma_row_chars_bounded(pixels[r], 0, 0);
        lemma_rows_chars_bounded(pixels, r + 1);
        lemma_row_chars_ends_newline(pixels[r], 0, 0);
        lemma_lines_bounded_concat(
            row_chars(pixels[r], 0, 0),
            rows_chars(pixels, r + 1),
            0,
            70,
        );
    }
}

/// Every serialized canvas opens with the plain-PPM magic line.
pub proof fn lemma_ppm_starts_with_magic(c: CanvasV)
    ensures
        ppm_chars(c).len() >= 3,
        ppm_chars(c).subrange(0, 3) == seq!['P', '3', '\n'],
{
    assert(ppm_chars(c).subrange(0, 3) =~= seq!['P', '3', '\n']);
}

/// The decimal digit below ten as a one-character string.
fn digit_str(d: u64) -> (r: &'static str)
    requires
        d < 10,
    ensures
        r@ == seq![digit_char(d as int)],
{
    proof {
        reveal_strlit("0");
        reveal_strlit("1");
        reveal_strlit("2");
        reveal_strlit("3");
        reveal_strlit("4");
        reveal_strlit("5");
        reveal_strlit("6");
        reveal_strlit("7");
        reveal_strlit("8");
        reveal_strlit("9");
    }
    let r = if d == 0 {
        "0"
    } else if d == 1 {
        "1"
    } else if d == 2 {
        "2"
    } else if d == 3 {
        "3"
    } else if d == 4 {
        "4"
    } else if d == 5 {
        "5"
    } else if d == 6 {
        "6"
    } else if d == 7 {
        "7"
    } else if d == 8 {
        "8"
    } else {
        "9"
    };
    proof {
        assert(r@ =~= seq![digit_char(d as int)]);
    }
    r
}

/// Appends the decimal digits of `n`.
fn push_u64(s: &mut String, n: u64)
    ensures
        final(s)@ == old(s)@ + dec_digits(n as int),
    decreases n,
{
    let ghost pre = s@;
    if n >= 10 {
        push_u64(s, n / 10);
    }
    let d = digit_str(n % 10);
    s.append(d);
    proof {
        if n < 10 {
            assert(s@ =~= pre + dec_digits(n as int));
        } else {
            assert(dec_digits(n as int) == dec_digits(n as int / 10).push(
                digit_char(n as int % 10),
            ));
            assert(s@ =~= pre + dec_digits(n as int));
        }
    }
}

/// How many decimal digits a byte value has.
proof fn lemma_dec_len(n: int)
    requires
        0 <= n < 1000,
    ensures
        n < 10 ==> dec_digits(n).len() == 1,
        10 <= n < 100 ==> dec_digits(n).len() == 2,
        100 <= n ==> dec_digits(n).len() == 3,
{
    if n < 10 {
    } else if n < 100 {
        lemma_div_is_ordered(10, n, 10);
        lemma_div_is_ordered(n, 99, 10);
        assert(dec_digits(n / 10).len() == 1);
    } else {
        lemma_div_is_ordered(100, n, 10);
        lemma_div_is_ordered(n, 999, 10);
        lemma_div_is_ordered(10, n / 10, 10);
        lemma_div_is_ordered(n / 10, 99, 10);
        assert(dec_digits(n / 10 / 10).len() == 1);
        assert(dec_digits(n / 10).len() == 2);
    }
}

/// The channel value as a byte: `round(channel * 255)` clamped to
/// `0..=255`.
fn channel_byte(c: &Scalar) -> (v: u8)
    ensures
        v as int == channel_level(c@),
{
    c.wf_facts();
    proof {
        lemma_wide_products(c@, c@);
    }
    let p: i128 = 255 * (c.num() as i128);
    let d: i128 = c.den() as i128;
    if p <= 0 {
        proof {
            if p == 0 {
                lemma_basic_div(d as int, 2 * (d as int));
            } else {
                lemma_div_pos_is_pos((-(2 * (p as int))) + d as int, 2 * (d as int));
            }
        }
        0
    } else {
        let q = (2 * p + d) / (2 * d);
        proof {
            lemma_div_pos_is_pos(2 * (p as int) + d as int, 2 * (d as int));
        }
        if q > 255 {
            255
        } else {
            q as u8
        }
    }
}

/// Appends one pixel's triplet and reports how many characters it added.
fn push_triplet(s: &mut String, c: &Color) -> (len: usize)
    ensures
        final(s)@ == old(s)@ + triplet(c@),
        len == triplet(c@).len(),
        4 <= len <= 12,
{
    let ghost pre = s@;
    let r = channel_byte(&c.red);
    let g = channel_byte(&c.green);
    let b = channel_byte(&c.blue);
    push_u64(s, r as u64);
    s.append(" ");
    push_u64(s, g as u64);
    s.append(" ");
    push_u64(s, b as u64);
    s.append(" ");
    proof {
        reveal_strlit(" ");
        assert(s@ =~= pre + triplet(c@));
        lemma_dec_len(r as int);
        lemma_dec_len(g as int);
        lemma_dec_len(b as int);
    }
    let lr = decimal_width(r);
    let lg = decimal_width(g);
    let lb = decimal_width(b);
    lr + lg + lb + 3
}

/// The length of one pixel's triplet text, without appending it.
fn triplet_len(c: &Color) -> (len: usize)
    ensures
        len == triplet(c@).len(),
        4 <= len <= 12,
{
    let r = channel_byte(&c.red);
    let g = channel_byte(&c.green);
    let b = channel_byte(&c.blue);
    proof {
        lemma_dec_len(r as int);
        lemma_dec_len(g as int);
        lemma_dec_len(b as int);
    }
    decimal_width(r) + decimal_width(g) + decimal_width(b) + 3
}

/// The width in characters of a byte value's decimal form.
fn decimal_width(v: u8) -> (w: usize)
    ensures
        w == dec_digits(v as int).len(),
        1 <= w <= 3,
{
    proof {
        lemma_dec_len(v as int);
    }
    if v >= 100 {
        3
    } else if v >= 10 {
        2
    } else {
        1
    }
}

} // verus!
