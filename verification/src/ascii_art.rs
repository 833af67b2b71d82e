//! Turning a prepared picture into terminal text: character ramps, and the
//! layouts of the ASCII, half-block, Braille and 24-bit colour renderings.
//!
//! The pictures arrive already sampled: brightness levels as ramp indices, or
//! on/off pixels, or RGB triples, each grid stored row by row.
use vstd::prelude::*;
use vstd::string::StrSliceExecFns;
use crate::decimal::nat_digits;

verus! {

/// The text of a grid of `rows` rows of `cols` characters: each row, then a newline.
pub open spec fn grid_text(cell: spec_fn(int, int) -> char, cols: nat, rows: nat) -> Seq<char>
    decreases rows,
{
    if rows == 0 {
        Seq::empty()
    } else {
        grid_text(cell, cols, (rows - 1) as nat) + Seq::new(cols, |x: int| cell(x, rows - 1))
            + seq!['\n']
    }
}

/// Lower-case of a string under Unicode's rules, as `str::to_lowercase` computes it.
pub uninterp spec fn unicode_lowercase(s: Seq<char>) -> Seq<char>;

/// ASCII lower case of one character; other characters stay as they are.
pub open spec fn ascii_lower_char(c: char) -> char {
    if 'A' <= c <= 'Z' {
        ((c as u32) + 32) as char
    } else {
        c
    }
}

/// ASCII lower case of a text.
pub open spec fn ascii_lower(s: Seq<char>) -> Seq<char> {
    s.map_values(|c: char| ascii_lower_char(c))
}

/// `str::to_lowercase`: the text in lower case. Its result is named, not spelled
/// out: Unicode's case tables are not restated here, except that on ASCII text it
/// maps `A`..`Z` to `a`..`z` and keeps every other character, as Unicode's lower-case
/// mapping does for ASCII.
#[verifier::external_body]
fn to_lowercase(s: &str) -> (r: String)
    ensures
        r@ == unicode_lowercase(s@),
        vstd::utf8::is_ascii_chars(s@) ==> r@ == ascii_lower(s@),
{
    s.to_lowercase()
}

/// The characters of a string, in order.
pub fn chars_of(s: &str) -> (v: Vec<char>)
    ensures
        v@ == s@,
{
    let n = s.unicode_len();
    let mut v: Vec<char> = Vec::new();
    let mut i: usize = 0;
    while i < n
        invariant
            i <= n,
            n == s@.len(),
            v@ == s@.subrange(0, i as int),
        decreases n - i,
    {
        v.push(s.get_char(i));
        i = i + 1;
        assert(v@ =~= s@.subrange(0, i as int));
    }
    assert(s@.subrange(0, n as int) =~= s@);
    v
}

pub open spec fn ramp_simple() -> Seq<char> {
    " .:-=+*#%@"@
}

pub open spec fn ramp_dense() -> Seq<char> {
    "$@B%8&WM#*oahkbdpqwmZO0QLCJUYXzcvunxrjft/\\|()1{}[]?-_+~<>i!lI;:,\"^`'. "@
}

pub open spec fn ramp_classic() -> Seq<char> {
    "@%#*+=-:. "@
}

/// The ramp (its characters in the order the preset lists them) for a lower-case
/// preset name: `simple`, `dense`, and `classic` for every other name.
pub open spec fn ramp_spec(lower: Seq<char>) -> Seq<char> {
    if lower == "simple"@ {
        ramp_simple()
    } else if lower == "dense"@ {
        ramp_dense()
    } else {
        ramp_classic()
    }
}

/// The ramp for a preset name already in lower case.
pub fn ramp_for(lower: &str) -> (r: Vec<char>)
    ensures
        r@ == ramp_spec(lower@),
{
    let name = lower.to_owned();
    if name == "simple".to_owned() {
        chars_of(" .:-=+*#%@")
    } else if name == "dense".to_owned() {
        chars_of("$@B%8&WM#*oahkbdpqwmZO0QLCJUYXzcvunxrjft/\\|()1{}[]?-_+~<>i!lI;:,\"^`'. ")
    } else {
        chars_of("@%#*+=-:. ")
    }
}

/// The ramp for a preset name, read without regard to case.
pub fn build_ramp(name: &str) -> (r: Vec<char>)
    ensures
        r@ == ramp_spec(unicode_lowercase(name@)),
        vstd::utf8::is_ascii_chars(name@) ==> r@ == ramp_spec(ascii_lower(name@)),
{
    let lower = to_lowercase(name);
    ramp_for(lower.as_str())
}

/// The ramp read from the other end (for light text on dark ground and back).
pub fn reverse_ramp(ramp: &Vec<char>) -> (r: Vec<char>)
    ensures
        r@ == ramp@.reverse(),
{
    let n = ramp.len();
    let mut r: Vec<char> = Vec::new();
    let mut i: usize = 0;
    while i < n
        invariant
            i <= n,
            n == ramp@.len(),
            r@ == ramp@.reverse().subrange(0, i as int),
        decreases n - i,
    {
        r.push(ramp[n - 1 - i]);
        i = i + 1;
        assert(r@ =~= ramp@.reverse().subrange(0, i as int));
    }
    assert(ramp@.reverse().subrange(0, n as int) =~= ramp@.reverse());
    r
}

/// The character of each cell of an ASCII rendering: the ramp entry of its level.
pub open spec fn ascii_cell(levels: Seq<usize>, ramp: Seq<char>, width: int) -> spec_fn(
    int,
    int,
) -> char {
    |x: int, y: int| ramp[levels[y * width + x] as int]
}

/// Lays out a picture of ramp indices, one character per pixel.
pub fn render_ascii(levels: &Vec<usize>, ramp: &Vec<char>, width: usize, height: usize) -> (out:
    String)
    requires
        levels@.len() == width * height,
        forall|i: int| 0 <= i < levels@.len() ==> #[trigger] levels@[i] < ramp@.len(),
    ensures
        out@ == grid_text(ascii_cell(levels@, ramp@, width as int), width as nat, height as nat),
{
    let ghost cell = ascii_cell(levels@, ramp@, width as int);
    let total = levels.len();
    let mut out = String::new();
    let mut y: usize = 0;
    let mut row_start: usize = 0;
    while y < height
        invariant
            y <= height,
            row_start == y * width,
            levels@.len() == width * height,
            total == levels@.len(),
            forall|i: int| 0 <= i < levels@.len() ==> #[trigger] levels@[i] < ramp@.len(),
            cell == ascii_cell(levels@, ramp@, width as int),
            out@ == grid_text(cell, width as nat, y as nat),
        decreases height - y,
    {
        assert(row_start + width <= width * height) by (nonlinear_arith)
            requires
                row_start == y * width,
                y < height,
        ;
        let mut x: usize = 0;
        while x < width
            invariant
                x <= width,
                y < height,
                row_start == y * width,
                row_start + width <= levels@.len(),
                total == levels@.len(),
                forall|i: int| 0 <= i < levels@.len() ==> #[trigger] levels@[i] < ramp@.len(),
                cell == ascii_cell(levels@, ramp@, width as int),
                out@ == grid_text(cell, width as nat, y as nat) + Seq::new(
                    x as nat,
                    |i: int| cell(i, y as int),
                ),
            decreases width - x,
        {
            let c = ramp[levels[row_start + x]];
            out.push(c);
            assert(out@ =~= grid_text(cell, width as nat, y as nat) + Seq::new(
                (x + 1) as nat,
                |i: int| cell(i, y as int),
            ));
            x = x + 1;
        }
        out.push('\n');
        assert(out@ =~= grid_text(cell, width as nat, (y + 1) as nat));
        y = y + 1;
        row_start = row_start + width;
        assert(row_start == y * width) by (nonlinear_arith)
            requires
                row_start == (y - 1) * width + width,
        ;
    }
    out
}

/// The half-block character for a top and a bottom pixel.
pub open spec fn block_char(top: bool, bottom: bool) -> char {
    if top && bottom {
        '█'
    } else if top {
        '▀'
    } else if bottom {
        '▄'
    } else {
        ' '
    }
}

/// The character of each cell of a half-block rendering: cell row `y` shows pixel
/// rows `2y` and `2y + 1`; the last row of an odd-height picture pairs with itself.
pub open spec fn block_cell(lit: Seq<bool>, width: int, height: int) -> spec_fn(int, int) -> char {
    |x: int, y: int|
        {
            let top = lit[2 * y * width + x];
            let bottom = if 2 * y + 1 < height {
                lit[(2 * y + 1) * width + x]
            } else {
                top
            };
            block_char(top, bottom)
        }
}

/// Lays out a picture of lit pixels two rows per line with half-block characters.
pub fn render_blocks(lit: &Vec<bool>, width: usize, height: usize) -> (out: String)
    requires
        lit@.len() == width * height,
    ensures
        out@ == grid_text(
            block_cell(lit@, width as int, height as int),
            width as nat,
            ((height + 1) / 2) as nat,
        ),
{
    let ghost cell = block_cell(lit@, width as int, height as int);
    let total = lit.len();
    let rows: usize = height / 2 + height % 2;
    assert(rows == (height + 1) / 2);
    let mut out = String::new();
    let mut r: usize = 0;
    while r < rows
        invariant
            r <= rows,
            rows == (height + 1) / 2,
            lit@.len() == width * height,
            total == lit@.len(),
            cell == block_cell(lit@, width as int, height as int),
            out@ == grid_text(cell, width as nat, r as nat),
        decreases rows - r,
    {
        let two_r: usize = 2 * r;
        assert(two_r * width + width <= width * height) by (nonlinear_arith)
            requires
                two_r == 2 * r,
                r < rows,
                rows == (height + 1) / 2,
        ;
        let top_start: usize = two_r * width;
        let has_bottom = two_r + 1 < height;
        if has_bottom {
            assert(top_start + 2 * width <= width * height) by (nonlinear_arith)
                requires
                    top_start == two_r * width,
                    two_r + 1 < height,
            ;
        }
        let mut x: usize = 0;
        while x < width
            invariant
                x <= width,
                r < rows,
                two_r == 2 * r,
                top_start == two_r * width,
                top_start + width <= lit@.len(),
                has_bottom == (two_r + 1 < height),
                has_bottom ==> top_start + 2 * width <= lit@.len(),
                lit@.len() == width * height,
                total == lit@.len(),
                cell == block_cell(lit@, width as int, height as int),
                out@ == grid_text(cell, width as nat, r as nat) + Seq::new(
                    x as nat,
                    |i: int| cell(i, r as int),
                ),
            decreases width - x,
        {
            let top = lit[top_start + x];
            let bottom = if has_bottom {
                lit[top_start + width + x]
            } else {
                top
            };
            let c = if top && bottom {
                '█'
            } else if top {
                '▀'
            } else if bottom {
                '▄'
            } else {
                ' '
            };
            assert((two_r + 1) * width + x == top_start + width + x) by (nonlinear_arith)
                requires
                    top_start == two_r * width,
            ;
            assert(2 * (r as int) * width == top_start);
            out.push(c);
            assert(out@ =~= grid_text(cell, width as nat, r as nat) + Seq::new(
                (x + 1) as nat,
                |i: int| cell(i, r as int),
            ));
            x = x + 1;
        }
        out.push('\n');
        assert(out@ =~= grid_text(cell, width as nat, (r + 1) as nat));
        r = r + 1;
    }
    out
}

/// Whether the pixel at `(x, y)` of a dithered Braille picture shows a dot. `set`
/// holds the pixels that dithering set to one; a dot shows where the pixel is not
/// set. (Which side of the threshold is set to one decides light on dark or dark on
/// light.)
pub open spec fn dot_on(set: Seq<bool>, width: int, x: int, y: int) -> bool {
    !set[y * width + x]
}

/// `w` if `b` holds, else nothing.
pub open spec fn bit(b: bool, w: nat) -> nat {
    if b {
        w
    } else {
        0
    }
}

/// The Braille pattern of the cell at `(cx, cy)`, which covers pixels `2cx..2cx+2`
/// by `4cy..4cy+4`: dots 1, 2, 3, 7 down the left column and 4, 5, 6, 8 down the right
/// one, dot `k` being bit `k - 1`.
pub open spec fn braille_code(set: Seq<bool>, width: int, cx: int, cy: int) -> nat {
    let px = 2 * cx;
    let py = 4 * cy;
    bit(dot_on(set, width, px, py), 1) + bit(dot_on(set, width, px, py + 1), 2) + bit(
        dot_on(set, width, px, py + 2),
        4,
    ) + bit(dot_on(set, width, px + 1, py), 8) + bit(dot_on(set, width, px + 1, py + 1), 16)
        + bit(dot_on(set, width, px + 1, py + 2), 32) + bit(dot_on(set, width, px, py + 3), 64)
        + bit(dot_on(set, width, px + 1, py + 3), 128)
}

/// The character of each cell of a Braille rendering.
pub open spec fn braille_cell(set: Seq<bool>, width: int) -> spec_fn(int, int) -> char {
    |cx: int, cy: int| braille_char(braille_code(set, width, cx, cy))
}

/// The Braille character with dot pattern `code`, from the block at U+2800.
pub open spec fn braille_char(code: nat) -> char {
    ((0x2800 + code) as u32) as char
}

/// The Braille character with the given dot pattern.
pub fn braille_glyph(code: u8) -> (c: char)
    ensures
        c == braille_char(code as nat),
{
    let v: u32 = 0x2800 + code as u32;
    let c = core::char::from_u32(v).unwrap_or(' ');
    proof {
        vstd::utf8::char_u32_cast(c, v);
    }
    c
}

fn dot_weight(set: &Vec<bool>, i: usize, w: u8) -> (r: u8)
    requires
        i < set@.len(),
    ensures
        r == bit(!set@[i as int], w as nat),
{
    if set[i] { 0 } else { w }
}

/// Lays out a dithered picture of `2 * cols` by `4 * rows` pixels as `rows` lines of
/// `cols` Braille characters.
pub fn render_braille(set: &Vec<bool>, cols: usize, rows: usize) -> (out: String)
    requires
        set@.len() == (2 * cols) * (4 * rows),
    ensures
        out@ == grid_text(braille_cell(set@, 2 * cols), cols as nat, rows as nat),
{
    let ghost cell = braille_cell(set@, 2 * cols);
    let mut out = String::new();
    if rows == 0 {
        return out;
    }
    let total = set.len();
    assert(2 * cols <= total) by (nonlinear_arith)
        requires
            total == (2 * cols) * (4 * rows),
            rows >= 1,
    ;
    let width: usize = 2 * cols;
    let mut cy: usize = 0;
    while cy < rows
        invariant
            cy <= rows,
            width == 2 * cols,
            total == set@.len(),
            total == width * (4 * rows),
            cell == braille_cell(set@, 2 * cols),
            out@ == grid_text(cell, cols as nat, cy as nat),
        decreases rows - cy,
    {
        if cols == 0 {
            assert(out@ + seq!['\n'] =~= grid_text(cell, cols as nat, (cy + 1) as nat));
            out.push('\n');
            cy = cy + 1;
            continue;
        }
        assert(4 * cy < total) by (nonlinear_arith)
            requires
                cy < rows,
                cols > 0,
                width == 2 * cols,
                total == width * (4 * rows),
        ;
        let four_cy: usize = 4 * cy;
        assert(four_cy * width + 4 * width <= total) by (nonlinear_arith)
            requires
                four_cy == 4 * cy,
                cy < rows,
                total == width * (4 * rows),
        ;
        let r0: usize = four_cy * width;
        let r1: usize = r0 + width;
        let r2: usize = r1 + width;
        let r3: usize = r2 + width;
        assert(r1 == (four_cy + 1) * width && r2 == (four_cy + 2) * width && r3 == (four_cy + 3)
            * width) by (nonlinear_arith)
            requires
                r0 == four_cy * width,
                r1 == r0 + width,
                r2 == r1 + width,
                r3 == r2 + width,
        ;
        let mut cx: usize = 0;
        while cx < cols
            invariant
                cx <= cols,
                cy < rows,
                width == 2 * cols,
                four_cy == 4 * cy,
                r0 == four_cy * width,
                r1 == (four_cy + 1) * width,
                r2 == (four_cy + 2) * width,
                r3 == (four_cy + 3) * width,
                r1 == r0 + width,
                r2 == r1 + width,
                r3 == r2 + width,
                r3 + width <= total,
                total == set@.len(),
                cell == braille_cell(set@, 2 * cols),
                out@ == grid_text(cell, cols as nat, cy as nat) + Seq::new(
                    cx as nat,
                    |i: int| cell(i, cy as int),
                ),
            decreases cols - cx,
        {
            let px: usize = 2 * cx;
            let code: u8 = dot_weight(set, r0 + px, 1) + dot_weight(set, r1 + px, 2) + dot_weight(
                set,
                r2 + px,
                4,
            ) + dot_weight(set, r0 + px + 1, 8) + dot_weight(set, r1 + px + 1, 16) + dot_weight(
                set,
                r2 + px + 1,
                32,
            ) + dot_weight(set, r3 + px, 64) + dot_weight(set, r3 + px + 1, 128);
            assert(code == braille_code(set@, width as int, cx as int, cy as int));
            let c = braille_glyph(code);
            out.push(c);
            assert(out@ =~= grid_text(cell, cols as nat, cy as nat) + Seq::new(
                (cx + 1) as nat,
                |i: int| cell(i, cy as int),
            ));
            cx = cx + 1;
        }
        out.push('\n');
        assert(out@ =~= grid_text(cell, cols as nat, (cy + 1) as nat));
        cy = cy + 1;
    }
    out
}

/// The decimal digits of `n` as characters.
pub open spec fn decimal_chars(n: nat) -> Seq<char> {
    nat_digits(n).map_values(|b: u8| b as char)
}

/// Appends the decimal digits of a byte value.
pub fn push_decimal_u8(out: &mut String, v: u8)
    ensures
        final(out)@ == old(out)@ + decimal_chars(v as nat),
{
    proof {
        reveal_with_fuel(nat_digits, 3);
    }
    let ones: u8 = v % 10;
    let tens: u8 = (v / 10) % 10;
    let hundreds: u8 = v / 100;
    if v >= 100 {
        out.push((hundreds + 48) as char);
    }
    if v >= 10 {
        out.push((tens + 48) as char);
    }
    out.push((ones + 48) as char);
    proof {
        let n = v as nat;
        if v >= 100 {
            assert((n / 10) / 10 == n / 100 && (n / 10) % 10 == (v / 10) % 10);
            assert(nat_digits(n) =~= seq![(hundreds + 48) as u8, (tens + 48) as u8, (ones + 48) as u8]);
        } else if v >= 10 {
            assert(nat_digits(n) =~= seq![(tens + 48) as u8, (ones + 48) as u8]);
        } else {
            assert(nat_digits(n) =~= seq![(ones + 48) as u8]);
        }
        assert(out@ =~= old(out)@ + decimal_chars(n));
    }
}

/// The escape sequence of one colour cell: foreground the top pixel, background the
/// bottom one, then an upper half block.
pub open spec fn color_cell(top: (u8, u8, u8), bottom: (u8, u8, u8)) -> Seq<char> {
    "\x1b[38;2;"@ + decimal_chars(top.0 as nat) + ";"@ + decimal_chars(top.1 as nat) + ";"@
        + decimal_chars(top.2 as nat) + "m\x1b[48;2;"@ + decimal_chars(bottom.0 as nat) + ";"@
        + decimal_chars(bottom.1 as nat) + ";"@ + decimal_chars(bottom.2 as nat) + "m▀"@
}

/// The cell at column `x` of text line `r`: pixel rows `2r` and `2r + 1`, the last
/// row of an odd-height picture pairing with itself.
pub open spec fn color_pair(pix: Seq<(u8, u8, u8)>, width: int, height: int, x: int, r: int) -> Seq<
    char,
> {
    let top = pix[2 * r * width + x];
    let bottom = if 2 * r + 1 < height {
        pix[(2 * r + 1) * width + x]
    } else {
        top
    };
    color_cell(top, bottom)
}

/// The first `n` cells of text line `r`.
pub open spec fn color_row(pix: Seq<(u8, u8, u8)>, width: int, height: int, r: int, n: nat) -> Seq<
    char,
>
    decreases n,
{
    if n == 0 {
        Seq::empty()
    } else {
        color_row(pix, width, height, r, (n - 1) as nat) + color_pair(
            pix,
            width,
            height,
            n - 1,
            r,
        )
    }
}

/// The end of a colour line: reset the attributes, then a newline.
pub open spec fn color_reset() -> Seq<char> {
    seq!['\x1b', '['] + "0m"@ + seq!['\n']
}

/// The first `rows` lines of a colour rendering.
pub open spec fn color_text(pix: Seq<(u8, u8, u8)>, width: int, height: int, rows: nat) -> Seq<char>
    decreases rows,
{
    if rows == 0 {
        Seq::empty()
    } else {
        color_text(pix, width, height, (rows - 1) as nat) + color_row(
            pix,
            width,
            height,
            rows - 1,
            width as nat,
        ) + color_reset()
    }
}

fn push_color_cell(out: &mut String, top: (u8, u8, u8), bottom: (u8, u8, u8))
    ensures
        final(out)@ == old(out)@ + color_cell(top, bottom),
{
    out.append("\x1b[38;2;");
    push_decimal_u8(out, top.0);
    out.append(";");
    push_decimal_u8(out, top.1);
    out.append(";");
    push_decimal_u8(out, top.2);
    out.append("m\x1b[48;2;");
    push_decimal_u8(out, bottom.0);
    out.append(";");
    push_decimal_u8(out, bottom.1);
    out.append(";");
    push_decimal_u8(out, bottom.2);
    out.append("m▀");
    assert(out@ =~= old(out)@ + color_cell(top, bottom));
}

/// Lays out an RGB picture two pixel rows per line in 24-bit colour.
pub fn render_color(pix: &Vec<(u8, u8, u8)>, width: usize, height: usize) -> (out: String)
    requires
        pix@.len() == width * height,
    ensures
        out@ == color_text(pix@, width as int, height as int, ((height + 1) / 2) as nat),
{
    let total = pix.len();
    let rows: usize = height / 2 + height % 2;
    let mut out = String::new();
    let mut r: usize = 0;
    while r < rows
        invariant
            r <= rows,
            rows == (height + 1) / 2,
            pix@.len() == width * height,
            total == pix@.len(),
            out@ == color_text(pix@, width as int, height as int, r as nat),
        decreases rows - r,
    {
        let two_r: usize = 2 * r;
        assert(two_r * width + width <= width * height) by (nonlinear_arith)
            requires
                two_r == 2 * r,
                r < rows,
                rows == (height + 1) / 2,
        ;
        let top_start: usize = two_r * width;
        let has_bottom = two_r + 1 < height;
        if has_bottom {
            assert(top_start + 2 * width <= width * height) by (nonlinear_arith)
                requires
                    top_start == two_r * width,
                    two_r + 1 < height,
            ;
        }
        let ghost line_start = out@;
        let mut x: usize = 0;
        while x < width
            invariant
                x <= width,
                r < rows,
                two_r == 2 * r,
                top_start == two_r * width,
                top_start + width <= pix@.len(),
                has_bottom == (two_r + 1 < height),
                has_bottom ==> top_start + 2 * width <= pix@.len(),
                total == pix@.len(),
                line_start == color_text(pix@, width as int, height as int, r as nat),
                out@ == line_start + color_row(pix@, width as int, height as int, r as int, x as nat),
            decreases width - x,
        {
            let top = pix[top_start + x];
            let bottom = if has_bottom {
                pix[top_start + width + x]
            } else {
                top
            };
            assert((two_r + 1) * width + x == top_start + width + x) by (nonlinear_arith)
                requires
                    top_start == two_r * width,
            ;
            assert(2 * (r as int) * width == top_start);
            push_color_cell(&mut out, top, bottom);
            assert(out@ =~= line_start + color_row(
                pix@,
                width as int,
                height as int,
                r as int,
                (x + 1) as nat,
            ));
            x = x + 1;
        }
        out.push('\x1b');
        out.push('[');
        out.append("0m");
        out.push('\n');
        assert(out@ =~= color_text(pix@, width as int, height as int, (r + 1) as nat));
        r = r + 1;
    }
    out
}

/// Reading the ramp from the other end maps each level to the mirrored level: the
/// ASCII rendering with the reversed ramp shows, in each cell, the character that
/// the plain ramp gives to the opposite brightness.
pub proof fn law_reversed_ramp_mirrors_levels(
    levels: Seq<usize>,
    ramp: Seq<char>,
    width: int,
    x: int,
    y: int,
)
    requires
        0 <= levels[y * width + x] < ramp.len(),
    ensures
        ascii_cell(levels, ramp.reverse(), width)(x, y) == ramp[ramp.len() - 1
            - levels[y * width + x]],
{
}

/// The dot pattern of a cell in which every pixel of `set` is flipped to its
/// opposite: each dot that showed is gone and each one that was gone shows.
pub proof fn law_flipped_pixels_flip_dots(set: Seq<bool>, flipped: Seq<bool>, width: int, cx: int, cy: int)
    requires
        flipped.len() == set.len(),
        forall|i: int| 0 <= i < set.len() ==> #[trigger] flipped[i] == !set[i],
        0 <= cx,
        0 <= cy,
        2 * cx + 1 < width,
        (4 * cy + 3) * width + 2 * cx + 1 < set.len(),
    ensures
        braille_code(flipped, width, cx, cy) + braille_code(set, width, cx, cy) == 255,
{
    let px = 2 * cx;
    let py = 4 * cy;
    assert(0 <= py * width && py * width + width == (py + 1) * width && (py + 1) * width + width
        == (py + 2) * width && (py + 2) * width + width == (py + 3) * width) by (nonlinear_arith)
        requires
            py >= 0,
            width > 0,
    ;
    assert(flipped[py * width + px] == !set[py * width + px]);
    assert(flipped[py * width + px + 1] == !set[py * width + px + 1]);
    assert(flipped[(py + 1) * width + px] == !set[(py + 1) * width + px]);
    assert(flipped[(py + 1) * width + px + 1] == !set[(py + 1) * width + px + 1]);
    assert(flipped[(py + 2) * width + px] == !set[(py + 2) * width + px]);
    assert(flipped[(py + 2) * width + px + 1] == !set[(py + 2) * width + px + 1]);
    assert(flipped[(py + 3) * width + px] == !set[(py + 3) * width + px]);
    assert(flipped[(py + 3) * width + px + 1] == !set[(py + 3) * width + px + 1]);
}

/// Each dot of a Braille cell answers for one pixel: dot `k` is bit `k - 1` of the
/// pattern, dots 1, 2, 3 and 7 cover the left pixel column of the cell from top to
/// bottom and dots 4, 5, 6 and 8 the right one, and a dot shows exactly where its
/// pixel is not set.
pub proof fn law_braille_dot_bits(set: Seq<bool>, width: int, cx: int, cy: int)
    ensures
        braille_code(set, width, cx, cy) < 256,
        braille_code(set, width, cx, cy) % 2 == 1 <==> !set[(4 * cy) * width + 2 * cx],
        (braille_code(set, width, cx, cy) / 2) % 2 == 1 <==> !set[(4 * cy + 1) * width + 2 * cx],
        (braille_code(set, width, cx, cy) / 4) % 2 == 1 <==> !set[(4 * cy + 2) * width + 2 * cx],
        (braille_code(set, width, cx, cy) / 8) % 2 == 1 <==> !set[(4 * cy) * width + 2 * cx + 1],
        (braille_code(set, width, cx, cy) / 16) % 2 == 1 <==> !set[(4 * cy + 1) * width + 2 * cx
            + 1],
        (braille_code(set, width, cx, cy) / 32) % 2 == 1 <==> !set[(4 * cy + 2) * width + 2 * cx
            + 1],
        (braille_code(set, width, cx, cy) / 64) % 2 == 1 <==> !set[(4 * cy + 3) * width + 2 * cx],
        (braille_code(set, width, cx, cy) / 128) % 2 == 1 <==> !set[(4 * cy + 3) * width + 2 * cx
            + 1],
{
}

/// In the Braille text of a picture, the character of cell `(cx, cy)` stands at
/// `cy * (cols + 1) + cx`, lies in the block U+2800..U+28FF, and its offset in the
/// block has bit `k - 1` set exactly where the pixel under dot `k` is not set:
/// pixels `(2cx, 4cy)`, `(2cx, 4cy + 1)`, `(2cx, 4cy + 2)` for dots 1, 2, 3,
/// `(2cx + 1, 4cy)`, `(2cx + 1, 4cy + 1)`, `(2cx + 1, 4cy + 2)` for dots 4, 5, 6, and
/// `(2cx, 4cy + 3)`, `(2cx + 1, 4cy + 3)` for dots 7 and 8.
pub proof fn law_braille_text_dots(set: Seq<bool>, cols: nat, rows: nat, cx: int, cy: int)
    requires
        set.len() == (2 * cols) * (4 * rows),
        0 <= cx < cols,
        0 <= cy < rows,
    ensures
        ({
            let w = 2 * cols as int;
            let c = grid_text(braille_cell(set, w), cols, rows)[cy * (cols + 1) + cx] as u32 as int;
            let code = c - 0x2800;
            &&& 0x2800 <= c <= 0x28FF
            &&& code % 2 == 1 <==> !set[(4 * cy) * w + 2 * cx]
            &&& (code / 2) % 2 == 1 <==> !set[(4 * cy + 1) * w + 2 * cx]
            &&& (code / 4) % 2 == 1 <==> !set[(4 * cy + 2) * w + 2 * cx]
            &&& (code / 8) % 2 == 1 <==> !set[(4 * cy) * w + 2 * cx + 1]
            &&& (code / 16) % 2 == 1 <==> !set[(4 * cy + 1) * w + 2 * cx + 1]
            &&& (code / 32) % 2 == 1 <==> !set[(4 * cy + 2) * w + 2 * cx + 1]
            &&& (code / 64) % 2 == 1 <==> !set[(4 * cy + 3) * w + 2 * cx]
            &&& (code / 128) % 2 == 1 <==> !set[(4 * cy + 3) * w + 2 * cx + 1]
        }),
{
    let w = 2 * cols as int;
    law_grid_text_layout(braille_cell(set, w), cols, rows);
    law_braille_dot_bits(set, w, cx, cy);
    let code = braille_code(set, w, cx, cy);
    assert(grid_text(braille_cell(set, w), cols, rows)[cy * (cols + 1) + cx] == braille_char(code));
    assert((((0x2800 + code) as u32) as char) as u32 == 0x2800 + code);
}

/// The text of a grid has `rows` lines of `cols + 1` characters: line `y` holds the
/// cells `(0, y)` to `(cols - 1, y)` in order, then a newline.
pub proof fn law_grid_text_layout(cell: spec_fn(int, int) -> char, cols: nat, rows: nat)
    ensures
        grid_text(cell, cols, rows).len() == rows * (cols + 1),
        forall|x: int, y: int|
            0 <= x < cols && 0 <= y < rows ==> #[trigger] grid_text(cell, cols, rows)[y * (cols + 1)
                + x] == cell(x, y),
        forall|y: int|
            0 <= y < rows ==> #[trigger] grid_text(cell, cols, rows)[y * (cols + 1) + cols] == '\n',
    decreases rows,
{
    if rows > 0 {
        let r = (rows - 1) as nat;
        law_grid_text_layout(cell, cols, r);
        let prev = grid_text(cell, cols, r);
        let line = Seq::new(cols, |x: int| cell(x, r as int)) + seq!['\n'];
        assert(grid_text(cell, cols, rows) =~= prev + line);
        assert(rows * (cols + 1) == r * (cols + 1) + (cols + 1)) by (nonlinear_arith)
            requires
                r == rows - 1,
        ;
        assert(grid_text(cell, cols, rows).len() == rows * (cols + 1));
        assert forall|x: int, y: int| 0 <= x < cols && 0 <= y < rows implies #[trigger] grid_text(
            cell,
            cols,
            rows,
        )[y * (cols + 1) + x] == cell(x, y) by {
            if y < r {
                assert(y * (cols + 1) + x < r * (cols + 1)) by (nonlinear_arith)
                    requires
                        y < r,
                        0 <= x < cols,
                ;
            } else {
                assert(y * (cols + 1) == r * (cols + 1));
            }
        }
        assert forall|y: int| 0 <= y < rows implies #[trigger] grid_text(cell, cols, rows)[y * (cols
            + 1) + cols] == '\n' by {
            if y < r {
                assert(y * (cols + 1) + cols < r * (cols + 1)) by (nonlinear_arith)
                    requires
                        y < r,
                ;
            } else {
                assert(y * (cols + 1) == r * (cols + 1));
            }
        }
    } else {
        assert(rows * (cols + 1) == 0) by (nonlinear_arith)
            requires
                rows == 0,
        ;
    }
}

/// Two grids whose cells are related by `f` cell for cell have texts related by `f`
/// character for character, when `f` keeps the newline.
pub proof fn lemma_grid_text_map(
    cell: spec_fn(int, int) -> char,
    other: spec_fn(int, int) -> char,
    f: spec_fn(char) -> char,
    cols: nat,
    rows: nat,
)
    requires
        f('\n') == '\n',
        forall|x: int, y: int| 0 <= x < cols && 0 <= y < rows ==> #[trigger] other(x, y) == f(cell(x, y)),
    ensures
        grid_text(other, cols, rows) == grid_text(cell, cols, rows).map_values(f),
    decreases rows,
{
    if rows > 0 {
        let r = (rows - 1) as nat;
        lemma_grid_text_map(cell, other, f, cols, r);
        assert(Seq::new(cols, |x: int| other(x, r as int)) =~= Seq::new(cols, |x: int| cell(x, r as int)).map_values(f));
        assert(grid_text(other, cols, rows) =~= grid_text(cell, cols, rows).map_values(f));
    }
}

/// The Braille pattern with every dot flipped.
pub open spec fn flipped_braille_cell(set: Seq<bool>, width: int) -> spec_fn(int, int) -> char {
    |cx: int, cy: int| braille_char((255 - braille_code(set, width, cx, cy)) as nat)
}

/// Flipping every pixel of a dithered picture flips every dot of its Braille
/// rendering: the text shows, in each place, the complementary pattern.
pub proof fn law_flipped_pixels_flip_braille_text(
    set: Seq<bool>,
    flipped: Seq<bool>,
    cols: nat,
    rows: nat,
)
    requires
        set.len() == (2 * cols) * (4 * rows),
        flipped.len() == set.len(),
        forall|i: int| 0 <= i < set.len() ==> #[trigger] flipped[i] == !set[i],
    ensures
        grid_text(braille_cell(flipped, 2 * cols as int), cols, rows) == grid_text(
            flipped_braille_cell(set, 2 * cols as int),
            cols,
            rows,
        ),
{
    let width: int = 2 * cols as int;
    let a = braille_cell(flipped, width);
    let b = flipped_braille_cell(set, width);
    assert forall|x: int, y: int| 0 <= x < cols && 0 <= y < rows implies #[trigger] a(x, y) == b(
        x,
        y,
    ) by {
        assert((4 * y + 3) * width + 2 * x + 1 < set.len()) by (nonlinear_arith)
            requires
                0 <= x < cols,
                0 <= y < rows,
                width == 2 * cols,
                set.len() == width * (4 * rows),
        ;
        law_flipped_pixels_flip_dots(set, flipped, width, x, y);
    }
    lemma_grid_text_map(b, a, |c: char| c, cols, rows);
    assert(grid_text(b, cols, rows).map_values(|c: char| c) =~= grid_text(b, cols, rows));
}

/// Every ramp has at least ten characters, so a ramp has a darkest and a brightest
/// end that differ.
pub proof fn law_ramps_have_ten_or_more(lower: Seq<char>)
    ensures
        ramp_spec(lower).len() >= 10,
{
    reveal_strlit(" .:-=+*#%@");
    reveal_strlit("$@B%8&WM#*oahkbdpqwmZO0QLCJUYXzcvunxrjft/\\|()1{}[]?-_+~<>i!lI;:,\"^`'. ");
    reveal_strlit("@%#*+=-:. ");
}

/// Lower-casing an ASCII name a second time changes nothing, so an ASCII preset name
/// and its lower-case spelling choose the same ramp.
pub proof fn law_ascii_names_ignore_case(name: Seq<char>)
    ensures
        ascii_lower(ascii_lower(name)) == ascii_lower(name),
        ramp_spec(ascii_lower(ascii_lower(name))) == ramp_spec(ascii_lower(name)),
{
    let l = ascii_lower(name);
    assert forall|i: int| 0 <= i < l.len() implies #[trigger] ascii_lower(l)[i] == l[i] by {
        let c = name[i];
        if 'A' <= c <= 'Z' {
            assert(ascii_lower_char(c) as u32 == c as u32 + 32);
        }
    }
    assert(ascii_lower(l) =~= l);
}

/// The half-block glyph for the opposite pixels.
pub open spec fn swap_block(c: char) -> char {
    if c == '█' {
        ' '
    } else if c == ' ' {
        '█'
    } else if c == '▀' {
        '▄'
    } else if c == '▄' {
        '▀'
    } else {
        c
    }
}

/// Lighting exactly the pixels that were dark swaps every half-block glyph: full and
/// empty trade places, and so do the upper and lower halves.
pub proof fn law_negated_mask_swaps_blocks(
    lit: Seq<bool>,
    dark: Seq<bool>,
    width: int,
    height: int,
    x: int,
    y: int,
)
    requires
        dark.len() == lit.len(),
        forall|i: int| 0 <= i < lit.len() ==> #[trigger] dark[i] == !lit[i],
        0 <= 2 * y * width + x < lit.len(),
        2 * y + 1 < height ==> 0 <= (2 * y + 1) * width + x < lit.len(),
    ensures
        block_cell(dark, width, height)(x, y) == swap_block(block_cell(lit, width, height)(x, y)),
{
    assert(dark[2 * y * width + x] == !lit[2 * y * width + x]);
    if 2 * y + 1 < height {
        assert(dark[(2 * y + 1) * width + x] == !lit[(2 * y + 1) * width + x]);
    }
}

/// Lighting exactly the pixels that were dark swaps the glyphs of the whole
/// half-block rendering, each in its place, and keeps every line break.
pub proof fn law_negated_mask_swaps_block_text(lit: Seq<bool>, dark: Seq<bool>, width: nat, height: nat)
    requires
        lit.len() == width * height,
        dark.len() == lit.len(),
        forall|i: int| 0 <= i < lit.len() ==> #[trigger] dark[i] == !lit[i],
    ensures
        grid_text(block_cell(dark, width as int, height as int), width, (height + 1) as nat / 2)
            == grid_text(block_cell(lit, width as int, height as int), width, (height + 1) as nat / 2).map_values(
            |c: char| swap_block(c),
        ),
{
    let rows = (height + 1) as nat / 2;
    let a = block_cell(dark, width as int, height as int);
    let b = block_cell(lit, width as int, height as int);
    assert forall|x: int, y: int| 0 <= x < width && 0 <= y < rows implies #[trigger] a(x, y)
        == swap_block(b(x, y)) by {
        assert(0 <= 2 * y * width + x < lit.len()) by (nonlinear_arith)
            requires
                0 <= x < width,
                0 <= y < rows,
                rows == (height + 1) / 2,
                lit.len() == width * height,
        ;
        if 2 * y + 1 < height {
            assert(0 <= (2 * y + 1) * width + x < lit.len()) by (nonlinear_arith)
                requires
                    0 <= x < width,
                    0 <= y,
                    2 * y + 1 < height,
                    lit.len() == width * height,
            ;
        }
        law_negated_mask_swaps_blocks(lit, dark, width as int, height as int, x, y);
    }
    lemma_grid_text_map(b, a, |c: char| swap_block(c), width, rows);
}

/// The colour text runs top to bottom: whatever the number of lines, it begins with
/// lines `0` to `r - 1`, and line `r` follows them at once, made of the cells of pixel
/// rows `2r` and `2r + 1` and the line's reset.
pub proof fn law_color_lines_top_to_bottom(
    pix: Seq<(u8, u8, u8)>,
    width: int,
    height: int,
    rows: nat,
    r: nat,
)
    requires
        r < rows,
    ensures
        ({
            let line = color_row(pix, width, height, r as int, width as nat) + color_reset();
            let before = color_text(pix, width, height, r);
            &&& before.len() + line.len() <= color_text(pix, width, height, rows).len()
            &&& color_text(pix, width, height, rows).subrange(0, (before.len() + line.len()) as int)
                == before + line
        }),
    decreases rows,
{
    let line = color_row(pix, width, height, r as int, width as nat) + color_reset();
    let before = color_text(pix, width, height, r);
    let all = color_text(pix, width, height, rows);
    if r + 1 == rows {
        assert(all =~= before + line);
        assert(all.subrange(0, (before.len() + line.len()) as int) =~= all);
    } else {
        law_color_lines_top_to_bottom(pix, width, height, (rows - 1) as nat, r);
        let prev = color_text(pix, width, height, (rows - 1) as nat);
        assert(all == prev + color_row(pix, width, height, rows - 1, width as nat) + color_reset());
        assert(all.subrange(0, (before.len() + line.len()) as int) =~= prev.subrange(
            0,
            (before.len() + line.len()) as int,
        ));
    }
}

/// Line `r` of the colour text holds its cells left to right: cell `x` has pixel
/// `(x, 2r)` as foreground and pixel `(x, 2r + 1)` as background, or `(x, 2r)` again
/// on the last row of an odd-height picture.
pub proof fn law_color_row_cells(
    pix: Seq<(u8, u8, u8)>,
    width: int,
    height: int,
    r: int,
    n: nat,
)
    ensures
        color_row(pix, width, height, r, 0) == Seq::<char>::empty(),
        color_row(pix, width, height, r, n + 1) == color_row(pix, width, height, r, n) + color_cell(
            pix[2 * r * width + n],
            if 2 * r + 1 < height {
                pix[(2 * r + 1) * width + n]
            } else {
                pix[2 * r * width + n]
            },
        ),
{
    assert(color_row(pix, width, height, r, (n + 1) as nat) == color_row(pix, width, height, r, n)
        + color_pair(pix, width, height, n as int, r));
}

} // verus!
