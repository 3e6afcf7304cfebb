//! The text picture of a walk: saturated visit counts, the two markers, and the border.
use vstd::arithmetic::div_mod::lemma_fundamental_div_mod_converse;
use vstd::prelude::*;

use crate::walk::{center, final_position, steps, visits, walk};
use crate::Mode;

verus! {

/// The glyph index of a visit count: counts saturate below the two marker glyphs.
pub open spec fn saturated(count: int, alphabet_len: int) -> int {
    if count < alphabet_len - 3 {
        count
    } else {
        alphabet_len - 3
    }
}

/// The glyph index of cell `(row, col)` after the walk over `fp`: the end marker on the
/// final position, else the start marker on the center, else the saturated visit count.
pub open spec fn glyph_index(
    fp: Seq<u8>,
    height: int,
    width: int,
    alphabet_len: int,
    row: int,
    col: int,
) -> int {
    if (row, col) == final_position(fp, height, width) {
        alphabet_len - 1
    } else if (row, col) == center(height, width) {
        alphabet_len - 2
    } else {
        saturated(visits(fp, height, width, steps(fp), row, col) as int, alphabet_len)
    }
}

/// The number of characters of each line of the picture, its newline included.
pub open spec fn line_len(width: int) -> int {
    width + 3
}

/// The character at column `col` of line `line` of the picture: a border line above and
/// below, between them one line per grid row framed by `|`, every line ended by a newline.
pub open spec fn text_char(
    fp: Seq<u8>,
    height: int,
    width: int,
    alphabet: Seq<u8>,
    line: int,
    col: int,
) -> char {
    if col == width + 2 {
        '\n'
    } else if line == 0 || line == height + 1 {
        if col == 0 || col == width + 1 {
            '+'
        } else {
            '-'
        }
    } else if col == 0 || col == width + 1 {
        '|'
    } else {
        alphabet[glyph_index(fp, height, width, alphabet.len() as int, line - 1, col - 1)] as char
    }
}

/// The whole picture of the walk over `fp`: `height + 2` lines of `width + 3` characters.
pub open spec fn rendered(fp: Seq<u8>, height: int, width: int, alphabet: Seq<u8>) -> Seq<char> {
    Seq::new(
        ((height + 2) * line_len(width)) as nat,
        |p: int| text_char(fp, height, width, alphabet, p / line_len(width), p % line_len(width)),
    )
}

/// The configuration can be rendered: a non-empty grid and at least one count glyph.
pub open spec fn valid_mode(height: int, width: int, alphabet_len: int) -> bool {
    height >= 1 && width >= 1 && alphabet_len >= 3
}

/// The picture and the walk fit in memory.
pub open spec fn fits(fp_len: int, height: int, width: int) -> bool {
    (height + 2) * (width + 3) <= isize::MAX / 4 && fp_len <= usize::MAX / 4
}

/// Why a configuration cannot be rendered.
#[derive(Debug, Clone, Copy, PartialEq, Eq, Structural)]
pub enum BishopError {
    /// The grid has no row or no column, or the alphabet has fewer than three glyphs.
    InvalidConfiguration,
}

/// Relies on `String::push`: appends `c` to `s`, which stays below `isize::MAX` bytes.
#[verifier::external_body]
fn push_char(s: &mut String, c: char)
    requires
        4 * (old(s)@.len() + 1) <= isize::MAX,
    ensures
        final(s)@ == old(s)@.push(c),
{
    s.push(c)
}

/// `s` is the start of the picture of the walk over `fp`.
spec fn is_prefix_of_picture(
    s: Seq<char>,
    fp: Seq<u8>,
    height: int,
    width: int,
    alphabet: Seq<u8>,
) -> bool {
    forall|j: int|
        0 <= j < s.len() ==> #[trigger] s[j] == text_char(
            fp,
            height,
            width,
            alphabet,
            j / line_len(width),
            j % line_len(width),
        )
}

/// Renders the walk over `fingerprint` in the configuration `mode`.
pub fn drunken_bishop(fingerprint: &[u8], mode: Mode) -> (r: String)
    requires
        valid_mode(mode.height as int, mode.width as int, mode.alphabet@.len() as int),
        fits(fingerprint@.len() as int, mode.height as int, mode.width as int),
    ensures
        r@ == rendered(fingerprint@, mode.height as int, mode.width as int, mode.alphabet@),
{
    let height = mode.height;
    let width = mode.width;
    let alphabet = mode.alphabet;
    let ghost fp = fingerprint@;
    let ghost h = height as int;
    let ghost w = width as int;
    let ghost al = alphabet@;
    proof {
        assert(h * w <= (h + 2) * (w + 3)) by (nonlinear_arith)
            requires
                h >= 1,
                w >= 1,
        ;
    }
    let walked = walk(fingerprint, height, width);
    let mut field = walked.counts;
    let n = alphabet.len();
    // Saturate every count to a glyph index below the markers.
    let mut i: usize = 0;
    while i < height * width
        invariant
            0 <= i <= h * w,
            h == height,
            w == width,
            h * w <= isize::MAX,
            n == al.len(),
            n >= 3,
            field@.len() == h * w,
            forall|j: int|
                0 <= j < i ==> #[trigger] field@[j] == saturated(
                    visits(fp, h, w, steps(fp), j / w, j % w) as int,
                    n as int,
                ),
            forall|j: int|
                i <= j < h * w ==> #[trigger] field@[j] == visits(fp, h, w, steps(fp), j / w, j % w),
        decreases h * w - i,
    {
        if field[i] > n - 3 {
            field.set(i, n - 3);
        }
        i = i + 1;
    }
    // The start marker on the center, then the end marker on the final position.
    proof {
        crate::walk::position_on_grid(fp, h, w, steps(fp));
        crate::walk::lemma_cell_index(h / 2, w / 2, h, w);
        crate::walk::lemma_cell_index(walked.row as int, walked.col as int, h, w);
    }
    let start: usize = (height / 2) * width + width / 2;
    let end: usize = walked.row * width + walked.col;
    field.set(start, n - 2);
    field.set(end, n - 1);
    assert forall|j: int| 0 <= j < h * w implies #[trigger] field@[j] == glyph_index(
        fp,
        h,
        w,
        n as int,
        j / w,
        j % w,
    ) by {
        vstd::arithmetic::div_mod::lemma_fundamental_div_mod(j, w);
        let (r, c) = (j / w, j % w);
        if r == walked.row as int && c == walked.col as int {
            assert(w * r == r * w) by (nonlinear_arith);
            assert(j == end);
        } else if r == h / 2 && c == w / 2 {
            assert(w * r == r * w) by (nonlinear_arith);
            assert(j == start);
        }
    }
    proof {
        assert(h + 2 <= (h + 2) * (w + 3) && w + 3 <= (h + 2) * (w + 3)) by (nonlinear_arith)
            requires
                h >= 1,
                w >= 1,
        ;
    }
    let mut res = String::new();
    let mut line: usize = 0;
    while line < height + 2
        invariant
            h == height,
            w == width,
            al == alphabet@,
            n == al.len(),
            n >= 3,
            h >= 1,
            w >= 1,
            (h + 2) * (w + 3) <= isize::MAX / 4,
            h + 2 <= isize::MAX / 4,
            w + 3 <= isize::MAX / 4,
            h * w <= isize::MAX,
            0 <= line <= h + 2,
            field@.len() == h * w,
            forall|j: int|
                0 <= j < h * w ==> #[trigger] field@[j] == glyph_index(fp, h, w, n as int, j / w, j % w),
            res@.len() == line * line_len(w),
            is_prefix_of_picture(res@, fp, h, w, al),
        decreases h + 2 - line,
    {
        let mut col: usize = 0;
        while col < width + 3
            invariant
                h == height,
                w == width,
                al == alphabet@,
                n == al.len(),
                n >= 3,
                h >= 1,
                w >= 1,
                (h + 2) * (w + 3) <= isize::MAX / 4,
                h + 2 <= isize::MAX / 4,
                w + 3 <= isize::MAX / 4,
                h * w <= isize::MAX,
                0 <= line < h + 2,
                0 <= col <= w + 3,
                field@.len() == h * w,
                forall|j: int|
                    0 <= j < h * w ==> #[trigger] field@[j] == glyph_index(fp, h, w, n as int, j / w, j % w),
                res@.len() == line * line_len(w) + col,
                is_prefix_of_picture(res@, fp, h, w, al),
            decreases w + 3 - col,
        {
            let ch: char = if col == width + 2 {
                '\n'
            } else if line == 0 || line == height + 1 {
                if col == 0 || col == width + 1 {
                    '+'
                } else {
                    '-'
                }
            } else if col == 0 || col == width + 1 {
                '|'
            } else {
                let row: usize = line - 1;
                let cell: usize = col - 1;
                proof {
                    crate::walk::lemma_cell_index(row as int, cell as int, h, w);
                }
                let g: usize = field[row * width + cell];
                alphabet[g] as char
            };
            proof {
                let p = line * line_len(w) + col;
                lemma_fundamental_div_mod_converse(p, line_len(w), line as int, col as int);
                vstd::arithmetic::mul::lemma_mul_inequality(line as int, h + 1, w + 3);
                assert((h + 1) * (w + 3) + (w + 3) == (h + 2) * (w + 3)) by (nonlinear_arith);
            }
            push_char(&mut res, ch);
            col = col + 1;
        }
        proof {
            assert((line + 1) * line_len(w) == line * line_len(w) + line_len(w)) by (nonlinear_arith);
        }
        line = line + 1;
    }
    assert(res@ =~= rendered(fp, h, w, al));
    res
}

/// Renders the walk over `fingerprint` in `mode` after checking the configuration.
pub fn try_drunken_bishop(fingerprint: &[u8], mode: Mode) -> (r: Result<String, BishopError>)
    requires
        fits(fingerprint@.len() as int, mode.height as int, mode.width as int),
    ensures
        r is Ok <==> valid_mode(mode.height as int, mode.width as int, mode.alphabet@.len() as int),
        r matches Ok(s) ==> s@ == rendered(
            fingerprint@,
            mode.height as int,
            mode.width as int,
            mode.alphabet@,
        ),
        r matches Err(e) ==> e == BishopError::InvalidConfiguration,
{
    if mode.height < 1 || mode.width < 1 || mode.alphabet.len() < 3 {
        Err(BishopError::InvalidConfiguration)
    } else {
        Ok(drunken_bishop(fingerprint, mode))
    }
}

} // verus!
