//! Properties of the picture that hold for every fingerprint and configuration.
use vstd::arithmetic::div_mod::lemma_fundamental_div_mod_converse;
use vstd::prelude::*;

use crate::render::{glyph_index, line_len, rendered, text_char, valid_mode};
use crate::walk::{center, final_position, on_grid, position_on_grid, steps};

verus! {

/// Column `col` of line `line` of picture `s` of a `width`-column grid.
pub open spec fn char_at(s: Seq<char>, width: int, line: int, col: int) -> char {
    s[line * line_len(width) + col]
}

/// The character that picture `s` of a `width`-column grid shows for cell `(row, col)`.
pub open spec fn cell_char(s: Seq<char>, width: int, row: int, col: int) -> char {
    char_at(s, width, row + 1, col + 1)
}

/// Column `col` of a border line: `+` at both ends, `-` between.
pub open spec fn border_char(width: int, col: int) -> char {
    if col == 0 || col == width + 1 {
        '+'
    } else {
        '-'
    }
}

/// Position `line * (width + 3) + col` of the picture is column `col` of line `line`.
proof fn lemma_picture_at(
    fp: Seq<u8>,
    height: int,
    width: int,
    alphabet: Seq<u8>,
    line: int,
    col: int,
)
    requires
        height >= 1,
        width >= 1,
        0 <= line < height + 2,
        0 <= col < line_len(width),
    ensures
        0 <= line * line_len(width) + col < rendered(fp, height, width, alphabet).len(),
        rendered(fp, height, width, alphabet)[line * line_len(width) + col] == text_char(
            fp,
            height,
            width,
            alphabet,
            line,
            col,
        ),
{
    let p = line * line_len(width) + col;
    lemma_fundamental_div_mod_converse(p, line_len(width), line, col);
    vstd::arithmetic::mul::lemma_mul_inequality(line, height + 1, line_len(width));
    vstd::arithmetic::mul::lemma_mul_nonnegative(line, line_len(width));
    assert((height + 1) * line_len(width) + line_len(width) == (height + 2) * line_len(width))
        by (nonlinear_arith);
}

/// Every cell's glyph index names a glyph of the alphabet.
proof fn lemma_glyph_index_in_alphabet(
    fp: Seq<u8>,
    height: int,
    width: int,
    alphabet_len: int,
    row: int,
    col: int,
)
    requires
        alphabet_len >= 3,
    ensures
        0 <= glyph_index(fp, height, width, alphabet_len, row, col) < alphabet_len,
{
}

/// Rendering is a function of the fingerprint and the configuration alone: two pictures
/// of the same walk are the same text.
pub proof fn render_is_deterministic(
    fp: Seq<u8>,
    height: int,
    width: int,
    alphabet: Seq<u8>,
    first: Seq<char>,
    second: Seq<char>,
)
    requires
        first == rendered(fp, height, width, alphabet),
        second == rendered(fp, height, width, alphabet),
    ensures
        first == second,
{
}

/// The picture has `height + 2` lines of `width + 2` characters, each ended by a newline:
/// a `+---+` border line above and below, and `|`-framed grid rows between them.
/// (A newline among the glyphs would split a row, so the alphabet holds none.)
pub proof fn picture_shape(fp: Seq<u8>, height: int, width: int, alphabet: Seq<u8>)
    requires
        valid_mode(height, width, alphabet.len() as int),
        forall|i: int| 0 <= i < alphabet.len() ==> #[trigger] alphabet[i] as char != '\n',
    ensures
        rendered(fp, height, width, alphabet).len() == (height + 2) * (width + 3),
        forall|p: int|
            0 <= p < rendered(fp, height, width, alphabet).len() ==> (#[trigger] rendered(
                fp,
                height,
                width,
                alphabet,
            )[p] == '\n' <==> p % (width + 3) == width + 2),
        forall|col: int|
            0 <= col <= width + 1 ==> #[trigger] char_at(
                rendered(fp, height, width, alphabet),
                width,
                0,
                col,
            ) == border_char(width, col),
        forall|col: int|
            0 <= col <= width + 1 ==> #[trigger] char_at(
                rendered(fp, height, width, alphabet),
                width,
                height + 1,
                col,
            ) == border_char(width, col),
        forall|line: int|
            1 <= line <= height ==> #[trigger] char_at(
                rendered(fp, height, width, alphabet),
                width,
                line,
                0,
            ) == '|' && char_at(rendered(fp, height, width, alphabet), width, line, width + 1)
                == '|',
{
    let s = rendered(fp, height, width, alphabet);
    let n = line_len(width);
    assert forall|p: int| 0 <= p < s.len() implies (#[trigger] s[p] == '\n' <==> p % n == width
        + 2) by {
        let (line, col) = (p / n, p % n);
        vstd::arithmetic::div_mod::lemma_fundamental_div_mod(p, n);
        vstd::arithmetic::div_mod::lemma_mod_pos_bound(p, n);
        if 1 <= line <= height && 1 <= col <= width {
            lemma_glyph_index_in_alphabet(
                fp,
                height,
                width,
                alphabet.len() as int,
                line - 1,
                col - 1,
            );
        }
    }
    assert forall|col: int| 0 <= col <= width + 1 implies #[trigger] char_at(s, width, 0, col)
        == border_char(width, col) by {
        lemma_picture_at(fp, height, width, alphabet, 0, col);
    }
    assert forall|col: int| 0 <= col <= width + 1 implies #[trigger] char_at(
        s,
        width,
        height + 1,
        col,
    ) == border_char(width, col) by {
        lemma_picture_at(fp, height, width, alphabet, height + 1, col);
    }
    assert forall|line: int| 1 <= line <= height implies #[trigger] char_at(s, width, line, 0)
        == '|' && char_at(s, width, line, width + 1) == '|' by {
        lemma_picture_at(fp, height, width, alphabet, line, 0);
        lemma_picture_at(fp, height, width, alphabet, line, width + 1);
    }
}

/// Cell `(row, col)` of the picture shows the glyph of its glyph index.
proof fn lemma_cell_char(fp: Seq<u8>, height: int, width: int, alphabet: Seq<u8>, row: int, col: int)
    requires
        valid_mode(height, width, alphabet.len() as int),
        on_grid((row, col), height, width),
    ensures
        cell_char(rendered(fp, height, width, alphabet), width, row, col) == alphabet[glyph_index(
            fp,
            height,
            width,
            alphabet.len() as int,
            row,
            col,
        )] as char,
{
    lemma_picture_at(fp, height, width, alphabet, row + 1, col + 1);
}

/// Where the walk ends away from the center, the end glyph shows on the final position
/// only and the start glyph on the center only, provided that no other glyph of the
/// alphabet is written like either marker.
pub proof fn markers_unique(fp: Seq<u8>, height: int, width: int, alphabet: Seq<u8>)
    requires
        valid_mode(height, width, alphabet.len() as int),
        final_position(fp, height, width) != center(height, width),
        forall|i: int|
            0 <= i < alphabet.len() - 1 ==> #[trigger] alphabet[i] != alphabet[alphabet.len() - 1],
        forall|i: int|
            0 <= i < alphabet.len() && i != alphabet.len() - 2 ==> #[trigger] alphabet[i]
                != alphabet[alphabet.len() - 2],
    ensures
        ({
            let s = rendered(fp, height, width, alphabet);
            let end = final_position(fp, height, width);
            let start = center(height, width);
            &&& cell_char(s, width, end.0, end.1) == alphabet.last() as char
            &&& cell_char(s, width, start.0, start.1) == alphabet[alphabet.len() - 2] as char
            &&& forall|row: int, col: int|
                on_grid((row, col), height, width) && #[trigger] cell_char(s, width, row, col)
                    == alphabet.last() as char ==> (row, col) == end
            &&& forall|row: int, col: int|
                on_grid((row, col), height, width) && #[trigger] cell_char(s, width, row, col)
                    == alphabet[alphabet.len() - 2] as char ==> (row, col) == start
        }),
{
    let s = rendered(fp, height, width, alphabet);
    let n = alphabet.len() as int;
    let end = final_position(fp, height, width);
    let start = center(height, width);
    position_on_grid(fp, height, width, steps(fp));
    lemma_cell_char(fp, height, width, alphabet, end.0, end.1);
    lemma_cell_char(fp, height, width, alphabet, start.0, start.1);
    assert forall|row: int, col: int|
        on_grid((row, col), height, width) && #[trigger] cell_char(s, width, row, col)
            == alphabet.last() as char implies (row, col) == end by {
        lemma_cell_char(fp, height, width, alphabet, row, col);
        let g = glyph_index(fp, height, width, n, row, col);
        lemma_glyph_index_in_alphabet(fp, height, width, n, row, col);
        if g != n - 1 {
            assert(alphabet[g] != alphabet[n - 1]);
        }
    }
    assert forall|row: int, col: int|
        on_grid((row, col), height, width) && #[trigger] cell_char(s, width, row, col)
            == alphabet[alphabet.len() - 2] as char implies (row, col) == start by {
        lemma_cell_char(fp, height, width, alphabet, row, col);
        let g = glyph_index(fp, height, width, n, row, col);
        lemma_glyph_index_in_alphabet(fp, height, width, n, row, col);
        if g != n - 2 {
            assert(alphabet[g] != alphabet[n - 2]);
        }
    }
}

/// Where the walk ends on the center, the center shows the end glyph: the end marker is
/// written after the start marker.
pub proof fn end_marker_wins_on_center(fp: Seq<u8>, height: int, width: int, alphabet: Seq<u8>)
    requires
        valid_mode(height, width, alphabet.len() as int),
        final_position(fp, height, width) == center(height, width),
    ensures
        cell_char(rendered(fp, height, width, alphabet), width, height / 2, width / 2)
            == alphabet.last() as char,
{
    lemma_cell_char(fp, height, width, alphabet, height / 2, width / 2);
}

/// An empty fingerprint leaves the end glyph on the center and the zero-visit glyph on
/// every other cell.
pub proof fn empty_fingerprint_picture(height: int, width: int, alphabet: Seq<u8>)
    requires
        valid_mode(height, width, alphabet.len() as int),
    ensures
        forall|row: int, col: int|
            on_grid((row, col), height, width) ==> #[trigger] cell_char(
                rendered(Seq::empty(), height, width, alphabet),
                width,
                row,
                col,
            ) == if (row, col) == center(height, width) {
                alphabet.last() as char
            } else {
                alphabet[0] as char
            },
{
    let fp = Seq::<u8>::empty();
    assert forall|row: int, col: int| on_grid((row, col), height, width) implies #[trigger] cell_char(
        rendered(fp, height, width, alphabet),
        width,
        row,
        col,
    ) == if (row, col) == center(height, width) {
        alphabet.last() as char
    } else {
        alphabet[0] as char
    } by {
        lemma_cell_char(fp, height, width, alphabet, row, col);
        assert(steps(fp) == 0);
    }
}

} // verus!
