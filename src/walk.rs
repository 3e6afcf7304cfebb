//! The bishop's walk over the grid and the visit counts it leaves.
use vstd::arithmetic::div_mod::lemma_fundamental_div_mod_converse;
use vstd::prelude::*;

verus! {

/// `value` limited to the closed interval `[minimum, maximum]`.
pub open spec fn clamped(minimum: int, value: int, maximum: int) -> int {
    if value < minimum {
        minimum
    } else if value > maximum {
        maximum
    } else {
        value
    }
}

/// The movement code held in bits `2 * g` and `2 * g + 1` of `b`.
pub open spec fn code_of(b: u8, g: int) -> u8 {
    (b >> ((2 * g) as u8)) & 3u8
}

/// The code of step `k` (counted from 0): bytes in order, bit pairs of a byte from the lowest.
pub open spec fn step_code(fp: Seq<u8>, k: int) -> u8 {
    code_of(fp[k / 4], k % 4)
}

/// The `(row, column)` offset selected by a movement code.
pub open spec fn movement(code: u8) -> (int, int) {
    if code == 0 {
        (-1, -1)
    } else if code == 1 {
        (-1, 1)
    } else if code == 2 {
        (1, -1)
    } else {
        (1, 1)
    }
}

/// The cell where the walk starts: the grid's center.
pub open spec fn center(height: int, width: int) -> (int, int) {
    (height / 2, width / 2)
}

/// The bishop's position after the first `n` steps of the walk over `fp`.
pub open spec fn position(fp: Seq<u8>, height: int, width: int, n: nat) -> (int, int)
    decreases n,
{
    if n == 0 {
        center(height, width)
    } else {
        let p = position(fp, height, width, (n - 1) as nat);
        let d = movement(step_code(fp, n - 1));
        (clamped(0, p.0 + d.0, height - 1), clamped(0, p.1 + d.1, width - 1))
    }
}

/// The number of steps among the first `n` that land on `(row, col)`.
pub open spec fn visits(fp: Seq<u8>, height: int, width: int, n: nat, row: int, col: int) -> nat
    decreases n,
{
    if n == 0 {
        0
    } else {
        visits(fp, height, width, (n - 1) as nat, row, col) + if position(fp, height, width, n)
            == (row, col) {
            1nat
        } else {
            0nat
        }
    }
}

/// The number of steps of the whole walk over `fp`: four per byte.
pub open spec fn steps(fp: Seq<u8>) -> nat {
    4 * fp.len()
}

/// Where the walk over `fp` ends.
pub open spec fn final_position(fp: Seq<u8>, height: int, width: int) -> (int, int) {
    position(fp, height, width, steps(fp))
}

/// `(row, col)` lies on a `height` by `width` grid.
pub open spec fn on_grid(p: (int, int), height: int, width: int) -> bool {
    0 <= p.0 < height && 0 <= p.1 < width
}

/// The outcome of a walk: visit counts in row-major order and the final position.
pub struct Walk {
    pub counts: Vec<usize>,
    pub row: usize,
    pub col: usize,
}

impl Walk {
    /// `self` is the complete walk over `fp` on a `height` by `width` grid.
    pub open spec fn is_walk_of(&self, fp: Seq<u8>, height: int, width: int) -> bool {
        &&& self.counts@.len() == height * width
        &&& forall|i: int|
            0 <= i < height * width ==> #[trigger] self.counts@[i] == visits(
                fp,
                height,
                width,
                steps(fp),
                i / width,
                i % width,
            )
        &&& (self.row as int, self.col as int) == final_position(fp, height, width)
    }
}

/// `value` clamped into `[minimum, maximum]`.
pub fn in_range(minimum: isize, value: isize, maximum: isize) -> (r: isize)
    requires
        minimum <= maximum,
    ensures
        r == clamped(minimum as int, value as int, maximum as int),
{
    if value < minimum {
        minimum
    } else if value > maximum {
        maximum
    } else {
        value
    }
}

/// The offset of `code`, which is below 4.
fn move_for(code: u8) -> (r: (isize, isize))
    requires
        code < 4,
    ensures
        (r.0 as int, r.1 as int) == movement(code),
{
    if code == 0 {
        (-1, -1)
    } else if code == 1 {
        (-1, 1)
    } else if code == 2 {
        (1, -1)
    } else {
        (1, 1)
    }
}

/// Row-major index `row * width + col` is the cell `(row, col)`.
pub(crate) proof fn lemma_cell_index(row: int, col: int, height: int, width: int)
    requires
        0 <= row < height,
        0 <= col < width,
    ensures
        0 <= row * width + col < height * width,
        (row * width + col) / width == row,
        (row * width + col) % width == col,
{
    lemma_fundamental_div_mod_converse(row * width + col, width, row, col);
    vstd::arithmetic::mul::lemma_mul_inequality(row, height - 1, width);
    vstd::arithmetic::mul::lemma_mul_nonnegative(row, width);
    assert((height - 1) * width == height * width - width) by (nonlinear_arith);
}

/// Walks the bishop over `fingerprint` on a `height` by `width` grid from its center.
///
/// Each byte gives four steps, its lowest bit pair first; a move that would leave
/// the grid stops at its edge, and every step adds one to the cell it lands on.
pub fn walk(fingerprint: &[u8], height: usize, width: usize) -> (r: Walk)
    requires
        height >= 1,
        width >= 1,
        height * width <= isize::MAX,
        fingerprint@.len() <= usize::MAX / 4,
    ensures
        r.is_walk_of(fingerprint@, height as int, width as int),
{
    let ghost fp = fingerprint@;
    let ghost h = height as int;
    let ghost w = width as int;
    proof {
        assert(height <= height * width && width <= height * width) by (nonlinear_arith)
            requires
                width >= 1,
                height >= 1,
        ;
    }
    let mut counts: Vec<usize> = vec![0usize; height * width];
    let mut row: usize = height / 2;
    let mut col: usize = width / 2;
    assert forall|i: int| 0 <= i < h * w implies #[trigger] counts@[i] == visits(
        fp,
        h,
        w,
        0,
        i / w,
        i % w,
    ) by {}
    let mut b: usize = 0;
    while b < fingerprint.len()
        invariant
            fp == fingerprint@,
            h == height,
            w == width,
            height >= 1,
            width >= 1,
            height * width <= isize::MAX,
            height <= isize::MAX,
            width <= isize::MAX,
            fp.len() <= usize::MAX / 4,
            0 <= b <= fp.len(),
            counts@.len() == h * w,
            forall|i: int|
                0 <= i < h * w ==> #[trigger] counts@[i] == visits(fp, h, w, 4 * b as nat, i / w, i % w),
            (row as int, col as int) == position(fp, h, w, 4 * b as nat),
            row < height,
            col < width,
        decreases fp.len() - b,
    {
        let byte: u8 = fingerprint[b];
        let mut g: u8 = 0;
        while g < 4
            invariant
                fp == fingerprint@,
                h == height,
                w == width,
                height >= 1,
                width >= 1,
                height * width <= isize::MAX,
                height <= isize::MAX,
                width <= isize::MAX,
                fp.len() <= usize::MAX / 4,
                0 <= b < fp.len(),
                byte == fp[b as int],
                0 <= g <= 4,
                counts@.len() == h * w,
                forall|i: int|
                    0 <= i < h * w ==> #[trigger] counts@[i] == visits(
                        fp,
                        h,
                        w,
                        (4 * b + g) as nat,
                        i / w,
                        i % w,
                    ),
                (row as int, col as int) == position(fp, h, w, (4 * b + g) as nat),
                row < height,
                col < width,
            decreases 4 - g,
        {
            let code: u8 = (byte >> (2 * g)) & 3;
            let ghost k: int = 4 * b + g;
            proof {
                assert(code < 4) by (bit_vector)
                    requires
                        code == (byte >> (2 * g)) & 3,
                ;
                assert(k / 4 == b && k % 4 == g);
                assert(code == step_code(fp, k));
            }
            let (dr, dc) = move_for(code);
            row = in_range(0, row as isize + dr, height as isize - 1) as usize;
            col = in_range(0, col as isize + dc, width as isize - 1) as usize;
            assert((row as int, col as int) == position(fp, h, w, (k + 1) as nat));
            proof {
                lemma_cell_index(row as int, col as int, h, w);
            }
            let idx: usize = row * width + col;
            proof {
                assert(counts@[idx as int] == visits(fp, h, w, k as nat, row as int, col as int));
                assert(visits(fp, h, w, k as nat, row as int, col as int) <= k) by {
                    lemma_visits_bounded(fp, h, w, k as nat, row as int, col as int);
                }
            }
            counts.set(idx, counts[idx] + 1);
            assert forall|i: int| 0 <= i < h * w implies #[trigger] counts@[i] == visits(
                fp,
                h,
                w,
                (k + 1) as nat,
                i / w,
                i % w,
            ) by {
                assert(visits(fp, h, w, (k + 1) as nat, i / w, i % w) == visits(
                    fp,
                    h,
                    w,
                    k as nat,
                    i / w,
                    i % w,
                ) + if position(fp, h, w, (k + 1) as nat) == (i / w, i % w) {
                    1nat
                } else {
                    0nat
                });
                if i != idx {
                    vstd::arithmetic::div_mod::lemma_fundamental_div_mod(i, w);
                    if i / w == row as int && i % w == col as int {
                        assert(w * (i / w) == row * w) by (nonlinear_arith)
                            requires
                                i / w == row as int,
                        ;
                    }
                }
            }
            g = g + 1;
        }
        b = b + 1;
    }
    Walk { counts, row, col }
}

/// The bishop never leaves the grid.
pub proof fn position_on_grid(fp: Seq<u8>, height: int, width: int, n: nat)
    requires
        height >= 1,
        width >= 1,
    ensures
        on_grid(position(fp, height, width, n), height, width),
    decreases n,
{
    if n > 0 {
        position_on_grid(fp, height, width, (n - 1) as nat);
    }
}

/// No cell is visited more often than there are steps.
proof fn lemma_visits_bounded(fp: Seq<u8>, height: int, width: int, n: nat, row: int, col: int)
    ensures
        visits(fp, height, width, n, row, col) <= n,
    decreases n,
{
    if n > 0 {
        lemma_visits_bounded(fp, height, width, (n - 1) as nat, row, col);
    }
}

} // verus!
