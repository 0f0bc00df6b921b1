//! The row-major model of a grid: offsets, rows, neighbourhoods, and the
//! arithmetic facts the grid's proofs rest on.
use vstd::prelude::*;

verus! {

/// Offset of cell `(x, y)` in a row-major buffer of the given width.
pub open spec fn linear_index(x: int, y: int, width: int) -> int {
    y * width + x
}

/// Whether `(x, y)` names a cell of a `width` by `height` grid.
pub open spec fn in_grid(x: int, y: int, width: int, height: int) -> bool {
    0 <= x < width && 0 <= y < height
}

/// The cells reached from `(x, y)` by each offset in turn, keeping only
/// those inside a `width` by `height` grid, in the order of the offsets.
pub open spec fn neighbor_coords(
    offsets: Seq<(int, int)>,
    x: int,
    y: int,
    width: int,
    height: int,
) -> Seq<(int, int)>
    decreases offsets.len(),
{
    if offsets.len() == 0 {
        Seq::empty()
    } else {
        let before = neighbor_coords(offsets.drop_last(), x, y, width, height);
        let (dx, dy) = offsets.last();
        if in_grid(x + dx, y + dy, width, height) {
            before.push((x + dx, y + dy))
        } else {
            before
        }
    }
}

/// North, west, east, south.
pub open spec fn von_neumann_offsets() -> Seq<(int, int)> {
    seq![(0, -1), (-1, 0), (1, 0), (0, 1)]
}

/// The eight surrounding cells, scanning the 3x3 block row by row:
/// north-west, north, north-east, west, east, south-west, south, south-east.
pub open spec fn moore_offsets() -> Seq<(int, int)> {
    seq![(-1, -1), (0, -1), (1, -1), (-1, 0), (1, 0), (-1, 1), (0, 1), (1, 1)]
}

/// The coordinates of a list of `((x, y), value)` entries, as integers.
pub open spec fn coords_of<V>(entries: Seq<((usize, usize), V)>) -> Seq<(int, int)> {
    entries.map_values(|e: ((usize, usize), V)| (e.0.0 as int, e.0.1 as int))
}

/// Offset `y * width + x` is inside a buffer of `len` cells when `(x, y)`
/// is inside the grid of that width.
pub(crate) proof fn lemma_offset_in_bounds(x: int, y: int, width: int, len: int)
    requires
        0 <= x < width,
        0 <= y < len / width,
        0 <= len,
    ensures
        0 <= y * width + x < len,
        y < len,
{
    vstd::arithmetic::div_mod::lemma_fundamental_div_mod(len, width);
    vstd::arithmetic::mul::lemma_mul_inequality(y + 1, len / width, width);
    vstd::arithmetic::mul::lemma_mul_nonnegative(y, width);
    assert((y + 1) * width == y * width + width) by (nonlinear_arith);
    assert(width * (len / width) == (len / width) * width) by (nonlinear_arith);
    assert(y <= y * width) by (nonlinear_arith)
        requires
            0 <= y,
            1 <= width,
    ;
}

/// A grid never has more rows than cells.
pub(crate) proof fn lemma_height_le_len(len: int, width: int)
    requires
        0 <= len,
        1 <= width,
    ensures
        0 <= len / width <= len,
{
    vstd::arithmetic::div_mod::lemma_fundamental_div_mod(len, width);
    vstd::arithmetic::div_mod::lemma_div_pos_is_pos(len, width);
    assert(len / width <= width * (len / width)) by (nonlinear_arith)
        requires
            0 <= len / width,
            1 <= width,
    ;
}

/// Row `y` of a grid with `len` cells spans offsets `y * width` up to
/// `(y + 1) * width`, inside the buffer.
pub(crate) proof fn lemma_row_in_bounds(y: int, width: int, len: int)
    requires
        0 <= y < len / width,
        0 < width,
        0 <= len,
    ensures
        0 <= y * width,
        y * width + width == (y + 1) * width,
        (y + 1) * width <= len,
{
    lemma_offset_in_bounds(width - 1, y, width, len);
    assert((y + 1) * width == y * width + width) by (nonlinear_arith);
    vstd::arithmetic::mul::lemma_mul_nonnegative(y, width);
}

/// `inserted` placed before offset `at` of `cells`.
pub open spec fn spliced<T>(cells: Seq<T>, at: int, inserted: Seq<T>) -> Seq<T> {
    cells.subrange(0, at) + inserted + cells.subrange(at, cells.len() as int)
}

/// `cells` without the `width` cells of row `y`.
pub open spec fn without_row<T>(cells: Seq<T>, y: int, width: int) -> Seq<T> {
    cells.subrange(0, y * width) + cells.subrange((y + 1) * width, cells.len() as int)
}

/// Taking one row from whole rows leaves whole rows.
pub(crate) proof fn lemma_remove_row(len: int, width: int)
    requires
        0 < width <= len,
        len % width == 0,
    ensures
        (len - width) % width == 0,
{
    vstd::arithmetic::div_mod::lemma_mod_sub_multiples_vanish(len, width);
}

/// The first `new_width` cells of each `width`-cell row of `cells`, row
/// after row.
pub open spec fn kept_columns<T>(cells: Seq<T>, width: int, new_width: int) -> Seq<T> {
    Seq::new(
        ((cells.len() as int / width) * new_width) as nat,
        |i: int| cells[(i / new_width) * width + i % new_width],
    )
}

/// Whole rows added to whole rows leave whole rows.
pub(crate) proof fn lemma_add_rows(a: int, b: int, width: int)
    requires
        0 < width,
        a % width == 0,
        b % width == 0,
    ensures
        (a + b) % width == 0,
{
    vstd::arithmetic::div_mod::lemma_add_mod_noop(a, b, width);
    vstd::arithmetic::div_mod::lemma_small_mod(0, width as nat);
}

/// A buffer of `width * height` cells is `height` rows of `width`.
pub(crate) proof fn lemma_dims(width: int, height: int)
    requires
        0 < width,
        0 <= height,
    ensures
        (width * height) % width == 0,
        (width * height) / width == height,
{
    vstd::arithmetic::mul::lemma_mul_is_commutative(width, height);
    vstd::arithmetic::div_mod::lemma_fundamental_div_mod_converse(width * height, width, height, 0);
}

/// Rows that all hold `width` cells flatten to `rows.len() * width` cells.
pub proof fn lemma_flatten_uniform<T>(rows: Seq<Seq<T>>, width: int)
    requires
        0 <= width,
    ensures
        (forall|y: int| 0 <= y < rows.len() ==> #[trigger] rows[y].len() == width) ==> rows.flatten().len()
            == rows.len() * width,
    decreases rows.len(),
{
    if rows.len() > 0 {
        lemma_flatten_uniform(rows.drop_first(), width);
        if forall|y: int| 0 <= y < rows.len() ==> #[trigger] rows[y].len() == width {
            assert forall|y: int| 0 <= y < rows.drop_first().len() implies #[trigger] rows.drop_first()[y].len()
                == width by {
                assert(rows.drop_first()[y] == rows[y + 1]);
            }
            assert(rows[0].len() == width);
            assert(rows.len() * width == width + (rows.len() - 1) * width) by (nonlinear_arith);
        }
    }
}

} // verus!
