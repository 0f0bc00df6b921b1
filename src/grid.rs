use vstd::prelude::*;
use crate::error::Vec2DErr;
use crate::model::{
    coords_of, in_grid, kept_columns, lemma_add_rows, lemma_dims, lemma_height_le_len,
    lemma_flatten_uniform, lemma_offset_in_bounds, lemma_remove_row, lemma_row_in_bounds, linear_index, moore_offsets,
    neighbor_coords, spliced, von_neumann_offsets, without_row,
};

verus! {

/// A 2D grid stored row by row in one contiguous vector.
///
/// Cell `(x, y)` lives at offset `y * width + x`; `(0, 0)` is the top-left
/// corner. The height is never stored: it is the length divided by the width.
#[derive(Debug, Clone, PartialEq, Eq, Hash)]
pub struct Vec2D<T> {
    cells: Vec<T>,
    width: usize,
}

impl<T> View for Vec2D<T> {
    type V = Seq<T>;

    /// The cells, in row-major order.
    closed spec fn view(&self) -> Seq<T> {
        self.cells@
    }
}

impl<T> Vec2D<T> {
    /// The number of cells in each row.
    pub closed spec fn spec_width(&self) -> nat {
        self.width as nat
    }

    /// The number of rows.
    pub open spec fn spec_height(&self) -> nat {
        self@.len() / self.spec_width()
    }

    /// The cells of row `y`.
    pub open spec fn spec_row(&self, y: int) -> Seq<T> {
        self@.subrange(y * self.spec_width(), (y + 1) * self.spec_width())
    }

    /// What `from_vec(vec, width)` gives back.
    pub closed spec fn spec_from_vec(vec: Vec<T>, width: usize) -> Result<Self, Vec2DErr> {
        if width == 0 {
            Err(Vec2DErr::ZeroWidth)
        } else if vec@.len() == 0 {
            Err(Vec2DErr::EmptySource)
        } else if vec@.len() % (width as nat) != 0 {
            Err(Vec2DErr::WidthMismatch(vec@.len() as usize, width))
        } else {
            Ok(Vec2D { cells: vec, width })
        }
    }

    /// The grid's invariant: a positive width that divides the length.
    pub open spec fn wf(&self) -> bool {
        &&& self.spec_width() > 0
        &&& self@.len() % self.spec_width() == 0
    }

    /// A `width` by `height` grid whose cells are clones of the type's
    /// default value.
    pub fn new(width: usize, height: usize) -> (r: Result<Self, Vec2DErr>) where T: Default + Clone
        requires
            width * height <= usize::MAX,
        ensures
            width == 0 ==> r == Err::<Self, Vec2DErr>(Vec2DErr::ZeroWidth),
            width > 0 && height == 0 ==> r == Err::<Self, Vec2DErr>(Vec2DErr::ZeroHeight),
            width > 0 && height > 0 <==> r is Ok,
            r matches Ok(g) ==> {
                &&& g.wf()
                &&& g.spec_width() == width
                &&& g.spec_height() == height
                &&& g@.len() == width * height
                &&& exists|d: T|
                    call_ensures(T::default, (), d) && forall|i: int|
                        0 <= i < g@.len() ==> cloned(d, #[trigger] g@[i])
            },
    {
        if width == 0 {
            return Err(Vec2DErr::ZeroWidth);
        } else if height == 0 {
            return Err(Vec2DErr::ZeroHeight);
        }
        let d = T::default();
        let cells = vec![d; width * height];
        proof {
            lemma_dims(width as int, height as int);
        }
        Ok(Vec2D { cells, width })
    }

    /// A `width` by `height` grid whose cells are clones of `default`.
    pub fn new_with_default(width: usize, height: usize, default: T) -> (r: Result<Self, Vec2DErr>) where T: Clone
        requires
            width * height <= usize::MAX,
        ensures
            width == 0 ==> r == Err::<Self, Vec2DErr>(Vec2DErr::ZeroWidth),
            width > 0 && height == 0 ==> r == Err::<Self, Vec2DErr>(Vec2DErr::ZeroHeight),
            width > 0 && height > 0 <==> r is Ok,
            r matches Ok(g) ==> {
                &&& g.wf()
                &&& g.spec_width() == width
                &&& g.spec_height() == height
                &&& g@.len() == width * height
                &&& forall|i: int| 0 <= i < g@.len() ==> cloned(default, #[trigger] g@[i])
            },
    {
        if width == 0 {
            return Err(Vec2DErr::ZeroWidth);
        } else if height == 0 {
            return Err(Vec2DErr::ZeroHeight);
        }
        let cells = vec![default; width * height];
        proof {
            lemma_dims(width as int, height as int);
        }
        Ok(Vec2D { cells, width })
    }

    /// A `width` by `height` grid filled by calling `constructor` once per
    /// cell, in row-major order.
    pub fn new_with_constructor(
        width: usize,
        height: usize,
        constructor: impl Fn() -> T,
    ) -> (r: Result<Self, Vec2DErr>)
        requires
            width * height <= usize::MAX,
            constructor.requires(()),
        ensures
            width == 0 ==> r == Err::<Self, Vec2DErr>(Vec2DErr::ZeroWidth),
            width > 0 && height == 0 ==> r == Err::<Self, Vec2DErr>(Vec2DErr::ZeroHeight),
            width > 0 && height > 0 <==> r is Ok,
            r matches Ok(g) ==> {
                &&& g.wf()
                &&& g.spec_width() == width
                &&& g.spec_height() == height
                &&& g@.len() == width * height
                &&& forall|i: int| 0 <= i < g@.len() ==> constructor.ensures((), #[trigger] g@[i])
            },
    {
        if width == 0 {
            return Err(Vec2DErr::ZeroWidth);
        } else if height == 0 {
            return Err(Vec2DErr::ZeroHeight);
        }
        let n = width * height;
        let mut cells: Vec<T> = Vec::with_capacity(n);
        let mut i: usize = 0;
        while i < n
            invariant
                i <= n,
                cells@.len() == i,
                constructor.requires(()),
                forall|k: int| 0 <= k < i ==> constructor.ensures((), #[trigger] cells@[k]),
            decreases n - i,
        {
            cells.push(constructor());
            i += 1;
        }
        proof {
            lemma_dims(width as int, height as int);
        }
        Ok(Vec2D { cells, width })
    }

    /// Wraps `vec` as a grid `width` cells wide, without copying.
    pub fn from_vec(vec: Vec<T>, width: usize) -> (r: Result<Self, Vec2DErr>)
        ensures
            width == 0 ==> r == Err::<Self, Vec2DErr>(Vec2DErr::ZeroWidth),
            width > 0 && vec@.len() == 0 ==> r == Err::<Self, Vec2DErr>(Vec2DErr::EmptySource),
            width > 0 && vec@.len() > 0 && vec@.len() % (width as nat) != 0 ==> r == Err::<
                Self,
                Vec2DErr,
            >(Vec2DErr::WidthMismatch(vec.len(), width)),
            width > 0 && vec@.len() > 0 && vec@.len() % (width as nat) == 0 <==> r is Ok,
            r matches Ok(g) ==> g.wf() && g@ == vec@ && g.spec_width() == width,
            r == Self::spec_from_vec(vec, width),
    {
        if width == 0 {
            return Err(Vec2DErr::ZeroWidth);
        } else if vec.is_empty() {
            return Err(Vec2DErr::EmptySource);
        }
        if vec.len() % width != 0 {
            return Err(Vec2DErr::WidthMismatch(vec.len(), width));
        }
        Ok(Vec2D { cells: vec, width })
    }

    /// A cell inside the grid has an offset inside the buffer.
    proof fn lemma_cell(&self, x: int, y: int)
        requires
            self.wf(),
            in_grid(x, y, self.spec_width() as int, self.spec_height() as int),
        ensures
            0 <= y * self.spec_width(),
            0 <= linear_index(x, y, self.spec_width() as int) < self@.len(),
            self@.len() <= usize::MAX,
    {
        lemma_offset_in_bounds(x, y, self.width as int, self@.len() as int);
        vstd::arithmetic::mul::lemma_mul_nonnegative(y, self.width as int);
        assert(self.cells.len() as int == self@.len());
    }

    /// The cells, in row-major order.
    pub fn cells(&self) -> (r: &[T])
        ensures
            r@ == self@,
    {
        self.cells.as_slice()
    }

    /// The number of cells in each row.
    pub fn width(&self) -> (r: usize)
        ensures
            r == self.spec_width(),
    {
        self.width
    }

    /// The number of rows: the length divided by the width.
    pub fn height(&self) -> (r: usize)
        requires
            self.wf(),
        ensures
            r == self.spec_height(),
    {
        self.cells.len() / self.width
    }

    /// The offset of cell `(x, y)`, or `None` outside the grid.
    pub fn index_of(&self, x: usize, y: usize) -> (r: Option<usize>)
        requires
            self.wf(),
        ensures
            r == if in_grid(x as int, y as int, self.spec_width() as int, self.spec_height() as int) {
                Some(linear_index(x as int, y as int, self.spec_width() as int) as usize)
            } else {
                None::<usize>
            },
            r matches Some(i) ==> i < self@.len() && i == linear_index(
                x as int,
                y as int,
                self.spec_width() as int,
            ),
    {
        if x < self.width && y < self.height() {
            proof {
                self.lemma_cell(x as int, y as int);
            }
            Some(y * self.width + x)
        } else {
            None
        }
    }

    /// The coordinates of the cell at offset `index`, or `None` past the end.
    pub fn coords(&self, index: usize) -> (r: Option<(usize, usize)>)
        requires
            self.wf(),
        ensures
            r == if index < self@.len() {
                Some(
                    (
                        (index as int % self.spec_width() as int) as usize,
                        (index as int / self.spec_width() as int) as usize,
                    ),
                )
            } else {
                None::<(usize, usize)>
            },
    {
        if index < self.cells.len() {
            Some((index % self.width, index / self.width))
        } else {
            None
        }
    }

    /// The offset of `(x, y)` in a row-major buffer `width` cells wide.
    pub fn create_index(x: usize, y: usize, width: usize) -> (r: usize)
        requires
            y * width + x <= usize::MAX,
        ensures
            r == linear_index(x as int, y as int, width as int),
    {
        proof {
            vstd::arithmetic::mul::lemma_mul_nonnegative(y as int, width as int);
        }
        y * width + x
    }

    /// The coordinates of offset `index` in a row-major buffer `width`
    /// cells wide.
    pub fn create_coords(index: usize, width: usize) -> (r: (usize, usize))
        requires
            width > 0,
        ensures
            r.0 == index as int % width as int,
            r.1 == index as int / width as int,
    {
        (index % width, index / width)
    }

    /// The cell at `(x, y)`, or `None` outside the grid.
    pub fn get(&self, x: usize, y: usize) -> (r: Option<&T>)
        requires
            self.wf(),
        ensures
            r == if in_grid(x as int, y as int, self.spec_width() as int, self.spec_height() as int) {
                Some(&self@[linear_index(x as int, y as int, self.spec_width() as int)])
            } else {
                None::<&T>
            },
    {
        if x >= self.width || y >= self.height() {
            return None;
        }
        proof {
            self.lemma_cell(x as int, y as int);
        }
        Some(&self.cells[y * self.width + x])
    }

    /// The cell at `(x, y)` for writing, or `None` outside the grid.
    pub fn get_mut(&mut self, x: usize, y: usize) -> (r: Option<&mut T>)
        requires
            old(self).wf(),
        ensures
            final(self).spec_width() == old(self).spec_width(),
            in_grid(
                x as int,
                y as int,
                old(self).spec_width() as int,
                old(self).spec_height() as int,
            ) <==> r is Some,
            r is None ==> final(self)@ == old(self)@,
            r matches Some(c) ==> {
                let i = linear_index(x as int, y as int, old(self).spec_width() as int);
                &&& *c == old(self)@[i]
                &&& final(self)@ == old(self)@.update(i, *final(c))
            },
            final(self).wf(),
    {
        if x >= self.width || y >= self.height() {
            return None;
        }
        proof {
            self.lemma_cell(x as int, y as int);
        }
        Some(&mut self.cells[y * self.width + x])
    }

    /// Row `y` as a slice of `width` cells, or `None` past the last row.
    pub fn get_row(&self, y: usize) -> (r: Option<&[T]>)
        requires
            self.wf(),
        ensures
            y < self.spec_height() <==> r is Some,
            r matches Some(row) ==> row@ == self.spec_row(y as int),
    {
        if y >= self.cells.len() / self.width {
            return None;
        }
        proof {
            lemma_row_in_bounds(y as int, self.width as int, self@.len() as int);
        }
        let start = y * self.width;
        let end = (y + 1) * self.width;
        Some(&self.cells.as_slice()[start..end])
    }

    /// Appends `row`, one or more rows of cells, below the last row.
    pub fn extend(&mut self, row: Vec<T>) -> (r: Result<(), Vec2DErr>)
        requires
            old(self).wf(),
            old(self)@.len() + row@.len() <= usize::MAX,
        ensures
            final(self).wf(),
            final(self).spec_width() == old(self).spec_width(),
            row@.len() % old(self).spec_width() != 0 ==> r == Err::<(), Vec2DErr>(
                Vec2DErr::WidthMismatch(row@.len() as usize, old(self).spec_width() as usize),
            ) && final(self)@ == old(self)@,
            row@.len() % old(self).spec_width() == 0 ==> r is Ok && final(self)@ == old(self)@
                + row@,
    {
        if row.len() % self.width != 0 {
            return Err(Vec2DErr::WidthMismatch(row.len(), self.width));
        }
        let mut row = row;
        proof {
            lemma_add_rows(self@.len() as int, row@.len() as int, self.width as int);
        }
        self.cells.append(&mut row);
        Ok(())
    }

    /// Appends clones of `row`, one or more rows of cells, below the last
    /// row, leaving `row` as it was.
    pub fn extend_cloned(&mut self, row: &[T]) -> (r: Result<(), Vec2DErr>) where T: Clone
        requires
            old(self).wf(),
            old(self)@.len() + row@.len() <= usize::MAX,
        ensures
            final(self).wf(),
            final(self).spec_width() == old(self).spec_width(),
            row@.len() % old(self).spec_width() != 0 ==> r == Err::<(), Vec2DErr>(
                Vec2DErr::WidthMismatch(row@.len() as usize, old(self).spec_width() as usize),
            ) && final(self)@ == old(self)@,
            row@.len() % old(self).spec_width() == 0 ==> {
                &&& r is Ok
                &&& final(self)@.len() == old(self)@.len() + row@.len()
                &&& final(self)@.subrange(0, old(self)@.len() as int) == old(self)@
                &&& forall|i: int|
                    0 <= i < row@.len() ==> cloned(
                        row@[i],
                        #[trigger] final(self)@[old(self)@.len() + i],
                    )
            },
    {
        if row.len() % self.width != 0 {
            return Err(Vec2DErr::WidthMismatch(row.len(), self.width));
        }
        proof {
            lemma_add_rows(self@.len() as int, row@.len() as int, self.width as int);
        }
        let ghost before = self@;
        self.cells.extend_from_slice(row);
        proof {
            assert(self@.subrange(0, before.len() as int) =~= before);
            assert forall|i: int| 0 <= i < row@.len() implies cloned(
                row@[i],
                #[trigger] self@[before.len() + i],
            ) by {
                assert(self@[before.len() + i] == self.cells@[before.len() + i]);
            }
        }
        Ok(())
    }

    /// Inserts `row`, one or more rows of cells, just above row `y`.
    pub fn insert_row(&mut self, y: usize, row: Vec<T>) -> (r: Result<(), Vec2DErr>)
        requires
            old(self).wf(),
            old(self)@.len() + row@.len() <= usize::MAX,
        ensures
            final(self).wf(),
            final(self).spec_width() == old(self).spec_width(),
            y >= old(self).spec_height() ==> r == Err::<(), Vec2DErr>(Vec2DErr::OutOfBounds)
                && final(self)@ == old(self)@,
            y < old(self).spec_height() && row@.len() % old(self).spec_width() != 0 ==> r == Err::<
                (),
                Vec2DErr,
            >(Vec2DErr::WidthMismatch(row@.len() as usize, old(self).spec_width() as usize))
                && final(self)@ == old(self)@,
            y < old(self).spec_height() && row@.len() % old(self).spec_width() == 0 ==> r is Ok
                && final(self)@ == spliced(old(self)@, y * old(self).spec_width(), row@),
    {
        if y >= self.height() {
            return Err(Vec2DErr::OutOfBounds);
        }
        if row.len() % self.width != 0 {
            return Err(Vec2DErr::WidthMismatch(row.len(), self.width));
        }
        proof {
            lemma_row_in_bounds(y as int, self.width as int, self@.len() as int);
            lemma_add_rows(self@.len() as int, row@.len() as int, self.width as int);
        }
        let ghost before = self@;
        let ghost inserted = row@;
        let idx = y * self.width;
        let mut row = row;
        let mut tail = self.cells.split_off(idx);
        self.cells.append(&mut row);
        self.cells.append(&mut tail);
        proof {
            assert(self@ =~= spliced(before, idx as int, inserted));
        }
        Ok(())
    }

    /// Inserts clones of `row`, one or more rows of cells, just above row
    /// `y`, leaving `row` as it was.
    pub fn insert_row_cloned(&mut self, y: usize, row: &[T]) -> (r: Result<(), Vec2DErr>) where T: Clone
        requires
            old(self).wf(),
            old(self)@.len() + row@.len() <= usize::MAX,
        ensures
            final(self).wf(),
            final(self).spec_width() == old(self).spec_width(),
            y >= old(self).spec_height() ==> r == Err::<(), Vec2DErr>(Vec2DErr::OutOfBounds)
                && final(self)@ == old(self)@,
            y < old(self).spec_height() && row@.len() % old(self).spec_width() != 0 ==> r == Err::<
                (),
                Vec2DErr,
            >(Vec2DErr::WidthMismatch(row@.len() as usize, old(self).spec_width() as usize))
                && final(self)@ == old(self)@,
            y < old(self).spec_height() && row@.len() % old(self).spec_width() == 0 ==> {
                let at = y * old(self).spec_width();
                &&& r is Ok
                &&& final(self)@.len() == old(self)@.len() + row@.len()
                &&& final(self)@.subrange(0, at as int) == old(self)@.subrange(0, at as int)
                &&& final(self)@.subrange(at + row@.len(), final(self)@.len() as int)
                    == old(self)@.subrange(at as int, old(self)@.len() as int)
                &&& forall|i: int|
                    0 <= i < row@.len() ==> cloned(row@[i], #[trigger] final(self)@[at + i])
            },
    {
        if y >= self.height() {
            return Err(Vec2DErr::OutOfBounds);
        }
        if row.len() % self.width != 0 {
            return Err(Vec2DErr::WidthMismatch(row.len(), self.width));
        }
        proof {
            lemma_row_in_bounds(y as int, self.width as int, self@.len() as int);
            lemma_add_rows(self@.len() as int, row@.len() as int, self.width as int);
        }
        let ghost before = self@;
        let idx = y * self.width;
        let mut tail = self.cells.split_off(idx);
        self.cells.extend_from_slice(row);
        let ghost middle = self@;
        self.cells.append(&mut tail);
        proof {
            let at = idx as int;
            assert(self@.subrange(0, at) =~= before.subrange(0, at));
            assert(self@.subrange(at + row@.len(), self@.len() as int) =~= before.subrange(
                at,
                before.len() as int,
            ));
            assert forall|i: int| 0 <= i < row@.len() implies cloned(
                row@[i],
                #[trigger] self@[at + i],
            ) by {
                assert(self@[at + i] == middle[at + i]);
            }
        }
        Ok(())
    }

    /// Removes row `y` and drops its cells.
    pub fn discard_row(&mut self, y: usize) -> (r: Result<(), Vec2DErr>)
        requires
            old(self).wf(),
        ensures
            final(self).wf(),
            final(self).spec_width() == old(self).spec_width(),
            y >= old(self).spec_height() ==> r == Err::<(), Vec2DErr>(Vec2DErr::OutOfBounds)
                && final(self)@ == old(self)@,
            y < old(self).spec_height() ==> r is Ok && final(self)@ == without_row(
                old(self)@,
                y as int,
                old(self).spec_width() as int,
            ),
    {
        match self.remove_row(y) {
            Ok(_) => Ok(()),
            Err(e) => Err(e),
        }
    }

    /// Removes row `y` and hands back its cells.
    pub fn remove_row(&mut self, y: usize) -> (r: Result<Vec<T>, Vec2DErr>)
        requires
            old(self).wf(),
        ensures
            final(self).wf(),
            final(self).spec_width() == old(self).spec_width(),
            y >= old(self).spec_height() ==> r == Err::<Vec<T>, Vec2DErr>(Vec2DErr::OutOfBounds)
                && final(self)@ == old(self)@,
            y < old(self).spec_height() ==> (r matches Ok(row) && row@ == old(self).spec_row(
                y as int,
            ) && final(self)@ == without_row(old(self)@, y as int, old(self).spec_width() as int)),
    {
        if y >= self.height() {
            return Err(Vec2DErr::OutOfBounds);
        }
        proof {
            lemma_row_in_bounds(y as int, self.width as int, self@.len() as int);
            assert(self.cells.len() as int == self@.len());
        }
        let ghost before = self@;
        let start = y * self.width;
        let mut row = self.cells.split_off(start);
        let mut rest = row.split_off(self.width);
        self.cells.append(&mut rest);
        proof {
            assert(self@ =~= without_row(before, y as int, self.width as int));
            assert(row@ =~= before.subrange(start as int, start + self.width));
            lemma_remove_row(before.len() as int, self.width as int);
        }
        Ok(row)
    }

    /// Keeps the first `new_height` rows and drops the rest.
    pub fn truncate_rows(&mut self, new_height: usize) -> (r: Result<(), Vec2DErr>)
        requires
            old(self).wf(),
        ensures
            final(self).wf(),
            final(self).spec_width() == old(self).spec_width(),
            new_height > old(self).spec_height() ==> r == Err::<(), Vec2DErr>(Vec2DErr::OutOfBounds)
                && final(self)@ == old(self)@,
            new_height == old(self).spec_height() ==> r is Ok && *final(self) == *old(self),
            new_height <= old(self).spec_height() ==> r is Ok && final(self)@ == old(self)@.subrange(
                0,
                new_height * old(self).spec_width(),
            ),
    {
        let height = self.height();
        if new_height > height {
            return Err(Vec2DErr::OutOfBounds);
        }
        if new_height == height {
            proof {
                vstd::arithmetic::div_mod::lemma_fundamental_div_mod(self@.len() as int, self.width as int);
                vstd::arithmetic::mul::lemma_mul_is_commutative(self.width as int, height as int);
                assert(self@.subrange(0, new_height * self.width) =~= self@);
            }
            return Ok(());
        }
        proof {
            lemma_row_in_bounds(new_height as int, self.width as int, self@.len() as int);
            assert(self.cells.len() as int == self@.len());
            lemma_dims(self.width as int, new_height as int);
            vstd::arithmetic::mul::lemma_mul_is_commutative(self.width as int, new_height as int);
        }
        self.cells.truncate(new_height * self.width);
        Ok(())
    }

    /// Keeps the first `new_width` cells of every row and drops the rest;
    /// the grid becomes `new_width` wide.
    pub fn truncate_cols(&mut self, new_width: usize) -> (r: Result<(), Vec2DErr>)
        requires
            old(self).wf(),
        ensures
            final(self).wf(),
            new_width > old(self).spec_width() ==> r == Err::<(), Vec2DErr>(
                Vec2DErr::WidthMismatch(new_width, old(self).spec_width() as usize),
            ) && *final(self) == *old(self),
            new_width == 0 ==> r == Err::<(), Vec2DErr>(Vec2DErr::ZeroWidth) && *final(self)
                == *old(self),
            new_width == old(self).spec_width() ==> r is Ok && *final(self) == *old(self),
            0 < new_width <= old(self).spec_width() ==> {
                &&& r is Ok
                &&& final(self).spec_width() == new_width
                &&& final(self).spec_height() == old(self).spec_height()
                &&& final(self)@ == kept_columns(
                    old(self)@,
                    old(self).spec_width() as int,
                    new_width as int,
                )
            },
    {
        if new_width > self.width {
            return Err(Vec2DErr::WidthMismatch(new_width, self.width));
        }
        if new_width == 0 {
            return Err(Vec2DErr::ZeroWidth);
        }
        let ghost before = self@;
        let ghost w = self.width as int;
        let ghost nw = new_width as int;
        let height = self.height();
        if new_width == self.width {
            proof {
                vstd::arithmetic::div_mod::lemma_fundamental_div_mod(before.len() as int, w);
                assert forall|i: int| 0 <= i < before.len() implies #[trigger] before[i]
                    == before[(i / w) * w + i % w] by {
                    vstd::arithmetic::div_mod::lemma_fundamental_div_mod(i, w);
                    vstd::arithmetic::mul::lemma_mul_is_commutative(w, i / w);
                }
                vstd::arithmetic::mul::lemma_mul_is_commutative(w, height as int);
                assert(self@ =~= kept_columns(before, w, nw));
            }
            return Ok(());
        }
        let mut rest = self.cells.split_off(0);
        let mut y: usize = 0;
        while y < height
            invariant
                0 < nw < w,
                w == self.width,
                nw == new_width,
                y <= height,
                height == before.len() as int / w,
                before.len() as int % w == 0,
                self.cells@.len() == y * nw,
                forall|i: int|
                    0 <= i < y * nw ==> #[trigger] self.cells@[i] == before[(i / nw) * w + i % nw],
                rest@ == before.subrange(y * w, before.len() as int),
            decreases height - y,
        {
            proof {
                lemma_row_in_bounds(y as int, w, before.len() as int);
            }
            let tail = rest.split_off(self.width);
            let mut row = rest;
            row.truncate(new_width);
            let ghost done = self.cells@;
            self.cells.append(&mut row);
            rest = tail;
            proof {
                assert((y + 1) * nw == y * nw + nw) by (nonlinear_arith);
                assert forall|i: int|
                    0 <= i < (y + 1) * nw implies #[trigger] self.cells@[i] == before[(i / nw) * w
                    + i % nw] by {
                    if i >= y * nw {
                        vstd::arithmetic::div_mod::lemma_fundamental_div_mod_converse(
                            i,
                            nw,
                            y as int,
                            i - y * nw,
                        );
                        assert(self.cells@[i] == before[y * w + (i - y * nw)]);
                    } else {
                        assert(self.cells@[i] == done[i]);
                    }
                }
                assert(rest@ =~= before.subrange((y + 1) * w, before.len() as int));
            }
            y += 1;
        }
        self.width = new_width;
        proof {
            vstd::arithmetic::mul::lemma_mul_is_commutative(nw, height as int);
            lemma_dims(nw, height as int);
            assert(self@ =~= kept_columns(before, w, nw));
        }
        Ok(())
    }

    /// Every cell with its coordinates, in row-major order.
    pub fn iter_xy(&self) -> (r: Vec<((usize, usize), &T)>)
        requires
            self.wf(),
        ensures
            r@.len() == self@.len(),
            forall|i: int|
                0 <= i < r@.len() ==> (#[trigger] r@[i]).0.0 == i % self.spec_width() as int
                    && r@[i].0.1 == i / self.spec_width() as int && *r@[i].1 == self@[i],
    {
        let mut out: Vec<((usize, usize), &T)> = Vec::new();
        let mut i: usize = 0;
        while i < self.cells.len()
            invariant
                self.wf(),
                i <= self@.len(),
                out@.len() == i,
                forall|k: int|
                    0 <= k < i ==> (#[trigger] out@[k]).0.0 == k % self.spec_width() as int
                        && out@[k].0.1 == k / self.spec_width() as int && *out@[k].1 == self@[k],
            decreases self@.len() - i,
        {
            out.push(((i % self.width, i / self.width), &self.cells[i]));
            i += 1;
        }
        out
    }

    /// The rows, top to bottom, each as a slice of `width` cells.
    pub fn iter_rows(&self) -> (r: Vec<&[T]>)
        requires
            self.wf(),
        ensures
            r@.len() == self.spec_height(),
            forall|y: int| 0 <= y < r@.len() ==> (#[trigger] r@[y])@ == self.spec_row(y),
    {
        let mut out: Vec<&[T]> = Vec::new();
        let height = self.height();
        let mut y: usize = 0;
        while y < height
            invariant
                self.wf(),
                height == self.spec_height(),
                y <= height,
                out@.len() == y,
                forall|k: int| 0 <= k < y ==> (#[trigger] out@[k])@ == self.spec_row(k),
            decreases height - y,
        {
            proof {
                lemma_row_in_bounds(y as int, self.width as int, self@.len() as int);
                assert(self.cells.len() as int == self@.len());
            }
            let start = y * self.width;
            out.push(&self.cells.as_slice()[start..start + self.width]);
            y += 1;
        }
        out
    }

    /// Every cell with its coordinates, in row-major order, for writing in
    /// place.
    pub fn iter_xy_mut(&mut self) -> (r: Vec<((usize, usize), &mut T)>)
        requires
            old(self).wf(),
        ensures
            final(self).wf(),
            final(self).spec_width() == old(self).spec_width(),
            r@.len() == old(self)@.len(),
            forall|i: int|
                0 <= i < r@.len() ==> (#[trigger] r@[i]).0.0 == i % old(self).spec_width() as int
                    && r@[i].0.1 == i / old(self).spec_width() as int && *r@[i].1 == old(self)@[i],
            final(self)@ == Seq::new(r@.len(), |i: int| *final(r@[i].1)),
    {
        let len = self.cells.len();
        let w = self.width;
        let ghost start = self@;
        let mut out: Vec<((usize, usize), &mut T)> = Vec::new();
        let all = self.cells.as_mut_slice();
        let mut rest = all;
        let mut i: usize = 0;
        while i < len
            invariant
                i <= len,
                len == start.len(),
                0 < w,
                out@.len() == i,
                forall|k: int|
                    0 <= k < i ==> (#[trigger] out@[k]).0.0 == k % w as int && out@[k].0.1 == k
                        / w as int && *out@[k].1 == start[k],
                rest@ == start.subrange(i as int, len as int),
                final(all)@ == Seq::new(out@.len(), |k: int| *final(out@[k].1)) + final(rest)@,
            decreases len - i,
        {
            let ghost prev = out@;
            let ghost old_rest = rest;
            let (head, tail) = rest.split_at_mut(1);
            let ghost old_head = head;
            match head.first_mut() {
                Some(c) => {
                    assert(final(old_head)@ =~= seq![*final(c)]);
                    out.push(((i % w, i / w), c));
                },
                None => {},
            }
            rest = tail;
            proof {
                assert(rest@ =~= start.subrange(i + 1, len as int));
                assert(Seq::new(out@.len(), |k: int| *final(out@[k].1)) =~= Seq::new(
                    prev.len(),
                    |k: int| *final(prev[k].1),
                ).push(*final(out@[i as int].1)));
            }
            i += 1;
        }
        assert(final(rest)@ =~= Seq::<T>::empty());
        assert(final(all)@ =~= Seq::new(out@.len(), |k: int| *final(out@[k].1)));
        out
    }

    /// The rows, top to bottom, each as a slice of `width` cells for
    /// writing in place.
    pub fn iter_rows_mut(&mut self) -> (r: Vec<&mut [T]>)
        requires
            old(self).wf(),
        ensures
            final(self).spec_width() == old(self).spec_width(),
            r@.len() == old(self).spec_height(),
            forall|y: int| 0 <= y < r@.len() ==> #[trigger] r@[y]@ == old(self).spec_row(y),
            final(self)@ == Seq::new(r@.len(), |y: int| final(r@[y])@).flatten(),
            (forall|y: int| 0 <= y < r@.len() ==> (#[trigger] final(r@[y]))@.len() == r@[y]@.len())
                ==> final(self).wf() && final(self)@.len() == old(self)@.len(),
    {
        let height = self.height();
        let w = self.width;
        let ghost start = self@;
        let mut out: Vec<&mut [T]> = Vec::new();
        let all = self.cells.as_mut_slice();
        let mut rest = all;
        let mut y: usize = 0;
        while y < height
            invariant
                y <= height,
                height == start.len() as int / w as int,
                start.len() as int % w as int == 0,
                0 < w,
                out@.len() == y,
                forall|k: int| 0 <= k < y ==> #[trigger] out@[k]@ == start.subrange(k * w, (k + 1) * w),
                rest@ == start.subrange(y * w, start.len() as int),
                final(all)@ == Seq::new(out@.len(), |k: int| final(out@[k])@).flatten() + final(rest)@,
            decreases height - y,
        {
            proof {
                lemma_row_in_bounds(y as int, w as int, start.len() as int);
            }
            let ghost prev = out@;
            let ghost old_rest = rest;
            let (row, tail) = rest.split_at_mut(w);
            assert(final(old_rest)@ == final(row)@ + final(tail)@);
            out.push(row);
            rest = tail;
            proof {
                assert(rest@ =~= start.subrange((y + 1) * w, start.len() as int));
                assert(Seq::new(out@.len(), |k: int| final(out@[k])@) =~= Seq::new(
                    prev.len(),
                    |k: int| final(prev[k])@,
                ).push(final(out@[y as int])@));
                Seq::new(prev.len(), |k: int| final(prev[k])@).lemma_flatten_push(
                    final(out@[y as int])@,
                );
            }
            y += 1;
        }
        proof {
            vstd::arithmetic::div_mod::lemma_fundamental_div_mod(start.len() as int, w as int);
            vstd::arithmetic::mul::lemma_mul_is_commutative(w as int, height as int);
        }
        assert(rest@.len() == 0);
        assert(final(rest)@ =~= Seq::<T>::empty());
        assert(final(all)@ =~= Seq::new(out@.len(), |k: int| final(out@[k])@).flatten());
        proof {
            lemma_flatten_uniform(Seq::new(out@.len(), |k: int| final(out@[k])@), w as int);
            lemma_dims(w as int, height as int);
            assert forall|k: int|
                0 <= k < out@.len() && (#[trigger] final(out@[k]))@.len() == out@[k]@.len() implies Seq::new(
                out@.len(),
                |j: int| final(out@[j])@,
            )[k].len() == w by {
                lemma_row_in_bounds(k, w as int, start.len() as int);
            }
        }
        out
    }

    /// Applies `f` to every cell in place, in row-major order: `f` gets a
    /// reference to the cell and what it returns becomes the cell.
    ///
    /// `f` returns the new value rather than writing through `&mut T`, and is
    /// `Fn` rather than `FnMut`. Verus passes a `&mut` argument to a closure as
    /// a fresh reborrow, so what such a call did to a cell can be stated only
    /// as "some reference exists", and that fact cannot be carried from one
    /// cell to the next; nor does Verus model state that an `FnMut` closure
    /// captures mutably. With this form each cell's new value is exactly what
    /// `f` returned for it.
    pub fn map_in_place<F: Fn(&T) -> T>(&mut self, f: F)
        requires
            old(self).wf(),
            forall|c: &T| f.requires((c,)),
        ensures
            final(self).wf(),
            final(self).spec_width() == old(self).spec_width(),
            final(self)@.len() == old(self)@.len(),
            forall|i: int|
                0 <= i < old(self)@.len() ==> f.ensures((&old(self)@[i],), #[trigger] final(self)@[i]),
    {
        let ghost start = self@;
        let len = self.cells.len();
        let mut i: usize = 0;
        while i < len
            invariant
                forall|c: &T| f.requires((c,)),
                len == start.len(),
                i <= len,
                self@.len() == start.len(),
                self.spec_width() == old(self).spec_width(),
                start == old(self)@,
                forall|k: int| 0 <= k < i ==> f.ensures((&start[k],), #[trigger] self@[k]),
                forall|k: int| i <= k < len ==> #[trigger] self@[k] == start[k],
            decreases len - i,
        {
            let v = f(&self.cells[i]);
            self.cells[i] = v;
            i += 1;
        }
    }

    /// Row `y` as a slice of `width` cells for writing in place, or `None`
    /// past the last row.
    pub fn get_row_mut(&mut self, y: usize) -> (r: Option<&mut [T]>)
        requires
            old(self).wf(),
        ensures
            final(self).spec_width() == old(self).spec_width(),
            y < old(self).spec_height() <==> r is Some,
            r is None ==> final(self)@ == old(self)@,
            r matches Some(row) ==> {
                let w = old(self).spec_width() as int;
                &&& row@ == old(self).spec_row(y as int)
                &&& final(self)@ == old(self)@.subrange(0, y * w) + final(row)@ + old(self)@.subrange(
                    (y + 1) * w,
                    old(self)@.len() as int,
                )
                &&& final(row)@.len() == row@.len() ==> final(self).wf() && final(self)@.len()
                    == old(self)@.len()
            },
            r is None ==> final(self).wf(),
    {
        if y >= self.cells.len() / self.width {
            return None;
        }
        proof {
            lemma_row_in_bounds(y as int, self.width as int, self@.len() as int);
            assert(self.cells.len() as int == self@.len());
        }
        let start = y * self.width;
        let all = self.cells.as_mut_slice();
        let (_, after) = all.split_at_mut(start);
        let (row, _) = after.split_at_mut(self.width);
        Some(row)
    }

    /// Whether `(x, y)`, taken as signed, lies inside the grid.
    fn in_bounds(&self, x: i128, y: i128) -> (r: bool)
        requires
            self.wf(),
        ensures
            r == in_grid(x as int, y as int, self.spec_width() as int, self.spec_height() as int),
    {
        x >= 0 && y >= 0 && x < self.width as i128 && y < (self.cells.len() / self.width) as i128
    }

    /// The cells reached from `(x, y)` by each of `offsets`, with their
    /// coordinates, skipping those that fall outside the grid.
    fn neighbors_by(&self, x: usize, y: usize, offsets: &[(isize, isize)]) -> (r: Vec<((usize, usize), &T)>)
        requires
            self.wf(),
        ensures
            coords_of(r@) == neighbor_coords(
                offsets@.map_values(|o: (isize, isize)| (o.0 as int, o.1 as int)),
                x as int,
                y as int,
                self.spec_width() as int,
                self.spec_height() as int,
            ),
            forall|k: int|
                0 <= k < r@.len() ==> *(#[trigger] r@[k]).1 == self@[linear_index(
                    r@[k].0.0 as int,
                    r@[k].0.1 as int,
                    self.spec_width() as int,
                )],
    {
        let ghost offs = offsets@.map_values(|o: (isize, isize)| (o.0 as int, o.1 as int));
        let ghost w = self.spec_width() as int;
        let ghost h = self.spec_height() as int;
        let mut out: Vec<((usize, usize), &T)> = Vec::new();
        let mut i: usize = 0;
        while i < offsets.len()
            invariant
                self.wf(),
                i <= offsets@.len(),
                offs == offsets@.map_values(|o: (isize, isize)| (o.0 as int, o.1 as int)),
                w == self.spec_width(),
                h == self.spec_height(),
                coords_of(out@) == neighbor_coords(offs.take(i as int), x as int, y as int, w, h),
                forall|k: int|
                    0 <= k < out@.len() ==> *(#[trigger] out@[k]).1 == self@[linear_index(
                        out@[k].0.0 as int,
                        out@[k].0.1 as int,
                        w,
                    )],
            decreases offsets@.len() - i,
        {
            let (dx, dy) = offsets[i];
            let nx: i128 = x as i128 + dx as i128;
            let ny: i128 = y as i128 + dy as i128;
            assert(offs.take(i + 1).drop_last() =~= offs.take(i as int));
            if self.in_bounds(nx, ny) {
                proof {
                    lemma_height_le_len(self@.len() as int, w);
                    assert(self.cells.len() as int == self@.len());
                }
                let ux = nx as usize;
                let uy = ny as usize;
                proof {
                    self.lemma_cell(ux as int, uy as int);
                }
                let ghost before = out@;
                out.push(((ux, uy), &self.cells[uy * self.width + ux]));
                assert(coords_of(out@) =~= coords_of(before).push((ux as int, uy as int)));
            }
            i += 1;
        }
        assert(offs.take(offsets@.len() as int) =~= offs);
        out
    }

    /// The four edge-sharing neighbours of `(x, y)` that lie in the grid,
    /// in the order north, west, east, south, each with its coordinates.
    pub fn neighbors_von_neumann(&self, x: usize, y: usize) -> (r: Vec<((usize, usize), &T)>)
        requires
            self.wf(),
        ensures
            coords_of(r@) == neighbor_coords(
                von_neumann_offsets(),
                x as int,
                y as int,
                self.spec_width() as int,
                self.spec_height() as int,
            ),
            forall|k: int|
                0 <= k < r@.len() ==> *(#[trigger] r@[k]).1 == self@[linear_index(
                    r@[k].0.0 as int,
                    r@[k].0.1 as int,
                    self.spec_width() as int,
                )],
    {
        let offsets: [(isize, isize); 4] = [(0, -1), (-1, 0), (1, 0), (0, 1)];
        assert(offsets@.map_values(|o: (isize, isize)| (o.0 as int, o.1 as int))
            =~= von_neumann_offsets());
        self.neighbors_by(x, y, &offsets)
    }

    /// The up to eight neighbours of `(x, y)` that lie in the grid, scanning
    /// the surrounding 3x3 block row by row and skipping its centre.
    pub fn neighbors_moore(&self, x: usize, y: usize) -> (r: Vec<((usize, usize), &T)>)
        requires
            self.wf(),
        ensures
            coords_of(r@) == neighbor_coords(
                moore_offsets(),
                x as int,
                y as int,
                self.spec_width() as int,
                self.spec_height() as int,
            ),
            forall|k: int|
                0 <= k < r@.len() ==> *(#[trigger] r@[k]).1 == self@[linear_index(
                    r@[k].0.0 as int,
                    r@[k].0.1 as int,
                    self.spec_width() as int,
                )],
    {
        let offsets: [(isize, isize); 8] = [
            (-1, -1),
            (0, -1),
            (1, -1),
            (-1, 0),
            (1, 0),
            (-1, 1),
            (0, 1),
            (1, 1),
        ];
        assert(offsets@.map_values(|o: (isize, isize)| (o.0 as int, o.1 as int))
            =~= moore_offsets());
        self.neighbors_by(x, y, &offsets)
    }
}

/// `grid[(x, y)]` reads cell `(x, y)`; the position must lie in the grid,
/// and reading outside it aborts.
///
/// There is no write form `grid[(x, y)] = v`: vstd gives `IndexMut` no
/// precondition, so an out-of-range position could not be ruled out and the
/// abort could not be proved unreachable. `get_mut` writes a cell instead.
impl<T> core::ops::Index<(usize, usize)> for Vec2D<T> {
    type Output = T;

    fn index(&self, pos: (usize, usize)) -> (r: &T)
        ensures
            *r == self@[linear_index(pos.0 as int, pos.1 as int, self.spec_width() as int)],
    {
        let (x, y) = pos;
        let i = if x < self.width && y < self.cells.len() / self.width {
            proof {
                self.lemma_cell(x as int, y as int);
            }
            y * self.width + x
        } else {
            self.cells.len()
        };
        &self.cells[i]
    }
}

impl<T> vstd::std_specs::core::IndexSpecImpl<(usize, usize)> for Vec2D<T> {
    open spec fn index_req(&self, pos: &(usize, usize)) -> bool {
        &&& self.wf()
        &&& in_grid(pos.0 as int, pos.1 as int, self.spec_width() as int, self.spec_height() as int)
    }
}

/// Turning a grid with cells into its vector and back with the same width
/// gives the same grid.
pub proof fn lemma_round_trip<T>(g: Vec2D<T>)
    requires
        g.wf(),
        g@.len() > 0,
    ensures
        Vec2D::<T>::spec_from_vec(
            <Vec<T> as vstd::std_specs::convert::FromSpec<Vec2D<T>>>::from_spec(g),
            g.spec_width() as usize,
        ) == Ok::<Vec2D<T>, Vec2DErr>(g),
{
}

/// Decoding the offset of an in-grid cell gives back its coordinates, so
/// `coords` undoes `index_of`.
pub proof fn lemma_coords_of_index<T>(g: Vec2D<T>, x: int, y: int)
    requires
        g.wf(),
        in_grid(x, y, g.spec_width() as int, g.spec_height() as int),
    ensures
        0 <= linear_index(x, y, g.spec_width() as int) < g@.len(),
        linear_index(x, y, g.spec_width() as int) % g.spec_width() as int == x,
        linear_index(x, y, g.spec_width() as int) / g.spec_width() as int == y,
{
    g.lemma_cell(x, y);
    vstd::arithmetic::div_mod::lemma_fundamental_div_mod_converse(
        linear_index(x, y, g.spec_width() as int),
        g.spec_width() as int,
        y,
        x,
    );
}

/// Gives up the grid and keeps its cells, in row-major order.
impl<T> From<Vec2D<T>> for Vec<T> {
    fn from(grid: Vec2D<T>) -> (r: Vec<T>)
        ensures
            r@ == grid@,
    {
        grid.cells
    }
}

impl<T> vstd::std_specs::convert::FromSpecImpl<Vec2D<T>> for Vec<T> {
    open spec fn obeys_from_spec() -> bool {
        true
    }

    closed spec fn from_spec(grid: Vec2D<T>) -> Vec<T> {
        grid.cells
    }
}

/// `(cells, width)` becomes a grid as `from_vec` makes it.
impl<T> TryFrom<(Vec<T>, usize)> for Vec2D<T> {
    type Error = Vec2DErr;

    fn try_from(value: (Vec<T>, usize)) -> (r: Result<Self, Vec2DErr>)
        ensures
            r == Self::spec_from_vec(value.0, value.1),
            value.1 == 0 ==> r == Err::<Self, Vec2DErr>(Vec2DErr::ZeroWidth),
            value.1 > 0 && value.0@.len() == 0 ==> r == Err::<Self, Vec2DErr>(Vec2DErr::EmptySource),
            value.1 > 0 && value.0@.len() > 0 && value.0@.len() % (value.1 as nat) != 0 ==> r
                == Err::<Self, Vec2DErr>(Vec2DErr::WidthMismatch(value.0@.len() as usize, value.1)),
            value.1 > 0 && value.0@.len() > 0 && value.0@.len() % (value.1 as nat) == 0 <==> r is Ok,
            r matches Ok(g) ==> g.wf() && g@ == value.0@ && g.spec_width() == value.1,
    {
        Self::from_vec(value.0, value.1)
    }
}

impl<T> vstd::std_specs::convert::TryFromSpecImpl<(Vec<T>, usize)> for Vec2D<T> {
    open spec fn obeys_try_from_spec() -> bool {
        true
    }

    open spec fn try_from_spec(value: (Vec<T>, usize)) -> Result<Self, Vec2DErr> {
        Self::spec_from_vec(value.0, value.1)
    }
}

/// Gives up the grid and walks its cells in row-major order.
impl<T> IntoIterator for Vec2D<T> {
    type Item = T;

    type IntoIter = std::vec::IntoIter<T>;

    fn into_iter(self) -> (r: std::vec::IntoIter<T>)
        ensures
            vstd::std_specs::vec::into_iter_elts(r) == self@,
    {
        self.cells.into_iter()
    }
}

/// Walks the cells by reference, in row-major order.
///
/// There is no `IntoIterator` for `&mut Vec2D`: its iterator would be
/// `std::slice::IterMut`, which vstd neither declares nor specifies, so
/// nothing could be stated of what it yields. `iter_xy_mut` hands out every
/// cell by `&mut` in the same order, and `as_mut` gives the cells as one
/// mutable slice.
impl<'a, T> IntoIterator for &'a Vec2D<T> {
    type Item = &'a T;

    type IntoIter = std::slice::Iter<'a, T>;

    fn into_iter(self) -> (r: std::slice::Iter<'a, T>)
        ensures
            vstd::std_specs::slice::into_iter_elts(r) == self@,
    {
        self.cells.as_slice().iter()
    }
}

/// The cells as one slice, in row-major order.
impl<T> AsRef<[T]> for Vec2D<T> {
    fn as_ref(&self) -> (r: &[T])
        ensures
            r@ == self@,
    {
        self.cells.as_slice()
    }
}

/// The cells as one slice, in row-major order, for writing in place; the
/// slice cannot change the number of cells.
impl<T> AsMut<[T]> for Vec2D<T> {
    fn as_mut(&mut self) -> (r: &mut [T])
        ensures
            r@ == old(self)@,
            final(self)@ == final(r)@,
            final(self).spec_width() == old(self).spec_width(),
    {
        self.cells.as_mut_slice()
    }
}

} // verus!
