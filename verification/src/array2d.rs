use vstd::prelude::*;
use crate::geometry::Convert;

verus! {

/// A grid of `width × height` cells, stored row after row.
pub struct Array2d<T>
    where T: Copy + Clone
{
    width: usize,
    height: usize,
    data: Vec<T>,
}

/// The position in the row-after-row storage of the cell in column `x` and row `y`.
pub open spec fn cell_index(width: int, x: int, y: int) -> int {
    y * width + x
}

impl<T> Array2d<T>
    where T: Copy + Clone
{
    /// The storage holds exactly one cell per column of each row.
    #[verifier::type_invariant]
    closed spec fn fills_grid(self) -> bool {
        self.data@.len() == self.width * self.height
    }

    /// The number of cells in a row.
    pub closed spec fn spec_width(&self) -> usize {
        self.width
    }

    /// The number of rows.
    pub closed spec fn spec_height(&self) -> usize {
        self.height
    }

    /// The number of cells in a row.
    #[verifier::when_used_as_spec(spec_width)]
    pub fn width(&self) -> (r: usize)
        ensures
            r == self.spec_width(),
            self.cells().len() == self.spec_width() * self.spec_height(),
    {
        proof {
            use_type_invariant(self);
        }
        self.width
    }

    /// The number of rows.
    #[verifier::when_used_as_spec(spec_height)]
    pub fn height(&self) -> (r: usize)
        ensures
            r == self.spec_height(),
            self.cells().len() == self.spec_width() * self.spec_height(),
    {
        proof {
            use_type_invariant(self);
        }
        self.height
    }

    /// The cells, row after row.
    pub closed spec fn cells(&self) -> Seq<T> {
        self.data@
    }

    /// The cells, row after row, as one slice.
    pub fn raw_data(&self) -> (r: &[T])
        ensures
            r@ == self.cells(),
            self.cells().len() == self.width() * self.height(),
    {
        proof {
            use_type_invariant(self);
        }
        self.data.as_slice()
    }

    /// A grid of `w × h` cells, each holding `a`.
    pub fn new(a: T, w: usize, h: usize) -> (r: Self)
        requires
            w * h <= usize::MAX,
        ensures
            r.width() == w,
            r.height() == h,
            r.cells() == Seq::new((w * h) as nat, |i: int| a),
    {
        let n: usize = w * h;
        let mut data: Vec<T> = Vec::with_capacity(n);
        let mut i: usize = 0;
        while i < n
            invariant
                i <= n,
                data@ == Seq::new(i as nat, |k: int| a),
            decreases n - i,
        {
            data.push(a);
            i = i + 1;
        }
        Array2d::<T> { width: w, height: h, data }
    }

    /// The cell in column `x` and row `y`, or `None` when its position `y * width + x` lies
    /// past the end of the storage (never for a cell inside the grid).
    pub fn get_mut<A, B>(&mut self, x: A, y: B) -> (r: Option<&mut T>)
        where A: Convert<usize>, B: Convert<usize>
        requires
            y.converted() * old(self).width() + x.converted() <= usize::MAX,
        ensures
            old(self).cells().len() == old(self).width() * old(self).height(),
            final(self).cells().len() == final(self).width() * final(self).height(),
            x.converted() < old(self).width() && y.converted() < old(self).height() ==> r is Some,
            ({
                let i = cell_index(old(self).width() as int, x.converted() as int, y.converted() as int);
                match r {
                    Some(v) => {
                        &&& 0 <= i < old(self).cells().len()
                        &&& *v == old(self).cells()[i]
                        &&& final(self).cells() == old(self).cells().update(i, *final(v))
                        &&& final(self).width() == old(self).width()
                        &&& final(self).height() == old(self).height()
                    },
                    None => {
                        &&& i >= old(self).cells().len()
                        &&& *final(self) == *old(self)
                    },
                }
            }),
    {
        proof {
            use_type_invariant(&*self);
            lemma_inside_grid(self.width as int, self.height as int, x.converted() as int, y.converted() as int);
        }
        let i: usize = y.convert() * self.width + x.convert();
        if i < self.data.len() {
            Some(&mut self.data[i])
        } else {
            None
        }
    }

    /// The cell in column `x` and row `y`, or `None` when its position `y * width + x` lies
    /// past the end of the storage (never for a cell inside the grid).
    pub fn get<A, B>(&self, x: A, y: B) -> (r: Option<&T>)
        where A: Convert<usize>, B: Convert<usize>
        requires
            y.converted() * self.width() + x.converted() <= usize::MAX,
        ensures
            self.cells().len() == self.width() * self.height(),
            x.converted() < self.width() && y.converted() < self.height() ==> r is Some,
            ({
                let i = cell_index(self.width() as int, x.converted() as int, y.converted() as int);
                match r {
                    Some(v) => 0 <= i < self.cells().len() && *v == self.cells()[i],
                    None => i >= self.cells().len(),
                }
            }),
    {
        proof {
            use_type_invariant(self);
            lemma_inside_grid(self.width as int, self.height as int, x.converted() as int, y.converted() as int);
        }
        let i: usize = y.convert() * self.width + x.convert();
        if i < self.data.len() {
            Some(&self.data[i])
        } else {
            None
        }
    }
}

/// A cell inside a `width × height` grid lies before the end of its storage.
proof fn lemma_inside_grid(width: int, height: int, x: int, y: int)
    ensures
        0 <= x < width && 0 <= y < height ==> cell_index(width, x, y) < width * height,
{
    if 0 <= x < width && 0 <= y < height {
        assert(y * width + x < width * height) by (nonlinear_arith)
            requires 0 <= x < width, 0 <= y < height;
    }
}

/// A read gives back what a write wrote: after the cell at `y * width + x` is set to `v`
/// (as a write through `get_mut` does), that cell holds `v` and every other cell keeps its
/// value.
pub proof fn lemma_write_then_read<T>(cells: Seq<T>, width: int, x: int, y: int, v: T, k: int)
    requires
        0 <= cell_index(width, x, y) < cells.len(),
        0 <= k < cells.len(),
    ensures
        cells.update(cell_index(width, x, y), v).len() == cells.len(),
        cells.update(cell_index(width, x, y), v)[cell_index(width, x, y)] == v,
        k != cell_index(width, x, y) ==> cells.update(cell_index(width, x, y), v)[k] == cells[k],
{
}

} // verus!
