use vstd::prelude::*;

verus! {

/// True when `g` has `h` rows of `w` cells each.
pub open spec fn is_grid<T>(g: Seq<Seq<T>>, h: nat, w: nat) -> bool {
    &&& g.len() == h
    &&& forall|r: int| 0 <= r < h ==> #[trigger] g[r].len() == w
}

/// The grid of `h` rows of `w` copies of `v`.
pub open spec fn filled<T>(h: nat, w: nat, v: T) -> Seq<Seq<T>> {
    Seq::new(h, |r: int| Seq::new(w, |c: int| v))
}

/// A rectangular grid of cells, each FOREGROUND (`true`) or BACKGROUND (`false`).
#[derive(Clone, Debug, PartialEq, Eq)]
pub struct BinaryRaster {
    height: usize,
    width: usize,
    cells: Vec<Vec<bool>>,
}

/// A rectangular grid of non-negative labels; 0 means "never peeled".
#[derive(Clone, Debug, PartialEq, Eq)]
pub struct LabelRaster {
    height: usize,
    width: usize,
    cells: Vec<Vec<u64>>,
}

/// A `height` by `width` grid of rows, each a copy of `v`.
fn filled_rows<T: Copy>(height: usize, width: usize, v: T) -> (rows: Vec<Vec<T>>)
    ensures
        rows@.map_values(|row: Vec<T>| row@) == filled(height as nat, width as nat, v),
{
    let mut rows: Vec<Vec<T>> = Vec::new();
    let mut i: usize = 0;
    while i < height
        invariant
            i <= height,
            rows@.len() == i,
            forall|k: int| 0 <= k < i ==> #[trigger] rows@[k]@ == Seq::new(width as nat, |j: int| v),
        decreases height - i,
    {
        let mut row: Vec<T> = Vec::new();
        let mut j: usize = 0;
        while j < width
            invariant
                j <= width,
                row@ == Seq::new(j as nat, |x: int| v),
            decreases width - j,
        {
            row.push(v);
            j += 1;
            assert(row@ =~= Seq::new(j as nat, |x: int| v));
        }
        rows.push(row);
        i += 1;
    }
    assert(rows@.map_values(|row: Vec<T>| row@) =~= filled(height as nat, width as nat, v));
    rows
}

impl BinaryRaster {
    /// The cells, row by row.
    pub closed spec fn view(&self) -> Seq<Seq<bool>> {
        self.cells@.map_values(|row: Vec<bool>| row@)
    }

    /// The number of rows.
    pub closed spec fn spec_height(&self) -> nat {
        self.height as nat
    }

    /// The number of cells in each row.
    pub closed spec fn spec_width(&self) -> nat {
        self.width as nat
    }

    /// The raster has `height` rows of `width` cells.
    pub open spec fn wf(&self) -> bool {
        is_grid(self@, self.spec_height(), self.spec_width())
    }

    /// An all-background raster of the given size.
    pub fn new(height: usize, width: usize) -> (r: BinaryRaster)
        ensures
            r.wf(),
            r.spec_height() == height,
            r.spec_width() == width,
            r@ == filled(height as nat, width as nat, false),
    {
        BinaryRaster { height, width, cells: filled_rows(height, width, false) }
    }

    /// A raster with the given rows; `None` when they differ in length.
    /// An empty list gives a raster of height and width 0.
    pub fn from_rows(rows: Vec<Vec<bool>>) -> (r: Option<BinaryRaster>)
        ensures
            match r {
                Some(b) => b.wf() && b@ == rows@.map_values(|row: Vec<bool>| row@),
                None => exists|i: int, j: int|
                    0 <= i < rows@.len() && 0 <= j < rows@.len() && #[trigger] rows@[i].len()
                        != #[trigger] rows@[j].len(),
            },
    {
        let height = rows.len();
        let width = if height == 0 { 0 } else { rows[0].len() };
        let mut i: usize = 0;
        while i < height
            invariant
                height == rows@.len(),
                i <= height,
                height > 0 ==> width == rows@[0].len(),
                forall|k: int| 0 <= k < i ==> #[trigger] rows@[k].len() == width,
            decreases height - i,
        {
            if rows[i].len() != width {
                return None;
            }
            i += 1;
        }
        let ghost rv = rows@;
        let r = BinaryRaster { height, width, cells: rows };
        assert forall|k: int| 0 <= k < height implies #[trigger] r@[k].len() == width by {
            assert(rv[k].len() == width);
            assert(r@[k] == rv[k]@);
        }
        Some(r)
    }

    pub fn height(&self) -> (h: usize)
        ensures
            h == self.spec_height(),
    {
        self.height
    }

    pub fn width(&self) -> (w: usize)
        ensures
            w == self.spec_width(),
    {
        self.width
    }

    /// Whether the cell at row `r`, column `c` is foreground.
    pub fn get(&self, r: usize, c: usize) -> (v: bool)
        requires
            self.wf(),
            r < self.spec_height(),
            c < self.spec_width(),
        ensures
            v == self@[r as int][c as int],
    {
        assert(self.cells@[r as int]@ == self@[r as int]);
        self.cells[r][c]
    }

    /// Sets the cell at row `r`, column `c`.
    pub fn set(&mut self, r: usize, c: usize, v: bool)
        requires
            old(self).wf(),
            r < old(self).spec_height(),
            c < old(self).spec_width(),
        ensures
            final(self).wf(),
            final(self).spec_height() == old(self).spec_height(),
            final(self).spec_width() == old(self).spec_width(),
            final(self)@ == old(self)@.update(r as int, old(self)@[r as int].update(c as int, v)),
    {
        assert(self.cells@[r as int]@ == self@[r as int]);
        let mut row = self.cells[r].clone();
        assert(row@ == self@[r as int]);
        row.set(c, v);
        self.cells.set(r, row);
        assert(self@ =~= old(self)@.update(r as int, old(self)@[r as int].update(c as int, v)));
    }
}

impl LabelRaster {
    /// The labels, row by row.
    pub closed spec fn view(&self) -> Seq<Seq<u64>> {
        self.cells@.map_values(|row: Vec<u64>| row@)
    }

    /// The number of rows.
    pub closed spec fn spec_height(&self) -> nat {
        self.height as nat
    }

    /// The number of cells in each row.
    pub closed spec fn spec_width(&self) -> nat {
        self.width as nat
    }

    /// The raster has `height` rows of `width` labels.
    pub open spec fn wf(&self) -> bool {
        is_grid(self@, self.spec_height(), self.spec_width())
    }

    /// An all-zero label raster of the given size.
    pub fn zeros(height: usize, width: usize) -> (r: LabelRaster)
        ensures
            r.wf(),
            r.spec_height() == height,
            r.spec_width() == width,
            r@ == filled(height as nat, width as nat, 0u64),
    {
        LabelRaster { height, width, cells: filled_rows(height, width, 0u64) }
    }

    pub fn height(&self) -> (h: usize)
        ensures
            h == self.spec_height(),
    {
        self.height
    }

    pub fn width(&self) -> (w: usize)
        ensures
            w == self.spec_width(),
    {
        self.width
    }

    /// The label of the cell at row `r`, column `c`.
    pub fn get(&self, r: usize, c: usize) -> (v: u64)
        requires
            self.wf(),
            r < self.spec_height(),
            c < self.spec_width(),
        ensures
            v == self@[r as int][c as int],
    {
        assert(self.cells@[r as int]@ == self@[r as int]);
        self.cells[r][c]
    }

    /// Sets the label of the cell at row `r`, column `c`.
    pub(crate) fn set(&mut self, r: usize, c: usize, v: u64)
        requires
            old(self).wf(),
            r < old(self).spec_height(),
            c < old(self).spec_width(),
        ensures
            final(self).wf(),
            final(self).spec_height() == old(self).spec_height(),
            final(self).spec_width() == old(self).spec_width(),
            final(self)@ == old(self)@.update(r as int, old(self)@[r as int].update(c as int, v)),
    {
        assert(self.cells@[r as int]@ == self@[r as int]);
        let mut row = self.cells[r].clone();
        assert(row@ == self@[r as int]);
        row.set(c, v);
        self.cells.set(r, row);
        assert(self@ =~= old(self)@.update(r as int, old(self)@[r as int].update(c as int, v)));
    }
}

} // verus!
