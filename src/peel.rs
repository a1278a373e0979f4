use vstd::prelude::*;
use crate::raster::{is_grid, filled, BinaryRaster, LabelRaster};

verus! {

/// Why a peeling run produced no labels.
#[derive(Clone, Copy, Debug, PartialEq, Eq)]
pub enum PeelError {
    /// The raster has fewer than three rows or fewer than three columns.
    InvalidDimensions,
    /// Foreground was left after the allowed number of passes.
    IterationBudgetExceeded,
}

/// Cell `(r, c)` is strictly inside the outer border of `g`.
pub open spec fn is_interior<T>(g: Seq<Seq<T>>, r: int, c: int) -> bool {
    1 <= r < g.len() - 1 && 1 <= c < g[r].len() - 1
}

/// One of the eight cells around `(r, c)` is background.
pub open spec fn has_background_neighbor(g: Seq<Seq<bool>>, r: int, c: int) -> bool {
    ||| !g[r - 1][c - 1]
    ||| !g[r - 1][c]
    ||| !g[r - 1][c + 1]
    ||| !g[r][c - 1]
    ||| !g[r][c + 1]
    ||| !g[r + 1][c - 1]
    ||| !g[r + 1][c]
    ||| !g[r + 1][c + 1]
}

/// Cell `(r, c)` is peeled by a pass over `g`: an interior foreground cell
/// next to background.
pub open spec fn is_peeled(g: Seq<Seq<bool>>, r: int, c: int) -> bool {
    is_interior(g, r, c) && g[r][c] && has_background_neighbor(g, r, c)
}

/// The detection pass of pass number `k` (counting from 0): every cell that
/// `g` peels gets label `k + 1`; the other labels stay.
pub open spec fn detect(g: Seq<Seq<bool>>, lab: Seq<Seq<u64>>, k: nat) -> Seq<Seq<u64>> {
    Seq::new(
        lab.len(),
        |r: int|
            Seq::new(
                lab[r].len(),
                |c: int|
                    if is_peeled(g, r, c) {
                        (k + 1) as u64
                    } else {
                        lab[r][c]
                    },
            ),
    )
}

/// The erasure pass: every interior cell with a non-zero label becomes background.
pub open spec fn erase(g: Seq<Seq<bool>>, lab: Seq<Seq<u64>>) -> Seq<Seq<bool>> {
    Seq::new(
        g.len(),
        |r: int| Seq::new(g[r].len(), |c: int| g[r][c] && !(is_interior(g, r, c) && lab[r][c] != 0)),
    )
}

/// The working raster and the labels after `n` passes over `g`.
pub open spec fn peel_state(g: Seq<Seq<bool>>, n: nat) -> (Seq<Seq<bool>>, Seq<Seq<u64>>)
    decreases n,
{
    if n == 0 {
        (g, filled(g.len(), if g.len() == 0 { 0 } else { g[0].len() }, 0u64))
    } else {
        let prev = peel_state(g, (n - 1) as nat);
        let lab = detect(prev.0, prev.1, (n - 1) as nat);
        (erase(prev.0, lab), lab)
    }
}

/// Some cell of `g` is foreground.
pub open spec fn any_foreground(g: Seq<Seq<bool>>) -> bool {
    exists|r: int, c: int| 0 <= r < g.len() && 0 <= c < g[r].len() && #[trigger] g[r][c]
}

/// `n` passes over `g` leave no foreground, and fewer passes do.
pub open spec fn is_first_clear(g: Seq<Seq<bool>>, n: nat) -> bool {
    &&& !any_foreground(peel_state(g, n).0)
    &&& forall|j: nat| j < n ==> any_foreground(#[trigger] peel_state(g, j).0)
}

/// Whether the raster holds a foreground cell anywhere, border included.
pub fn has_foreground(b: &BinaryRaster) -> (r: bool)
    requires
        b.wf(),
    ensures
        r == any_foreground(b@),
{
    let h = b.height();
    let w = b.width();
    let mut i: usize = 0;
    while i < h
        invariant
            b.wf(),
            h == b.spec_height(),
            w == b.spec_width(),
            i <= h,
            forall|r: int, c: int| 0 <= r < i && 0 <= c < w ==> !#[trigger] b@[r][c],
        decreases h - i,
    {
        let mut j: usize = 0;
        while j < w
            invariant
                b.wf(),
                h == b.spec_height(),
                w == b.spec_width(),
                i < h,
                j <= w,
                forall|r: int, c: int| 0 <= r < i && 0 <= c < w ==> !#[trigger] b@[r][c],
                forall|c: int| 0 <= c < j ==> !#[trigger] b@[i as int][c],
            decreases w - j,
        {
            if b.get(i, j) {
                return true;
            }
            j += 1;
        }
        i += 1;
    }
    false
}

/// The detection pass of pass number `k`: labels every interior foreground
/// cell of `work` that has a background neighbor with `k + 1`. `work` is only
/// read, so no cell's test sees another cell's result of the same pass.
pub fn detect_pass(work: &BinaryRaster, labels: &mut LabelRaster, k: u64)
    requires
        work.wf(),
        old(labels).wf(),
        old(labels).spec_height() == work.spec_height(),
        old(labels).spec_width() == work.spec_width(),
        k < u64::MAX,
    ensures
        final(labels).wf(),
        final(labels).spec_height() == old(labels).spec_height(),
        final(labels).spec_width() == old(labels).spec_width(),
        final(labels)@ == detect(work@, old(labels)@, k as nat),
{
    let ghost g = work@;
    let ghost l0 = labels@;
    let ghost d = detect(g, l0, k as nat);
    let h = work.height();
    let w = work.width();
    if h < 3 || w < 3 {
        assert(labels@ =~~= d);
        return;
    }
    let mut r: usize = 1;
    while r < h - 1
        invariant
            work.wf(),
            labels.wf(),
            g == work@,
            h == work.spec_height(),
            w == work.spec_width(),
            h >= 3,
            w >= 3,
            labels.spec_height() == h,
            labels.spec_width() == w,
            is_grid(l0, h as nat, w as nat),
            d == detect(g, l0, k as nat),
            k < u64::MAX,
            1 <= r <= h - 1,
            forall|i: int, j: int|
                0 <= i < h && 0 <= j < w ==> #[trigger] labels@[i][j] == if i < r {
                    d[i][j]
                } else {
                    l0[i][j]
                },
        decreases h - r,
    {
        let mut c: usize = 1;
        while c < w - 1
            invariant
                work.wf(),
                labels.wf(),
                g == work@,
                h == work.spec_height(),
                w == work.spec_width(),
                h >= 3,
                w >= 3,
                labels.spec_height() == h,
                labels.spec_width() == w,
                is_grid(l0, h as nat, w as nat),
                d == detect(g, l0, k as nat),
                k < u64::MAX,
                1 <= r < h - 1,
                1 <= c <= w - 1,
                forall|i: int, j: int|
                    0 <= i < h && 0 <= j < w ==> #[trigger] labels@[i][j] == if i < r || (i == r
                        && j < c) {
                        d[i][j]
                    } else {
                        l0[i][j]
                    },
            decreases w - c,
        {
            if work.get(r, c) && (!work.get(r - 1, c - 1) || !work.get(r - 1, c) || !work.get(
                r - 1,
                c + 1,
            ) || !work.get(r, c - 1) || !work.get(r, c + 1) || !work.get(r + 1, c - 1)
                || !work.get(r + 1, c) || !work.get(r + 1, c + 1)) {
                labels.set(r, c, k + 1);
            }
            c += 1;
        }
        r += 1;
    }
    assert(labels@ =~~= d);
}

/// The erasure pass: every interior cell with a non-zero label becomes background.
pub fn erase_pass(work: &mut BinaryRaster, labels: &LabelRaster)
    requires
        old(work).wf(),
        labels.wf(),
        labels.spec_height() == old(work).spec_height(),
        labels.spec_width() == old(work).spec_width(),
    ensures
        final(work).wf(),
        final(work).spec_height() == old(work).spec_height(),
        final(work).spec_width() == old(work).spec_width(),
        final(work)@ == erase(old(work)@, labels@),
{
    let ghost g = work@;
    let ghost e = erase(g, labels@);
    let h = work.height();
    let w = work.width();
    if h < 3 || w < 3 {
        assert(work@ =~~= e);
        return;
    }
    let mut r: usize = 1;
    while r < h - 1
        invariant
            work.wf(),
            labels.wf(),
            h == work.spec_height(),
            w == work.spec_width(),
            h >= 3,
            w >= 3,
            labels.spec_height() == h,
            labels.spec_width() == w,
            is_grid(g, h as nat, w as nat),
            e == erase(g, labels@),
            1 <= r <= h - 1,
            forall|i: int, j: int|
                0 <= i < h && 0 <= j < w ==> #[trigger] work@[i][j] == if i < r {
                    e[i][j]
                } else {
                    g[i][j]
                },
        decreases h - r,
    {
        let mut c: usize = 1;
        while c < w - 1
            invariant
                work.wf(),
                labels.wf(),
                h == work.spec_height(),
                w == work.spec_width(),
                h >= 3,
                w >= 3,
                labels.spec_height() == h,
                labels.spec_width() == w,
                is_grid(g, h as nat, w as nat),
                e == erase(g, labels@),
                1 <= r < h - 1,
                1 <= c <= w - 1,
                forall|i: int, j: int|
                    0 <= i < h && 0 <= j < w ==> #[trigger] work@[i][j] == if i < r || (i == r
                        && j < c) {
                        e[i][j]
                    } else {
                        g[i][j]
                    },
            decreases w - c,
        {
            if labels.get(r, c) > 0 {
                work.set(r, c, false);
            }
            c += 1;
        }
        r += 1;
    }
    assert(work@ =~~= e);
}

/// Peels `binary` layer by layer until no foreground is left, allowing at most
/// `max_iterations` passes. On success returns the labels (each peeled cell
/// holds the number of the pass that removed it, counting from 1; border
/// cells and cells never foreground hold 0) and the number of passes made;
/// `binary` is then left all background. The border of `binary` is never
/// tested nor erased.
pub fn peel(binary: &mut BinaryRaster, max_iterations: u64) -> (res: Result<
    (LabelRaster, u64),
    PeelError,
>)
    requires
        old(binary).wf(),
    ensures
        final(binary).wf(),
        final(binary).spec_height() == old(binary).spec_height(),
        final(binary).spec_width() == old(binary).spec_width(),
        match res {
            Ok((labels, n)) => {
                &&& old(binary).spec_height() >= 3
                &&& old(binary).spec_width() >= 3
                &&& n <= max_iterations
                &&& is_first_clear(old(binary)@, n as nat)
                &&& labels.wf()
                &&& labels.spec_height() == old(binary).spec_height()
                &&& labels.spec_width() == old(binary).spec_width()
                &&& labels@ == peel_state(old(binary)@, n as nat).1
                &&& final(binary)@ == peel_state(old(binary)@, n as nat).0
            },
            Err(PeelError::InvalidDimensions) => {
                &&& old(binary).spec_height() < 3 || old(binary).spec_width() < 3
                &&& final(binary)@ == old(binary)@
            },
            Err(PeelError::IterationBudgetExceeded) => {
                &&& old(binary).spec_height() >= 3
                &&& old(binary).spec_width() >= 3
                &&& forall|j: nat|
                    j <= max_iterations ==> any_foreground(#[trigger] peel_state(old(binary)@, j).0)
                &&& final(binary)@ == peel_state(old(binary)@, max_iterations as nat).0
            },
        },
{
    let ghost g0 = binary@;
    let h = binary.height();
    let w = binary.width();
    if h < 3 || w < 3 {
        return Err(PeelError::InvalidDimensions);
    }
    let mut labels = LabelRaster::zeros(h, w);
    assert(g0[0].len() == w);
    let mut k: u64 = 0;
    while has_foreground(binary)
        invariant
            binary.wf(),
            labels.wf(),
            binary.spec_height() == h,
            binary.spec_width() == w,
            old(binary).spec_height() == h,
            old(binary).spec_width() == w,
            old(binary)@ == g0,
            labels.spec_height() == h,
            labels.spec_width() == w,
            h >= 3,
            w >= 3,
            k <= max_iterations,
            binary@ == peel_state(g0, k as nat).0,
            labels@ == peel_state(g0, k as nat).1,
            forall|j: nat| j < k ==> any_foreground(#[trigger] peel_state(g0, j).0),
        decreases max_iterations - k,
    {
        if k == max_iterations {
            return Err(PeelError::IterationBudgetExceeded);
        }
        detect_pass(binary, &mut labels, k);
        erase_pass(binary, &labels);
        k += 1;
    }
    Ok((labels, k))
}

} // verus!
