use vstd::prelude::*;
use crate::raster::{is_grid, filled};
use crate::peel::{
    is_interior, has_background_neighbor, is_peeled, detect, erase, peel_state, any_foreground,
    is_first_clear,
};

verus! {

/// Cell `(r, c)` lies on the outer border of an `h` by `w` grid.
pub open spec fn is_border(h: nat, w: nat, r: int, c: int) -> bool {
    0 <= r < h && 0 <= c < w && (r == 0 || c == 0 || r == h - 1 || c == w - 1)
}

/// How many layers separate cell `(r, c)` from the outside of an `h` by `w`
/// grid: 0 on the border, 1 just inside it, and so on.
pub open spec fn depth(h: nat, w: nat, r: int, c: int) -> int {
    let a = if r <= h - 1 - r { r } else { h - 1 - r };
    let b = if c <= w - 1 - c { c } else { w - 1 - c };
    if a <= b { a } else { b }
}

/// Facts that hold after every number of passes: both grids keep their
/// shape, a labeled cell is background, and the border keeps its cells and
/// label 0.
proof fn lemma_state_facts(g: Seq<Seq<bool>>, h: nat, w: nat, n: nat)
    requires
        is_grid(g, h, w),
    ensures
        is_grid(peel_state(g, n).0, h, w),
        is_grid(peel_state(g, n).1, h, w),
        forall|r: int, c: int|
            0 <= r < h && 0 <= c < w && #[trigger] peel_state(g, n).1[r][c] != 0 ==> !peel_state(
                g,
                n,
            ).0[r][c],
        forall|r: int, c: int|
            is_border(h, w, r, c) ==> #[trigger] peel_state(g, n).0[r][c] == g[r][c]
                && peel_state(g, n).1[r][c] == 0,
    decreases n,
{
    if n == 0 {
        if h > 0 {
            assert(g[0].len() == w);
        }
    } else {
        lemma_state_facts(g, h, w, (n - 1) as nat);
        let prev = peel_state(g, (n - 1) as nat);
        let lab = detect(prev.0, prev.1, (n - 1) as nat);
        assert(peel_state(g, n) == (erase(prev.0, lab), lab));
        assert forall|r: int, c: int| is_border(h, w, r, c) implies #[trigger] peel_state(g, n).0[r][c]
            == g[r][c] && peel_state(g, n).1[r][c] == 0 by {
            assert(prev.0[r][c] == g[r][c]);
        }
    }
}

/// A cell's label, once non-zero, never changes in a later pass.
pub proof fn lemma_labels_monotonic(g: Seq<Seq<bool>>, h: nat, w: nat, n: nat, m: nat)
    requires
        is_grid(g, h, w),
        n <= m,
    ensures
        forall|r: int, c: int|
            0 <= r < h && 0 <= c < w && #[trigger] peel_state(g, n).1[r][c] != 0 ==> peel_state(
                g,
                m,
            ).1[r][c] == peel_state(g, n).1[r][c],
    decreases m - n,
{
    if n < m {
        lemma_labels_monotonic(g, h, w, n, (m - 1) as nat);
        lemma_state_facts(g, h, w, (m - 1) as nat);
        let prev = peel_state(g, (m - 1) as nat);
        let lab = detect(prev.0, prev.1, (m - 1) as nat);
        assert(peel_state(g, m) == (erase(prev.0, lab), lab));
        assert forall|r: int, c: int|
            0 <= r < h && 0 <= c < w && #[trigger] peel_state(g, n).1[r][c] != 0 implies peel_state(
            g,
            m,
        ).1[r][c] == peel_state(g, n).1[r][c] by {
            assert(prev.1[r][c] == peel_state(g, n).1[r][c]);
            assert(!prev.0[r][c]);
        }
    }
}

/// The border is never tested nor erased: after any number of passes each
/// border cell keeps its value and has label 0.
pub proof fn lemma_border_untouched(g: Seq<Seq<bool>>, h: nat, w: nat, n: nat)
    requires
        is_grid(g, h, w),
    ensures
        forall|r: int, c: int|
            is_border(h, w, r, c) ==> #[trigger] peel_state(g, n).0[r][c] == g[r][c]
                && peel_state(g, n).1[r][c] == 0,
{
    lemma_state_facts(g, h, w, n);
}

/// Foreground on the border never clears: whatever the number of passes,
/// foreground is left, so a run with any pass budget exceeds it.
pub proof fn lemma_border_foreground_never_clears(g: Seq<Seq<bool>>, h: nat, w: nat, r: int, c: int)
    requires
        is_grid(g, h, w),
        is_border(h, w, r, c),
        g[r][c],
    ensures
        forall|n: nat| any_foreground(#[trigger] peel_state(g, n).0),
{
    assert forall|n: nat| any_foreground(#[trigger] peel_state(g, n).0) by {
        lemma_state_facts(g, h, w, n);
        assert(peel_state(g, n).0[r][c]);
    }
}

/// With a background border, `k` passes clear every cell of depth at most `k`.
proof fn lemma_depth_cleared(g: Seq<Seq<bool>>, h: nat, w: nat, k: nat)
    requires
        is_grid(g, h, w),
        forall|r: int, c: int| is_border(h, w, r, c) ==> !#[trigger] g[r][c],
        k <= u64::MAX,
    ensures
        forall|r: int, c: int|
            0 <= r < h && 0 <= c < w && depth(h, w, r, c) <= k ==> !#[trigger] peel_state(
                g,
                k,
            ).0[r][c],
    decreases k,
{
    lemma_state_facts(g, h, w, k);
    if k == 0 {
        assert forall|r: int, c: int|
            0 <= r < h && 0 <= c < w && depth(h, w, r, c) <= k implies !#[trigger] peel_state(
            g,
            k,
        ).0[r][c] by {
            assert(is_border(h, w, r, c));
        }
    } else {
        lemma_depth_cleared(g, h, w, (k - 1) as nat);
        lemma_state_facts(g, h, w, (k - 1) as nat);
        let prev = peel_state(g, (k - 1) as nat);
        let s = prev.0;
        let lab = detect(s, prev.1, (k - 1) as nat);
        assert(peel_state(g, k) == (erase(s, lab), lab));
        assert forall|r: int, c: int|
            0 <= r < h && 0 <= c < w && depth(h, w, r, c) <= k implies !#[trigger] peel_state(
            g,
            k,
        ).0[r][c] by {
            if depth(h, w, r, c) < k && s[r][c] {
                assert(!s[r][c]);
            }
            if depth(h, w, r, c) == k && s[r][c] {
                assert(is_interior(s, r, c));
                if r <= h - 1 - r && r <= c && r <= w - 1 - c {
                    assert(!s[r - 1][c]);
                } else if c <= h - 1 - r && c <= r && c <= w - 1 - c {
                    assert(!s[r][c - 1]);
                } else if h - 1 - r <= r && h - 1 - r <= c && h - 1 - r <= w - 1 - c {
                    assert(!s[r + 1][c]);
                } else {
                    assert(!s[r][c + 1]);
                }
                assert(has_background_neighbor(s, r, c));
                assert(is_peeled(s, r, c));
                assert(lab[r][c] == k as u64);
            }
        }
    }
}

/// With foreground only strictly inside the border, `ceil(min(h, w) / 2)`
/// passes leave no foreground; so the run stops, and the number of passes it
/// makes is at most that bound.
pub proof fn lemma_peel_terminates(g: Seq<Seq<bool>>, h: nat, w: nat)
    requires
        is_grid(g, h, w),
        h <= usize::MAX,
        w <= usize::MAX,
        forall|r: int, c: int| is_border(h, w, r, c) ==> !#[trigger] g[r][c],
    ensures
        !any_foreground(peel_state(g, ((if h <= w { h } else { w }) + 1) as nat / 2).0),
        exists|n: nat| n <= ((if h <= w { h } else { w }) + 1) as nat / 2 && is_first_clear(g, n),
        forall|n: nat|
            is_first_clear(g, n) ==> n <= ((if h <= w { h } else { w }) + 1) as nat / 2,
{
    let bound = ((if h <= w { h } else { w }) + 1) as nat / 2;
    lemma_depth_cleared(g, h, w, bound);
    lemma_state_facts(g, h, w, bound);
    let s = peel_state(g, bound).0;
    assert forall|r: int, c: int| 0 <= r < s.len() && 0 <= c < s[r].len() implies !#[trigger] s[r][c] by {
        assert(depth(h, w, r, c) <= bound);
    }
    lemma_first_clear_from(g, 0, bound);
}

/// Some `n` in `i..=m` is the first pass count that clears `g`, given that
/// `m` passes clear it and fewer than `i` passes do not.
proof fn lemma_first_clear_from(g: Seq<Seq<bool>>, i: nat, m: nat)
    requires
        i <= m,
        !any_foreground(peel_state(g, m).0),
        forall|j: nat| j < i ==> any_foreground(#[trigger] peel_state(g, j).0),
    ensures
        exists|n: nat| n <= m && is_first_clear(g, n),
        forall|n: nat| is_first_clear(g, n) ==> n <= m,
    decreases m - i,
{
    if !any_foreground(peel_state(g, i).0) {
        assert(is_first_clear(g, i));
    } else {
        assert forall|j: nat| j < i + 1 implies any_foreground(#[trigger] peel_state(g, j).0) by {}
        lemma_first_clear_from(g, i + 1, m);
    }
    assert forall|n: nat| is_first_clear(g, n) implies n <= m by {
        if n > m {
            assert(any_foreground(peel_state(g, m).0));
        }
    }
}

/// A run is determined by its input: two pass counts that both first clear
/// `g` are the same, with the same labels and working raster.
pub proof fn lemma_peel_deterministic(g: Seq<Seq<bool>>, n1: nat, n2: nat)
    requires
        is_first_clear(g, n1),
        is_first_clear(g, n2),
    ensures
        n1 == n2,
        peel_state(g, n1) == peel_state(g, n2),
{
    if n1 < n2 {
        assert(any_foreground(peel_state(g, n1).0));
    }
    if n2 < n1 {
        assert(any_foreground(peel_state(g, n2).0));
    }
}

/// An all-background raster is clear after no pass, with all labels 0.
pub proof fn lemma_empty_raster(g: Seq<Seq<bool>>, h: nat, w: nat)
    requires
        is_grid(g, h, w),
        !any_foreground(g),
    ensures
        is_first_clear(g, 0),
        peel_state(g, 0).1 == filled(h, w, 0u64),
{
    if h > 0 {
        assert(g[0].len() == w);
    }
}

} // verus!
