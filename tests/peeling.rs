use knot_peel::peel::{detect_pass, erase_pass, has_foreground, peel, PeelError};
use knot_peel::raster::{BinaryRaster, LabelRaster};

/// A raster of the given size whose cells are foreground where `fg` says so.
fn raster_from(height: usize, width: usize, fg: impl Fn(usize, usize) -> bool) -> BinaryRaster {
    let mut b = BinaryRaster::new(height, width);
    for r in 0..height {
        for c in 0..width {
            if fg(r, c) {
                b.set(r, c, true);
            }
        }
    }
    b
}

fn labels_of(l: &LabelRaster) -> Vec<Vec<u64>> {
    let mut rows = Vec::new();
    for r in 0..l.height() {
        let mut row = Vec::new();
        for c in 0..l.width() {
            row.push(l.get(r, c));
        }
        rows.push(row);
    }
    rows
}

fn all_background(b: &BinaryRaster) -> bool {
    !has_foreground(b)
}

#[test]
fn pass_ordering_interior_block() {
    let mut b = raster_from(5, 5, |r, c| (1..4).contains(&r) && (1..4).contains(&c));
    let (labels, n) = peel(&mut b, 100).unwrap();
    assert_eq!(n, 2);
    assert_eq!(
        labels_of(&labels),
        vec![
            vec![0, 0, 0, 0, 0],
            vec![0, 1, 1, 1, 0],
            vec![0, 1, 2, 1, 0],
            vec![0, 1, 1, 1, 0],
            vec![0, 0, 0, 0, 0],
        ]
    );
    assert!(all_background(&b));
}

#[test]
fn five_by_five_block_takes_three_passes() {
    let mut b = raster_from(7, 7, |r, c| (1..6).contains(&r) && (1..6).contains(&c));
    let (labels, n) = peel(&mut b, 100).unwrap();
    assert_eq!(n, 3);
    assert_eq!(
        labels_of(&labels),
        vec![
            vec![0, 0, 0, 0, 0, 0, 0],
            vec![0, 1, 1, 1, 1, 1, 0],
            vec![0, 1, 2, 2, 2, 1, 0],
            vec![0, 1, 2, 3, 2, 1, 0],
            vec![0, 1, 2, 2, 2, 1, 0],
            vec![0, 1, 1, 1, 1, 1, 0],
            vec![0, 0, 0, 0, 0, 0, 0],
        ]
    );
}

#[test]
fn minimal_center_cell() {
    let mut b = raster_from(3, 3, |r, c| r == 1 && c == 1);
    let (labels, n) = peel(&mut b, 10).unwrap();
    assert_eq!(n, 1);
    assert_eq!(labels.get(1, 1), 1);
    assert_eq!(labels_of(&labels), vec![vec![0, 0, 0], vec![0, 1, 0], vec![0, 0, 0]]);
}

#[test]
fn empty_raster_needs_no_pass() {
    let mut b = BinaryRaster::new(6, 4);
    let (labels, n) = peel(&mut b, 10).unwrap();
    assert_eq!(n, 0);
    assert_eq!(labels_of(&labels), vec![vec![0u64; 4]; 6]);
}

#[test]
fn empty_raster_with_no_budget() {
    let mut b = BinaryRaster::new(3, 3);
    let (labels, n) = peel(&mut b, 0).unwrap();
    assert_eq!(n, 0);
    assert_eq!(labels_of(&labels), vec![vec![0u64; 3]; 3]);
}

#[test]
fn too_small_rasters_are_refused() {
    for (h, w) in [(0, 0), (2, 5), (5, 2), (1, 1), (2, 2)] {
        let mut b = raster_from(h, w, |_, _| true);
        let before = b.clone();
        assert_eq!(peel(&mut b, 10), Err(PeelError::InvalidDimensions));
        assert_eq!(b, before);
    }
}

#[test]
fn border_foreground_exceeds_budget() {
    let mut b = raster_from(5, 6, |r, _| r == 0);
    assert_eq!(peel(&mut b, 20), Err(PeelError::IterationBudgetExceeded));
    for c in 0..6 {
        assert!(b.get(0, c));
    }
}

#[test]
fn border_cells_keep_label_zero() {
    let mut b = raster_from(6, 6, |r, c| r == 5 || (c >= 1 && c <= 4 && r >= 1 && r <= 4));
    let mut labels = LabelRaster::zeros(6, 6);
    for k in 0..5 {
        detect_pass(&b, &mut labels, k);
        erase_pass(&mut b, &labels);
    }
    for c in 0..6 {
        assert_eq!(labels.get(0, c), 0);
        assert_eq!(labels.get(5, c), 0);
        assert!(b.get(5, c));
        assert!(!b.get(0, c));
    }
    for r in 0..6 {
        assert_eq!(labels.get(r, 0), 0);
        assert_eq!(labels.get(r, 5), 0);
    }
    assert_eq!(labels.get(2, 2), 2);
    assert_eq!(labels.get(4, 1), 1);
    // Next to the foreground border row, so only the second pass reaches it.
    assert_eq!(labels.get(4, 2), 2);
}

#[test]
fn budget_counts_passes() {
    let inside = |r: usize, c: usize| (1..4).contains(&r) && (1..4).contains(&c);
    let mut b = raster_from(5, 5, inside);
    assert_eq!(peel(&mut b, 1), Err(PeelError::IterationBudgetExceeded));
    assert!(!b.get(1, 1));
    assert!(b.get(2, 2));
    let mut b = raster_from(5, 5, inside);
    assert_eq!(peel(&mut b, 2).unwrap().1, 2);
}

#[test]
fn repeated_runs_agree() {
    let shape = |r: usize, c: usize| {
        (1..8).contains(&r) && (1..10).contains(&c) && !(r == 4 && c == 5) && (r + c) % 7 != 0
    };
    let input = raster_from(9, 11, shape);
    let mut first = input.clone();
    let mut second = input.clone();
    let a = peel(&mut first, 50).unwrap();
    let b = peel(&mut second, 50).unwrap();
    assert_eq!(a, b);
    assert_eq!(labels_of(&a.0), labels_of(&b.0));
    assert_eq!(first, second);
}

#[test]
fn stays_within_pass_bound() {
    for (h, w) in [(3, 3), (4, 9), (8, 8), (11, 6), (12, 13)] {
        let mut b = raster_from(h, w, |r, c| r > 0 && c > 0 && r + 1 < h && c + 1 < w);
        let (_, n) = peel(&mut b, 1000).unwrap();
        let bound = (h.min(w) as u64 + 1) / 2;
        assert!(n <= bound, "{}x{}: {} passes", h, w, n);
    }
}

#[test]
fn labels_never_change_once_set() {
    let mut b = raster_from(8, 9, |r, c| r > 0 && c > 0 && r < 7 && c < 8 && (r, c) != (3, 3));
    let mut labels = LabelRaster::zeros(8, 9);
    let mut seen = labels_of(&labels);
    for k in 0..6 {
        detect_pass(&b, &mut labels, k);
        erase_pass(&mut b, &labels);
        let now = labels_of(&labels);
        for r in 0..8 {
            for c in 0..9 {
                if seen[r][c] != 0 {
                    assert_eq!(now[r][c], seen[r][c]);
                }
            }
        }
        seen = now;
    }
    assert!(all_background(&b));
    assert_eq!(seen[2][3], 1);
    assert_eq!(seen[3][4], 1);
}

#[test]
fn detection_reads_the_raster_before_erasure() {
    // A 3-wide bar: a pass fused with erasure would eat it from left to right.
    let mut b = raster_from(5, 8, |r, c| (1..4).contains(&r) && (1..7).contains(&c));
    let (labels, n) = peel(&mut b, 10).unwrap();
    assert_eq!(n, 2);
    assert_eq!(labels_of(&labels)[2], vec![0, 1, 2, 2, 2, 2, 1, 0]);
}

#[test]
fn detect_pass_labels_boundary_only() {
    let b = raster_from(5, 5, |r, c| (1..4).contains(&r) && (1..4).contains(&c));
    let mut labels = LabelRaster::zeros(5, 5);
    detect_pass(&b, &mut labels, 6);
    assert_eq!(labels.get(1, 1), 7);
    assert_eq!(labels.get(2, 2), 0);
    assert!(b.get(1, 1));
}

#[test]
fn from_rows_checks_shape() {
    assert!(BinaryRaster::from_rows(vec![vec![true, false], vec![false]]).is_none());
    let b = BinaryRaster::from_rows(vec![vec![false, true, false]; 4]).unwrap();
    assert_eq!(b.height(), 4);
    assert_eq!(b.width(), 3);
    assert!(b.get(2, 1));
    assert!(!b.get(2, 2));
    let e = BinaryRaster::from_rows(Vec::new()).unwrap();
    assert_eq!((e.height(), e.width()), (0, 0));
}

#[test]
fn has_foreground_sees_the_border() {
    let mut b = BinaryRaster::new(4, 4);
    assert!(!has_foreground(&b));
    b.set(3, 3, true);
    assert!(has_foreground(&b));
}
