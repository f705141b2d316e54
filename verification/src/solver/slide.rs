//! Slide/jigsaw captchas: the X offset of the notch is the column with the most
//! horizontal-gradient energy inside the search band.
use vstd::prelude::*;

use crate::solver::gray::GrayImage;
use crate::solver::{decode, is_notch_outcome, SolveError, SolveStep};
use crate::strings::{i64_to_decimal, int_decimal, string_of};

verus! {

/// Luma of pixel `(x, y)`.
pub open spec fn pixel_at(width: u32, pixels: Seq<u8>, x: int, y: int) -> int {
    pixels[y * width + x] as int
}

/// `|a - b|`.
pub open spec fn abs_diff(a: int, b: int) -> int {
    if a >= b {
        a - b
    } else {
        b - a
    }
}

/// Horizontal-gradient energy of column `x` over the first `rows` rows:
/// the sum of `|pixel(x + 1, y) - pixel(x - 1, y)|`.
pub open spec fn edge_in_rows(width: u32, pixels: Seq<u8>, x: int, rows: int) -> int
    decreases rows,
{
    if rows <= 0 {
        0
    } else {
        edge_in_rows(width, pixels, x, rows - 1) + abs_diff(
            pixel_at(width, pixels, x + 1, rows - 1),
            pixel_at(width, pixels, x - 1, rows - 1),
        )
    }
}

/// Gradient energy of column `x`; the first and last columns, which have no
/// neighbor on one side, count zero.
pub open spec fn column_edge(width: u32, height: u32, pixels: Seq<u8>, x: int) -> int {
    if 1 <= x < width - 1 {
        edge_in_rows(width, pixels, x, height as int)
    } else {
        0
    }
}

pub proof fn lemma_edge_in_rows_bound(width: u32, height: u32, pixels: Seq<u8>, x: int, rows: int)
    requires
        pixels.len() == width * height,
        1 <= x < width - 1,
        0 <= rows <= height,
    ensures
        0 <= edge_in_rows(width, pixels, x, rows) <= 255 * rows,
    decreases rows,
{
    if rows > 0 {
        lemma_edge_in_rows_bound(width, height, pixels, x, rows - 1);
    }
}

/// The rows of a `width` × `height` image, top to bottom.
pub open spec fn rows_of(width: u32, height: u32, pixels: Seq<u8>) -> Seq<Seq<u8>> {
    Seq::new(height as nat, |y: int| pixels.subrange(y * width, y * width + width))
}

/// Gradient energy one row contributes to column `x`.
pub open spec fn row_term(row: Seq<u8>, x: int) -> int {
    abs_diff(row[x + 1] as int, row[x - 1] as int)
}

/// Gradient energy of column `x` summed over `rows`.
pub open spec fn rows_energy(rows: Seq<Seq<u8>>, x: int) -> int
    decreases rows.len(),
{
    if rows.len() == 0 {
        0
    } else {
        rows_energy(rows.drop_last(), x) + row_term(rows.last(), x)
    }
}

/// The energies of all columns, as `column_edges` returns them.
pub open spec fn energies(width: u32, height: u32, pixels: Seq<u8>) -> Seq<u64> {
    Seq::new(width as nat, |x: int| column_edge(width, height, pixels, x) as u64)
}

proof fn lemma_edge_in_rows_is_rows_energy(width: u32, height: u32, pixels: Seq<u8>, x: int, k: int)
    requires
        pixels.len() == width * height,
        1 <= x < width - 1,
        0 <= k <= height,
    ensures
        edge_in_rows(width, pixels, x, k) == rows_energy(rows_of(width, height, pixels).take(k), x),
    decreases k,
{
    let rows = rows_of(width, height, pixels);
    if k > 0 {
        lemma_edge_in_rows_is_rows_energy(width, height, pixels, x, k - 1);
        assert(rows.take(k).drop_last() == rows.take(k - 1));
        let y = k - 1;
        assert(y * width + width <= width * height) by (nonlinear_arith)
            requires 0 <= y < height;
        assert(0 <= y * width) by (nonlinear_arith)
            requires 0 <= y, 0 <= width;
        let row = rows.take(k).last();
        assert(row == pixels.subrange(y * width, y * width + width));
        assert(row[x + 1] == pixels[y * width + x + 1]);
        assert(row[x - 1] == pixels[y * width + x - 1]);
    } else {
        assert(rows.take(0) == Seq::<Seq<u8>>::empty());
    }
}

proof fn lemma_rows_energy_remove(t: Seq<Seq<u8>>, i: int, x: int)
    requires
        0 <= i < t.len(),
    ensures
        rows_energy(t, x) == rows_energy(t.remove(i), x) + row_term(t[i], x),
    decreases t.len(),
{
    if i == t.len() - 1 {
        assert(t.remove(i) == t.drop_last());
    } else {
        lemma_rows_energy_remove(t.drop_last(), i, x);
        assert(t.remove(i).drop_last() == t.drop_last().remove(i));
        assert(t.remove(i).last() == t.last());
    }
}

proof fn lemma_rows_energy_permutation(s: Seq<Seq<u8>>, t: Seq<Seq<u8>>, x: int)
    requires
        s.to_multiset() == t.to_multiset(),
    ensures
        rows_energy(s, x) == rows_energy(t, x),
    decreases s.len(),
{
    broadcast use vstd::seq_lib::group_to_multiset_ensures;

    if s.len() == 0 {
        assert(t.to_multiset().len() == 0);
        assert(t.len() == 0);
    } else {
        let a = s.last();
        assert(s.contains(a)) by {
            assert(s[s.len() - 1] == a);
        }
        assert(t.to_multiset().count(a) > 0);
        assert(t.contains(a));
        let i = choose|i: int| 0 <= i < t.len() && t[i] == a;
        lemma_rows_energy_remove(t, i, x);
        let s0 = s.drop_last();
        assert(s0.push(a) == s);
        assert(s0.to_multiset() =~= t.remove(i).to_multiset()) by {
            broadcast use vstd::multiset::group_multiset_axioms;

            assert(s.to_multiset() =~= s0.to_multiset().insert(a));
            assert(t.remove(i).to_multiset() =~= t.to_multiset().remove(a));
        }
        lemma_rows_energy_permutation(s0, t.remove(i), x);
    }
}

/// The notch answer does not depend on the order of the image's rows: when the
/// rows of `q` are those of `p` rearranged, every column has the same energy, so
/// the search picks the same column in any band.
pub proof fn lemma_notch_ignores_row_order(width: u32, height: u32, p: Seq<u8>, q: Seq<u8>)
    requires
        p.len() == width * height,
        q.len() == width * height,
        rows_of(width, height, q).to_multiset() == rows_of(width, height, p).to_multiset(),
    ensures
        energies(width, height, q) == energies(width, height, p),
        forall|start: int, end: int, k: int|
            is_last_max(energies(width, height, q), start, end, k) <==> is_last_max(
                energies(width, height, p),
                start,
                end,
                k,
            ),
{
    assert forall|x: int| 0 <= x < width implies column_edge(width, height, q, x) == column_edge(width, height, p, x) by {
        if 1 <= x < width - 1 {
            lemma_edge_in_rows_is_rows_energy(width, height, p, x, height as int);
            lemma_edge_in_rows_is_rows_energy(width, height, q, x, height as int);
            assert(rows_of(width, height, p).take(height as int) == rows_of(width, height, p));
            assert(rows_of(width, height, q).take(height as int) == rows_of(width, height, q));
            lemma_rows_energy_permutation(rows_of(width, height, q), rows_of(width, height, p), x);
        }
    }
    assert(energies(width, height, q) =~= energies(width, height, p));
}

proof fn lemma_edge_in_rows_shift(width: u32, p: Seq<u8>, q: Seq<u8>, k: int, x: int, rows: int)
    requires
        p.len() == q.len(),
        forall|i: int| 0 <= i < p.len() ==> #[trigger] q[i] == p[i] + k,
        1 <= x < width - 1,
        0 <= rows,
        rows * width <= p.len(),
    ensures
        edge_in_rows(width, q, x, rows) == edge_in_rows(width, p, x, rows),
    decreases rows,
{
    if rows > 0 {
        let y = rows - 1;
        assert(0 <= y * width && y * width + width == rows * width) by (nonlinear_arith)
            requires y == rows - 1, 0 <= y, 0 <= width;
        assert((rows - 1) * width <= p.len()) by (nonlinear_arith)
            requires rows * width <= p.len(), rows >= 1, 0 <= width;
        lemma_edge_in_rows_shift(width, p, q, k, x, rows - 1);
        assert(q[y * width + x + 1] == p[y * width + x + 1] + k);
        assert(q[y * width + x - 1] == p[y * width + x - 1] + k);
    }
}

/// The notch answer does not depend on overall brightness: when every pixel of
/// `q` is the pixel of `p` plus the same `k`, every column has the same energy, so
/// the search picks the same column in any band.
pub proof fn lemma_notch_ignores_brightness_shift(width: u32, height: u32, p: Seq<u8>, q: Seq<u8>, k: int)
    requires
        p.len() == width * height,
        q.len() == width * height,
        forall|i: int| 0 <= i < p.len() ==> #[trigger] q[i] == p[i] + k,
    ensures
        energies(width, height, q) == energies(width, height, p),
        forall|start: int, end: int, j: int|
            is_last_max(energies(width, height, q), start, end, j) <==> is_last_max(
                energies(width, height, p),
                start,
                end,
                j,
            ),
{
    assert forall|x: int| 0 <= x < width implies column_edge(width, height, q, x) == column_edge(width, height, p, x) by {
        if 1 <= x < width - 1 {
            assert(height * width == width * height) by (nonlinear_arith);
            lemma_edge_in_rows_shift(width, p, q, k, x, height as int);
        }
    }
    assert(energies(width, height, q) =~= energies(width, height, p));
}

/// The notch column of a band is unique: at most one column is the last one with
/// the largest energy.
pub proof fn lemma_last_max_unique(e: Seq<u64>, start: int, end: int, k1: int, k2: int)
    requires
        is_last_max(e, start, end, k1),
        is_last_max(e, start, end, k2),
    ensures
        k1 == k2,
{
    if k1 < k2 {
        assert(e[k2] < e[k1]);
        assert(e[k2] <= e[k2] && e[k1] <= e[k2]);
    } else if k2 < k1 {
        assert(e[k1] < e[k2]);
        assert(e[k2] <= e[k1]);
    }
}

proof fn lemma_edge_in_rows_covers(width: u32, pixels: Seq<u8>, x: int, rows: int, y: int)
    requires
        0 <= y < rows,
    ensures
        edge_in_rows(width, pixels, x, rows) >= abs_diff(
            pixel_at(width, pixels, x + 1, y),
            pixel_at(width, pixels, x - 1, y),
        ),
    decreases rows,
{
    if y < rows - 1 {
        lemma_edge_in_rows_covers(width, pixels, x, rows - 1, y);
    }
    lemma_edge_in_rows_nonneg(width, pixels, x, rows - 1);
}

proof fn lemma_edge_in_rows_nonneg(width: u32, pixels: Seq<u8>, x: int, rows: int)
    ensures
        edge_in_rows(width, pixels, x, rows) >= 0,
    decreases rows,
{
    if rows > 0 {
        lemma_edge_in_rows_nonneg(width, pixels, x, rows - 1);
    }
}

/// Energy of an inner column is the sum over all the image's rows of the
/// difference across the column: it equals `rows_energy` of the rows, so at
/// least each row's difference, and it is zero exactly when every row has the
/// same value on both sides of the column. The first and last columns have
/// energy zero.
pub proof fn lemma_column_edge_sums_rows(width: u32, height: u32, p: Seq<u8>, x: int)
    requires
        p.len() == width * height,
        0 <= x < width,
    ensures
        1 <= x < width - 1 ==> column_edge(width, height, p, x) == rows_energy(rows_of(width, height, p), x),
        1 <= x < width - 1 ==> forall|y: int| 0 <= y < height ==> column_edge(width, height, p, x) >= abs_diff(
            #[trigger] p[y * width + x + 1] as int,
            p[y * width + x - 1] as int,
        ),
        1 <= x < width - 1 ==> (column_edge(width, height, p, x) == 0 <==> forall|y: int|
            0 <= y < height ==> #[trigger] p[y * width + x + 1] == p[y * width + x - 1]),
        x == 0 || x == width - 1 ==> column_edge(width, height, p, x) == 0,
{
    if 1 <= x < width - 1 {
        lemma_edge_in_rows_is_rows_energy(width, height, p, x, height as int);
        assert(rows_of(width, height, p).take(height as int) == rows_of(width, height, p));
        assert forall|y: int| 0 <= y < height implies column_edge(width, height, p, x) >= abs_diff(
            #[trigger] p[y * width + x + 1] as int,
            p[y * width + x - 1] as int,
        ) by {
            lemma_edge_in_rows_covers(width, p, x, height as int, y);
        }
        if forall|y: int| 0 <= y < height ==> #[trigger] p[y * width + x + 1] == p[y * width + x - 1] {
            lemma_edge_in_rows_zero(width, p, x, height as int);
        }
    }
}

proof fn lemma_edge_in_rows_zero(width: u32, p: Seq<u8>, x: int, rows: int)
    requires
        forall|y: int| 0 <= y < rows ==> #[trigger] p[y * width + x + 1] == p[y * width + x - 1],
    ensures
        edge_in_rows(width, p, x, rows) == 0,
    decreases rows,
{
    if rows > 0 {
        lemma_edge_in_rows_zero(width, p, x, rows - 1);
        assert(p[(rows - 1) * width + x + 1] == p[(rows - 1) * width + x - 1]);
    }
}

/// Gradient energy of every column of `img`.
pub fn column_edges(img: &GrayImage) -> (edges: Vec<u64>)
    requires
        img.wf(),
    ensures
        edges.len() == img.width,
        forall|x: int| 0 <= x < edges.len() ==> #[trigger] edges@[x] == column_edge(img.width, img.height, img.pixels@, x),
        edges@ == energies(img.width, img.height, img.pixels@),
{
    let w = img.width as usize;
    let h = img.height as usize;
    let mut col: Vec<u64> = vec![0u64; w];
    let mut y: usize = 0;
    while y < h
        invariant
            y <= h,
            w == img.width,
            h == img.height,
            img.wf(),
            col.len() == w,
            forall|x: int| 0 <= x < w ==> #[trigger] col@[x] == (if 1 <= x < w - 1 { edge_in_rows(img.width, img.pixels@, x, y as int) } else { 0 }),
        decreases h - y,
    {
        let mut x: usize = 1;
        while x + 1 < w
            invariant
                1 <= x,
                x == 1 || x < w,
                w <= u32::MAX,
                y < h,
                w == img.width,
                h == img.height,
                img.wf(),
                col.len() == w,
                forall|q: int| 0 <= q < w ==> #[trigger] col@[q] == (if 1 <= q < x && q < w - 1 {
                    edge_in_rows(img.width, img.pixels@, q, y + 1)
                } else if 1 <= q < w - 1 {
                    edge_in_rows(img.width, img.pixels@, q, y as int)
                } else {
                    0
                }),
            decreases w - x,
        {
            assert(y * w + x + 1 < w * h) by (nonlinear_arith)
                requires y < h, x + 1 < w;
            assert(y * w + x + 1 == (y * w + x + 1) as usize);
            let row: usize = y * w;
            let left = img.pixels[row + x - 1];
            let right = img.pixels[row + x + 1];
            let diff: u64 = if right >= left { (right - left) as u64 } else { (left - right) as u64 };
            proof {
                lemma_edge_in_rows_bound(img.width, img.height, img.pixels@, x as int, y as int);
                assert(y * 255 <= 255 * (u32::MAX as int)) by (nonlinear_arith)
                    requires y < h, h <= u32::MAX;
                assert(left == pixel_at(img.width, img.pixels@, x - 1, y as int));
                assert(right == pixel_at(img.width, img.pixels@, x + 1, y as int));
            }
            col.set(x, col[x] + diff);
            x = x + 1;
        }
        y = y + 1;
    }
    col
}

/// Solves a slide/jigsaw captcha up to the choice of the search band: the
/// background image (notch visible) is decoded and the gradient energy of each
/// column measured.
pub fn solve(image_bytes: &[u8]) -> (r: Result<SolveStep, SolveError>)
    ensures
        is_notch_outcome(image_bytes@, r),
{
    let img = match decode(image_bytes) {
        Ok(g) => g,
        Err(e) => return Err(e),
    };
    let edges = column_edges(&img);
    Ok(SolveStep::LocateNotch { width: img.width, edges })
}

/// `k` is the last position in `start..end` whose value is the largest there
/// (std's `Iterator::max_by_key` keeps the last of equal maxima).
pub open spec fn is_last_max(e: Seq<u64>, start: int, end: int, k: int) -> bool {
    &&& start <= k < end
    &&& forall|i: int| start <= i < end ==> #[trigger] e[i] <= e[k]
    &&& forall|i: int| k < i < end ==> #[trigger] e[i] < e[k]
}

/// The column in `start..end` with the most gradient energy (the last one on
/// ties), or `None` when the band is empty.
pub fn find_notch_offset(edges: &[u64], start: usize, end: usize) -> (r: Option<usize>)
    requires
        start <= end <= edges.len(),
    ensures
        r is None <==> start == end,
        r matches Some(k) ==> is_last_max(edges@, start as int, end as int, k as int),
{
    if start == end {
        return None;
    }
    let mut best = start;
    let mut i = start + 1;
    while i < end
        invariant
            start < i <= end,
            end <= edges.len(),
            is_last_max(edges@, start as int, i as int, best as int),
        decreases end - i,
    {
        if edges[i] >= edges[best] {
            best = i;
        }
        i = i + 1;
    }
    Some(best)
}

/// Answer to a slide captcha: the decimal X offset of the notch within the band
/// `start..end` of the column energies `edges`.
pub fn finish(edges: &Vec<u64>, start: usize, end: usize) -> (r: Result<String, SolveError>)
    requires
        start <= end <= edges.len(),
        edges.len() <= u32::MAX,
    ensures
        r is Err <==> start == end,
        r matches Err(e) ==> e == SolveError::EmptyImage,
        r matches Ok(t) ==> exists|k: int| is_last_max(edges@, start as int, end as int, k) && t@ == int_decimal(k),
{
    match find_notch_offset(edges.as_slice(), start, end) {
        None => Err(SolveError::EmptyImage),
        Some(k) => {
            let digits = i64_to_decimal(k as i64);
            Ok(string_of(&digits))
        },
    }
}

} // verus!
