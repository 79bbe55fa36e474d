use vstd::prelude::*;
use crate::cell::Cell;
use crate::coord::Point;

verus! {

/// Whether `p` lies on a grid of the given size: columns `1..=width`, rows
/// `1..=height`.
pub open spec fn in_bounds(width: nat, height: nat, p: Point) -> bool {
    &&& 1 <= p.0 <= width
    &&& 1 <= p.1 <= height
}

/// Whether every position of `s` lies on the grid.
pub open spec fn all_in_bounds(width: nat, height: nat, s: Seq<Point>) -> bool {
    forall|i: int| 0 <= i < s.len() ==> in_bounds(width, height, #[trigger] s[i])
}

/// Where the cell at `p` is stored in a grid laid out row by row.
pub open spec fn index_of(width: nat, p: Point) -> int {
    (p.1 - 1) * width + (p.0 - 1)
}

/// A run of `n` empty cells.
pub open spec fn blank(n: nat) -> Seq<Cell> {
    Seq::new(n, |i: int| Cell::Off)
}

/// Row `y` of a grid, counted from 1 at the top.
pub open spec fn row(cells: Seq<Cell>, width: nat, y: int) -> Seq<Cell> {
    cells.subrange((y - 1) * width, y * width)
}

/// Rows `from + 1` to `to` of a grid, in order.
pub open spec fn band(cells: Seq<Cell>, width: nat, from: int, to: int) -> Seq<Cell> {
    cells.subrange(from * width, to * width)
}

/// Whether every cell of a row is painted.
pub open spec fn full(cells: Seq<Cell>) -> bool {
    forall|i: int| 0 <= i < cells.len() ==> (#[trigger] cells[i]).occupied()
}

/// Whether some position of `s` is stored at index `k`.
pub open spec fn hit(width: nat, s: Seq<Point>, k: int) -> bool {
    exists|i: int| 0 <= i < s.len() && #[trigger] index_of(width, s[i]) == k
}

/// The grid after every cell at a position of `s` has been set to `v`.
pub open spec fn painted(cells: Seq<Cell>, width: nat, s: Seq<Point>, v: Cell) -> Seq<Cell> {
    Seq::new(cells.len(), |k: int| if hit(width, s, k) { v } else { cells[k] })
}

/// Whether every position of `s` lies on the grid and on an empty cell.
pub open spec fn vacant(cells: Seq<Cell>, width: nat, height: nat, s: Seq<Point>) -> bool {
    forall|i: int|
        0 <= i < s.len() ==> in_bounds(width, height, #[trigger] s[i]) && cells[index_of(
            width,
            s[i],
        )] == Cell::Off
}

/// The top `rows` rows of a grid after its full rows have been taken out:
/// the rows that are not full keep their order and sink to the bottom, and
/// one empty row enters at the top for each full row removed.
pub open spec fn collapse(cells: Seq<Cell>, width: nat, rows: nat) -> Seq<Cell>
    decreases rows,
{
    if rows == 0 {
        Seq::empty()
    } else {
        let above = collapse(cells, width, (rows - 1) as nat);
        let last = row(cells, width, rows as int);
        if full(last) {
            blank(width) + above
        } else {
            above + last
        }
    }
}

/// How many of the top `rows` rows of a grid are full.
pub open spec fn full_rows(cells: Seq<Cell>, width: nat, rows: nat) -> nat
    decreases rows,
{
    if rows == 0 {
        0
    } else {
        let above = full_rows(cells, width, (rows - 1) as nat);
        if full(row(cells, width, rows as int)) {
            above + 1
        } else {
            above
        }
    }
}

/// Where row `y` begins and ends in a grid of `height` rows.
pub proof fn lemma_row_span(width: nat, height: nat, y: int)
    requires
        1 <= y <= height,
    ensures
        0 <= (y - 1) * width,
        y * width == (y - 1) * width + width,
        y * width <= height * width,
        height * width == width * height,
{
    assert(y * width == (y - 1) * width + width) by (nonlinear_arith);
    assert(0 <= (y - 1) * width) by (nonlinear_arith)
        requires
            1 <= y,
    ;
    assert(y * width <= height * width) by (nonlinear_arith)
        requires
            y <= height,
    ;
    assert(height * width == width * height) by (nonlinear_arith);
}

/// A position on the grid is stored inside the grid, within its own row.
pub proof fn lemma_index_in_range(width: nat, height: nat, p: Point)
    requires
        in_bounds(width, height, p),
    ensures
        0 <= (p.1 - 1) * width <= index_of(width, p) < p.1 * width <= width * height,
{
    lemma_row_span(width, height, p.1);
}

/// Two positions on the grid that are stored at the same index are the same
/// position.
pub proof fn lemma_index_injective(width: nat, height: nat, p: Point, q: Point)
    requires
        in_bounds(width, height, p),
        in_bounds(width, height, q),
        index_of(width, p) == index_of(width, q),
    ensures
        p == q,
{
    lemma_index_in_range(width, height, p);
    lemma_index_in_range(width, height, q);
    if p.1 < q.1 {
        assert(p.1 * width <= (q.1 - 1) * width) by (nonlinear_arith)
            requires
                p.1 <= q.1 - 1,
        ;
    } else if q.1 < p.1 {
        assert(q.1 * width <= (p.1 - 1) * width) by (nonlinear_arith)
            requires
                q.1 <= p.1 - 1,
        ;
    }
}

/// Row `y` of a grid has `width` cells, and its cell in column `x` is the
/// one stored for `(x, y)`.
pub proof fn lemma_row_cells(cells: Seq<Cell>, width: nat, height: nat, y: int)
    requires
        cells.len() == width * height,
        1 <= y <= height,
    ensures
        row(cells, width, y).len() == width,
        forall|x: int|
            1 <= x <= width ==> #[trigger] row(cells, width, y)[x - 1] == cells[index_of(
                width,
                (x, y),
            )],
{
    lemma_row_span(width, height, y);
}

/// Collapsing the top `rows` rows gives back as many cells as went in.
pub proof fn lemma_collapse_len(cells: Seq<Cell>, width: nat, height: nat, rows: nat)
    requires
        cells.len() == width * height,
        rows <= height,
    ensures
        collapse(cells, width, rows).len() == rows * width,
        full_rows(cells, width, rows) <= rows,
    decreases rows,
{
    if rows == 0 {
        assert(rows * width == 0) by (nonlinear_arith)
            requires
                rows == 0,
        ;
    } else {
        lemma_collapse_len(cells, width, height, (rows - 1) as nat);
        lemma_row_span(width, height, rows as int);
    }
}

/// Rows that are not full stay where they are when nothing below them is
/// cleared: if none of the rows `n + 1 ..= m` is full, collapsing the top
/// `m` rows collapses the top `n` and leaves the others as they were.
pub proof fn lemma_collapse_keeps_rows(
    cells: Seq<Cell>,
    width: nat,
    height: nat,
    n: nat,
    m: nat,
)
    requires
        cells.len() == width * height,
        n <= m <= height,
        forall|y: int| n < y <= m ==> !full(#[trigger] row(cells, width, y)),
    ensures
        collapse(cells, width, m) == collapse(cells, width, n) + band(
            cells,
            width,
            n as int,
            m as int,
        ),
        full_rows(cells, width, m) == full_rows(cells, width, n),
    decreases m - n,
{
    lemma_collapse_len(cells, width, height, n);
    if n > 0 {
        lemma_row_span(width, height, n as int);
    } else {
        assert(0 * width == 0) by (nonlinear_arith);
    }
    if m == n {
        assert(collapse(cells, width, m) =~= collapse(cells, width, n) + band(
            cells,
            width,
            n as int,
            m as int,
        ));
    } else {
        lemma_collapse_keeps_rows(cells, width, height, n, (m - 1) as nat);
        lemma_row_span(width, height, m as int);
        assert(n * width <= (m - 1) * width) by (nonlinear_arith)
            requires
                n <= m - 1,
        ;
        assert(!full(row(cells, width, m as int)));
        assert(collapse(cells, width, m) =~= collapse(cells, width, n) + band(
            cells,
            width,
            n as int,
            m as int,
        ));
    }
}

/// Multiplying by a width keeps the order of two row numbers and spreads
/// over their sum.
proof fn lemma_row_products(a: int, b: int, width: nat)
    ensures
        a <= b ==> a * width <= b * width,
        (a + b) * width == a * width + b * width,
        (a - b) * width == a * width - b * width,
{
    assert(a <= b ==> a * width <= b * width) by (nonlinear_arith);
    assert((a + b) * width == a * width + b * width) by (nonlinear_arith);
    assert((a - b) * width == a * width - b * width) by (nonlinear_arith);
}

/// The rows of a grid from which the `k` rows after row `a` have been
/// taken, `k` empty rows having entered at the top: the first `k` rows are
/// empty, the next `a` rows are the old rows `1..=a`, and the rows below
/// are where they were.
pub proof fn lemma_rows_after_removal(
    cells: Seq<Cell>,
    width: nat,
    height: nat,
    a: int,
    k: int,
    y: int,
)
    requires
        cells.len() == width * height,
        0 <= a,
        0 <= k,
        a + k <= height,
        1 <= y <= height,
    ensures
        ({
            let after = blank((k * width) as nat) + band(cells, width, 0, a) + band(
                cells,
                width,
                a + k,
                height as int,
            );
            &&& after.len() == cells.len()
            &&& row(after, width, y) == if y <= k {
                blank(width)
            } else if y <= a + k {
                row(cells, width, y - k)
            } else {
                row(cells, width, y)
            }
        }),
{
    let after = blank((k * width) as nat) + band(cells, width, 0, a) + band(
        cells,
        width,
        a + k,
        height as int,
    );
    lemma_row_products(0, k, width);
    lemma_row_products(0, a, width);
    lemma_row_products(a, k, width);
    lemma_row_products(a + k, height as int, width);
    lemma_row_products(height as int, 0, width);
    lemma_row_products(y - 1, 1, width);
    lemma_row_products(y, height as int, width);
    lemma_row_products(0, y - 1, width);
    assert(1 * width == width) by (nonlinear_arith);
    assert(height * width == width * height) by (nonlinear_arith);
    assert(after.len() == cells.len());
    if y <= k {
        lemma_row_products(y, k, width);
        assert(row(after, width, y) =~= blank(width));
    } else if y <= a + k {
        lemma_row_products(k, y - 1, width);
        lemma_row_products(y, a + k, width);
        lemma_row_products(y - 1, k, width);
        lemma_row_products(y, k, width);
        lemma_row_products(0, y - k - 1, width);
        lemma_row_products(y - k, a, width);
        assert(row(after, width, y) =~= row(cells, width, y - k));
    } else {
        lemma_row_products(a + k, y - 1, width);
        assert(row(after, width, y) =~= row(cells, width, y));
    }
}

/// A grid without a full row is left as it is, and nothing is counted.
pub proof fn lemma_collapse_without_full_rows(cells: Seq<Cell>, width: nat, height: nat)
    requires
        cells.len() == width * height,
        forall|y: int| 1 <= y <= height ==> !full(#[trigger] row(cells, width, y)),
    ensures
        collapse(cells, width, height) == cells,
        full_rows(cells, width, height) == 0,
{
    lemma_collapse_keeps_rows(cells, width, height, 0, height);
    assert(height * width == width * height) by (nonlinear_arith);
    assert(0 * width == 0) by (nonlinear_arith);
    assert(collapse(cells, width, height) =~= cells);
}

/// Where row `r` is the only full row, it is cleared and counted once: an
/// empty row enters at the top, the rows above `r` move one row down, and
/// the rows below `r` stay as they were.
pub proof fn lemma_collapse_one_full_row(cells: Seq<Cell>, width: nat, height: nat, r: nat)
    requires
        cells.len() == width * height,
        1 <= r <= height,
        full(row(cells, width, r as int)),
        forall|y: int| 1 <= y <= height && y != r ==> !full(#[trigger] row(cells, width, y)),
    ensures
        collapse(cells, width, height) == blank(width) + band(cells, width, 0, r - 1) + band(
            cells,
            width,
            r as int,
            height as int,
        ),
        full_rows(cells, width, height) == 1,
        row(collapse(cells, width, height), width, 1) == blank(width),
        forall|y: int|
            1 < y <= r ==> #[trigger] row(collapse(cells, width, height), width, y) == row(
                cells,
                width,
                y - 1,
            ),
        forall|y: int|
            r < y <= height ==> #[trigger] row(collapse(cells, width, height), width, y) == row(
                cells,
                width,
                y,
            ),
{
    let above = (r - 1) as nat;
    lemma_collapse_keeps_rows(cells, width, height, 0, above);
    lemma_collapse_keeps_rows(cells, width, height, r, height);
    lemma_collapse_len(cells, width, height, above);
    lemma_row_span(width, height, r as int);
    assert(0 * width == 0) by (nonlinear_arith);
    assert(1 * width == width) by (nonlinear_arith);
    assert(collapse(cells, width, above) =~= band(cells, width, 0, r - 1));
    assert(collapse(cells, width, r) == blank(width) + collapse(cells, width, above));
    assert forall|y: int| 1 <= y <= height implies #[trigger] row(
        collapse(cells, width, height),
        width,
        y,
    ) == if y <= 1 {
        blank(width)
    } else if y <= r {
        row(cells, width, y - 1)
    } else {
        row(cells, width, y)
    } by {
        lemma_rows_after_removal(cells, width, height, r - 1, 1, y);
    }
}

/// Where rows `r` and `r + 1` are the only full rows, both are cleared and
/// counted: two empty rows enter at the top, the rows above `r` move two
/// rows down, and the rows below `r + 1` stay as they were.
pub proof fn lemma_collapse_two_full_rows(cells: Seq<Cell>, width: nat, height: nat, r: nat)
    requires
        cells.len() == width * height,
        1 <= r < height,
        full(row(cells, width, r as int)),
        full(row(cells, width, r as int + 1)),
        forall|y: int|
            1 <= y <= height && y != r && y != r + 1 ==> !full(#[trigger] row(cells, width, y)),
    ensures
        collapse(cells, width, height) == blank(width) + blank(width) + band(cells, width, 0, r - 1)
            + band(cells, width, r as int + 1, height as int),
        full_rows(cells, width, height) == 2,
        row(collapse(cells, width, height), width, 1) == blank(width),
        row(collapse(cells, width, height), width, 2) == blank(width),
        forall|y: int|
            2 < y <= r + 1 ==> #[trigger] row(collapse(cells, width, height), width, y) == row(
                cells,
                width,
                y - 2,
            ),
        forall|y: int|
            r + 1 < y <= height ==> #[trigger] row(collapse(cells, width, height), width, y)
                == row(cells, width, y),
{
    let above = (r - 1) as nat;
    let below = (r + 1) as nat;
    lemma_collapse_keeps_rows(cells, width, height, 0, above);
    lemma_collapse_keeps_rows(cells, width, height, below, height);
    lemma_collapse_len(cells, width, height, above);
    lemma_collapse_len(cells, width, height, r);
    lemma_row_span(width, height, r as int);
    lemma_row_span(width, height, r as int + 1);
    assert(0 * width == 0) by (nonlinear_arith);
    assert(collapse(cells, width, above) =~= band(cells, width, 0, r - 1));
    assert(collapse(cells, width, r) == blank(width) + collapse(cells, width, above));
    assert(collapse(cells, width, below) == blank(width) + collapse(cells, width, r));
    assert(collapse(cells, width, below) =~= blank(width) + blank(width) + band(
        cells,
        width,
        0,
        r - 1,
    ));
    assert(2 * width == width + width) by (nonlinear_arith);
    assert(blank((2 * width) as nat) =~= blank(width) + blank(width));
    assert forall|y: int| 1 <= y <= height implies #[trigger] row(
        collapse(cells, width, height),
        width,
        y,
    ) == if y <= 2 {
        blank(width)
    } else if y <= r + 1 {
        row(cells, width, y - 2)
    } else {
        row(cells, width, y)
    } by {
        lemma_rows_after_removal(cells, width, height, r - 1, 2, y);
    }
}

/// Collapsing leaves no full row behind: on a grid with at least one
/// column, none of the top `n` rows is full afterwards.
pub proof fn lemma_collapse_leaves_no_full_row(
    cells: Seq<Cell>,
    width: nat,
    height: nat,
    n: nat,
    y: int,
)
    requires
        cells.len() == width * height,
        width > 0,
        n <= height,
        1 <= y <= n,
    ensures
        !full(row(collapse(cells, width, n), width, y)),
    decreases n,
{
    let above = (n - 1) as nat;
    let all = collapse(cells, width, n);
    let rest = collapse(cells, width, above);
    let last = row(cells, width, n as int);
    lemma_collapse_len(cells, width, height, n);
    lemma_collapse_len(cells, width, height, above);
    lemma_row_span(width, height, n as int);
    lemma_row_span(width, n, y);
    if full(last) {
        if y == 1 {
            assert(0 * width == 0 && 1 * width == width) by (nonlinear_arith);
            assert(blank(width)[0] == Cell::Off);
            assert(row(all, width, y)[0] == Cell::Off);
        } else {
            lemma_collapse_leaves_no_full_row(cells, width, height, above, y - 1);
            lemma_row_span(width, above, y - 1);
            assert(row(all, width, y) =~= row(rest, width, y - 1));
        }
    } else {
        if y == n {
            assert(row(all, width, y) =~= last);
        } else {
            lemma_collapse_leaves_no_full_row(cells, width, height, above, y);
            lemma_row_span(width, above, y);
            assert(row(all, width, y) =~= row(rest, width, y));
        }
    }
}

} // verus!
