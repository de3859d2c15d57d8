use vstd::prelude::*;
use crate::cell::{Cell, Status};

verus! {

// ---------------------------------------------------------------------------
// Boards as mathematical tables: `t[i][j]` is the cell in row `i`, column `j`.
// ---------------------------------------------------------------------------

/// `(i, j)` names a cell of `t`.
pub open spec fn in_bounds(t: Seq<Seq<Cell>>, i: int, j: int) -> bool {
    0 <= i < t.len() && 0 <= j < t[i].len()
}

/// `t` has `rows` rows of `cols` cells each.
pub open spec fn is_rect(t: Seq<Seq<Cell>>, rows: int, cols: int) -> bool {
    &&& t.len() == rows
    &&& forall|i: int| 0 <= i < rows ==> #[trigger] t[i].len() == cols
}

/// `(i, j)` is one of the eight cells around `(y, x)`.
pub open spec fn adjacent(i: int, j: int, y: int, x: int) -> bool {
    &&& y - 1 <= i <= y + 1
    &&& x - 1 <= j <= x + 1
    &&& !(i == y && j == x)
}

/// `t` with the status of cell `(i, j)` replaced by `s`.
pub open spec fn with_status(t: Seq<Seq<Cell>>, i: int, j: int, s: Status) -> Seq<Seq<Cell>> {
    t.update(i, t[i].update(j, Cell { status: s, ..t[i][j] }))
}

/// `a` and `b` have the same shape and the same mines and counts; only
/// statuses may differ.
pub open spec fn same_field(a: Seq<Seq<Cell>>, b: Seq<Seq<Cell>>) -> bool {
    &&& a.len() == b.len()
    &&& forall|i: int| 0 <= i < a.len() ==> #[trigger] a[i].len() == b[i].len()
    &&& forall|i: int, j: int|
        in_bounds(a, i, j) ==> (#[trigger] a[i][j]).is_mine == b[i][j].is_mine
            && a[i][j].surrnd_mines == b[i][j].surrnd_mines
}

// ---------------------------------------------------------------------------
// Counting cells in a rectangle of positions.
// ---------------------------------------------------------------------------

/// Number of columns `j` in `[lo, hi)` of row `i` where `p(i, j)` holds.
pub open spec fn count_row(p: spec_fn(int, int) -> bool, i: int, lo: int, hi: int) -> int
    decreases hi - lo,
{
    if hi <= lo {
        0
    } else {
        count_row(p, i, lo, hi - 1) + if p(i, hi - 1) { 1int } else { 0int }
    }
}

/// Number of positions in `[ilo, ihi) x [jlo, jhi)` where `p` holds.
pub open spec fn count_box(
    p: spec_fn(int, int) -> bool,
    ilo: int,
    ihi: int,
    jlo: int,
    jhi: int,
) -> int
    decreases ihi - ilo,
{
    if ihi <= ilo {
        0
    } else {
        count_box(p, ilo, ihi - 1, jlo, jhi) + count_row(p, ihi - 1, jlo, jhi)
    }
}

pub proof fn lemma_count_row_bounds(p: spec_fn(int, int) -> bool, i: int, lo: int, hi: int)
    ensures
        0 <= count_row(p, i, lo, hi),
        lo <= hi ==> count_row(p, i, lo, hi) <= hi - lo,
    decreases hi - lo,
{
    if hi > lo {
        lemma_count_row_bounds(p, i, lo, hi - 1);
    }
}

pub proof fn lemma_count_box_bounds(
    p: spec_fn(int, int) -> bool,
    ilo: int,
    ihi: int,
    jlo: int,
    jhi: int,
)
    requires
        ilo <= ihi,
        jlo <= jhi,
    ensures
        0 <= count_box(p, ilo, ihi, jlo, jhi) <= (ihi - ilo) * (jhi - jlo),
    decreases ihi - ilo,
{
    if ihi > ilo {
        lemma_count_box_bounds(p, ilo, ihi - 1, jlo, jhi);
        lemma_count_row_bounds(p, ihi - 1, jlo, jhi);
        assert((ihi - 1 - ilo) * (jhi - jlo) + (jhi - jlo) == (ihi - ilo) * (jhi - jlo))
            by (nonlinear_arith);
    }
}

/// Two predicates that agree everywhere but at `(a, b)` count the same,
/// up to that one position.
pub proof fn lemma_count_row_change(
    p: spec_fn(int, int) -> bool,
    q: spec_fn(int, int) -> bool,
    i: int,
    lo: int,
    hi: int,
    a: int,
    b: int,
)
    requires
        forall|jj: int| lo <= jj < hi && !(i == a && jj == b) ==> #[trigger] p(i, jj) == q(i, jj),
    ensures
        count_row(q, i, lo, hi) == count_row(p, i, lo, hi) + if i == a && lo <= b < hi {
            (if q(a, b) { 1int } else { 0int }) - (if p(a, b) { 1int } else { 0int })
        } else {
            0int
        },
    decreases hi - lo,
{
    if hi > lo {
        lemma_count_row_change(p, q, i, lo, hi - 1, a, b);
    }
}

pub proof fn lemma_count_box_change(
    p: spec_fn(int, int) -> bool,
    q: spec_fn(int, int) -> bool,
    ilo: int,
    ihi: int,
    jlo: int,
    jhi: int,
    a: int,
    b: int,
)
    requires
        forall|ii: int, jj: int|
            ilo <= ii < ihi && jlo <= jj < jhi && !(ii == a && jj == b) ==> #[trigger] p(ii, jj)
                == q(ii, jj),
    ensures
        count_box(q, ilo, ihi, jlo, jhi) == count_box(p, ilo, ihi, jlo, jhi) + if ilo <= a < ihi
            && jlo <= b < jhi {
            (if q(a, b) { 1int } else { 0int }) - (if p(a, b) { 1int } else { 0int })
        } else {
            0int
        },
    decreases ihi - ilo,
{
    if ihi > ilo {
        lemma_count_box_change(p, q, ilo, ihi - 1, jlo, jhi, a, b);
        lemma_count_row_change(p, q, ihi - 1, jlo, jhi, a, b);
    }
}

/// Predicates that agree on a rectangle count the same there.
pub proof fn lemma_count_box_same(
    p: spec_fn(int, int) -> bool,
    q: spec_fn(int, int) -> bool,
    ilo: int,
    ihi: int,
    jlo: int,
    jhi: int,
)
    requires
        forall|ii: int, jj: int| ilo <= ii < ihi && jlo <= jj < jhi ==> #[trigger] p(ii, jj) == q(ii, jj),
    ensures
        count_box(q, ilo, ihi, jlo, jhi) == count_box(p, ilo, ihi, jlo, jhi),
{
    lemma_count_box_change(p, q, ilo, ihi, jlo, jhi, ilo - 1, jlo - 1);
}

/// A count over a rectangle is positive exactly when some position in it
/// satisfies the predicate.
pub proof fn lemma_count_box_pos(
    p: spec_fn(int, int) -> bool,
    ilo: int,
    ihi: int,
    jlo: int,
    jhi: int,
)
    ensures
        count_box(p, ilo, ihi, jlo, jhi) > 0 <==> exists|ii: int, jj: int|
            ilo <= ii < ihi && jlo <= jj < jhi && #[trigger] p(ii, jj),
    decreases ihi - ilo,
{
    if ihi > ilo {
        lemma_count_box_pos(p, ilo, ihi - 1, jlo, jhi);
        lemma_count_row_pos(p, ihi - 1, jlo, jhi);
        lemma_count_box_bounds_any(p, ilo, ihi - 1, jlo, jhi);
        lemma_count_row_bounds(p, ihi - 1, jlo, jhi);
        if count_box(p, ilo, ihi, jlo, jhi) > 0 {
            if count_box(p, ilo, ihi - 1, jlo, jhi) > 0 {
                let (ii, jj) = choose|ii: int, jj: int|
                    ilo <= ii < ihi - 1 && jlo <= jj < jhi && #[trigger] p(ii, jj);
                assert(p(ii, jj));
            } else {
                let jj = choose|jj: int| jlo <= jj < jhi && #[trigger] p(ihi - 1, jj);
                assert(p(ihi - 1, jj));
            }
        }
        if exists|ii: int, jj: int| ilo <= ii < ihi && jlo <= jj < jhi && #[trigger] p(ii, jj) {
            let (ii, jj) = choose|ii: int, jj: int|
                ilo <= ii < ihi && jlo <= jj < jhi && #[trigger] p(ii, jj);
            if ii < ihi - 1 {
                assert(p(ii, jj));
            } else {
                assert(p(ihi - 1, jj));
            }
        }
    }
}

pub proof fn lemma_count_box_bounds_any(
    p: spec_fn(int, int) -> bool,
    ilo: int,
    ihi: int,
    jlo: int,
    jhi: int,
)
    ensures
        0 <= count_box(p, ilo, ihi, jlo, jhi),
    decreases ihi - ilo,
{
    if ihi > ilo {
        lemma_count_box_bounds_any(p, ilo, ihi - 1, jlo, jhi);
        lemma_count_row_bounds(p, ihi - 1, jlo, jhi);
    }
}

proof fn lemma_count_row_pos(p: spec_fn(int, int) -> bool, i: int, lo: int, hi: int)
    ensures
        count_row(p, i, lo, hi) > 0 <==> exists|jj: int| lo <= jj < hi && #[trigger] p(i, jj),
    decreases hi - lo,
{
    if hi > lo {
        lemma_count_row_pos(p, i, lo, hi - 1);
        lemma_count_row_bounds(p, i, lo, hi - 1);
        if exists|jj: int| lo <= jj < hi && #[trigger] p(i, jj) {
            let jj = choose|jj: int| lo <= jj < hi && #[trigger] p(i, jj);
            if jj < hi - 1 {
                assert(p(i, jj));
            }
        }
    }
}


// ---------------------------------------------------------------------------
// The region that digging opens.
// ---------------------------------------------------------------------------

/// `c` with its status set to opened.
pub open spec fn opened(c: Cell) -> Cell {
    Cell { status: Status::Opened, ..c }
}

/// Opening `c` goes on to `n`: `c` holds no mine and has no mine around, and
/// `n` is an unexplored cell next to it.
pub open spec fn spreads(t: Seq<Seq<Cell>>, c: (int, int), n: (int, int)) -> bool {
    &&& in_bounds(t, c.0, c.1)
    &&& !t[c.0][c.1].is_mine
    &&& t[c.0][c.1].surrnd_mines == 0
    &&& in_bounds(t, n.0, n.1)
    &&& adjacent(n.0, n.1, c.0, c.1)
    &&& t[n.0][n.1].status == Status::Unexplored
}

/// Nothing that `s` holds spreads outside `s`.
pub open spec fn closed_under_spread(t: Seq<Seq<Cell>>, s: Set<(int, int)>) -> bool {
    forall|c: (int, int), n: (int, int)|
        #[trigger] s.contains(c) && #[trigger] spreads(t, c, n) ==> s.contains(n)
}

/// `p` lies in the region that opening `seeds` reaches: the least set that
/// holds the seeds and is closed under spreading.
pub open spec fn in_region(t: Seq<Seq<Cell>>, seeds: Set<(int, int)>, p: (int, int)) -> bool {
    forall|s: Set<(int, int)>|
        #[trigger] closed_under_spread(t, s) && seeds.subset_of(s) ==> s.contains(p)
}

/// `t` after opening the region of `seeds`: the cells of the region are
/// opened, all others are as they were.
pub open spec fn open_region(t: Seq<Seq<Cell>>, seeds: Set<(int, int)>) -> Seq<Seq<Cell>> {
    Seq::new(
        t.len(),
        |i: int|
            Seq::new(
                t[i].len(),
                |j: int|
                    if in_region(t, seeds, (i, j)) {
                        opened(t[i][j])
                    } else {
                        t[i][j]
                    },
            ),
    )
}

/// The cell `p` was opened on the way from `t0` to `t`.
pub open spec fn newly_opened(t0: Seq<Seq<Cell>>, t: Seq<Seq<Cell>>, p: (int, int)) -> bool {
    &&& in_bounds(t0, p.0, p.1)
    &&& t0[p.0][p.1].status != Status::Opened
    &&& t[p.0][p.1].status == Status::Opened
}

/// Two tables are equal when they agree cell by cell.
pub proof fn lemma_tables_ext(a: Seq<Seq<Cell>>, b: Seq<Seq<Cell>>)
    requires
        a.len() == b.len(),
        forall|i: int| 0 <= i < a.len() ==> #[trigger] a[i].len() == b[i].len(),
        forall|i: int, j: int| in_bounds(a, i, j) ==> #[trigger] a[i][j] == b[i][j],
    ensures
        a == b,
{
    assert forall|i: int| 0 <= i < a.len() implies #[trigger] a[i] =~= b[i] by {
        assert forall|j: int| 0 <= j < a[i].len() implies a[i][j] == b[i][j] by {
            assert(in_bounds(a, i, j));
        }
    }
    assert(a =~= b);
}

/// The seeds lie in their region.
pub proof fn lemma_region_seed(t: Seq<Seq<Cell>>, seeds: Set<(int, int)>, p: (int, int))
    requires
        seeds.contains(p),
    ensures
        in_region(t, seeds, p),
{
}

/// The region is closed under spreading.
pub proof fn lemma_region_closed(
    t: Seq<Seq<Cell>>,
    seeds: Set<(int, int)>,
    c: (int, int),
    n: (int, int),
)
    requires
        in_region(t, seeds, c),
        spreads(t, c, n),
    ensures
        in_region(t, seeds, n),
{
    assert forall|s: Set<(int, int)>|
        #[trigger] closed_under_spread(t, s) && seeds.subset_of(s) implies s.contains(n) by {
        assert(s.contains(c));
    }
}

/// Outside its seeds, the region holds only unexplored cells.
pub proof fn lemma_region_within(t: Seq<Seq<Cell>>, seeds: Set<(int, int)>, p: (int, int))
    requires
        in_region(t, seeds, p),
    ensures
        seeds.contains(p) || (in_bounds(t, p.0, p.1) && t[p.0][p.1].status
            == Status::Unexplored),
{
    let s = Set::new(
        |q: (int, int)|
            seeds.contains(q) || (in_bounds(t, q.0, q.1) && t[q.0][q.1].status
                == Status::Unexplored),
    );
    assert(closed_under_spread(t, s));
    assert(seeds.subset_of(s));
    assert(s.contains(p));
}

/// A seed with a mine or with mines around spreads nowhere: its region is
/// itself.
pub proof fn lemma_region_single(t: Seq<Seq<Cell>>, i: int, j: int)
    requires
        in_bounds(t, i, j),
        t[i][j].is_mine || t[i][j].surrnd_mines != 0,
    ensures
        open_region(t, set![(i, j)]) == with_status(t, i, j, Status::Opened),
{
    let seeds = set![(i, j)];
    assert(closed_under_spread(t, seeds));
    assert(seeds.subset_of(seeds));
    let r = open_region(t, seeds);
    let w = with_status(t, i, j, Status::Opened);
    assert forall|a: int, b: int| in_bounds(r, a, b) implies #[trigger] r[a][b] == w[a][b] by {
        if a == i && b == j {
            lemma_region_seed(t, seeds, (a, b));
        } else {
            assert(!seeds.contains((a, b)));
        }
    }
    lemma_tables_ext(r, w);
}

/// Changing the status of the one seed changes nothing in the region nor in
/// the table after opening it.
pub proof fn lemma_region_reseed(t: Seq<Seq<Cell>>, i: int, j: int, st: Status)
    requires
        in_bounds(t, i, j),
    ensures
        open_region(with_status(t, i, j, st), set![(i, j)]) == open_region(t, set![(i, j)]),
{
    let seeds = set![(i, j)];
    let t2 = with_status(t, i, j, st);
    assert forall|s: Set<(int, int)>| seeds.subset_of(s) implies closed_under_spread(t, s)
        == closed_under_spread(t2, s) by {
        assert(s.contains((i, j)));
        if closed_under_spread(t, s) {
            assert forall|c: (int, int), n: (int, int)|
                #[trigger] s.contains(c) && #[trigger] spreads(t2, c, n) implies s.contains(n) by {
                if n != (i, j) {
                    assert(spreads(t, c, n));
                }
            }
        }
        if closed_under_spread(t2, s) {
            assert forall|c: (int, int), n: (int, int)|
                #[trigger] s.contains(c) && #[trigger] spreads(t, c, n) implies s.contains(n) by {
                if n != (i, j) {
                    assert(spreads(t2, c, n));
                }
            }
        }
    }
    let a = open_region(t2, seeds);
    let b = open_region(t, seeds);
    assert forall|x: int, y: int| in_bounds(a, x, y) implies #[trigger] a[x][y] == b[x][y] by {
        assert(in_region(t2, seeds, (x, y)) == in_region(t, seeds, (x, y))) by {
            if in_region(t, seeds, (x, y)) {
                assert forall|s: Set<(int, int)>|
                    #[trigger] closed_under_spread(t2, s) && seeds.subset_of(s) implies s.contains(
                    (x, y),
                ) by {
                    assert(closed_under_spread(t, s));
                }
            }
            if in_region(t2, seeds, (x, y)) {
                assert forall|s: Set<(int, int)>|
                    #[trigger] closed_under_spread(t, s) && seeds.subset_of(s) implies s.contains(
                    (x, y),
                ) by {
                    assert(closed_under_spread(t2, s));
                }
            }
        }
        if x == i && y == j {
            lemma_region_seed(t, seeds, (x, y));
        }
    }
    lemma_tables_ext(a, b);
}

// ---------------------------------------------------------------------------
// The state of a dig in progress: from the table `t0` before it, opening the
// region of `seeds`, the table is now `t`.
// ---------------------------------------------------------------------------

/// Every change so far opened a seed or an unexplored cell; what was opened
/// lies in every closed set that holds the seeds; and what was opened has
/// already spread wherever it spreads.
pub closed spec fn progress(t0: Seq<Seq<Cell>>, seeds: Set<(int, int)>, t: Seq<Seq<Cell>>) -> bool {
    &&& same_field(t0, t)
    &&& forall|i: int, j: int|
        in_bounds(t0, i, j) ==> (#[trigger] t[i][j] == t0[i][j] || (t[i][j] == opened(t0[i][j])
            && (t0[i][j].status == Status::Unexplored || seeds.contains((i, j)))))
    &&& forall|s: Set<(int, int)>|
        #[trigger] closed_under_spread(t0, s) && seeds.subset_of(s) ==> forall|p: (int, int)|
            #[trigger] newly_opened(t0, t, p) ==> s.contains(p)
    &&& forall|c: (int, int), n: (int, int)|
        #[trigger] newly_opened(t0, t, c) && #[trigger] spreads(t0, c, n) ==> t[n.0][n.1].status
            == Status::Opened
}

/// What `progress` says of single cells.
pub proof fn lemma_progress_cells(
    t0: Seq<Seq<Cell>>,
    seeds: Set<(int, int)>,
    t: Seq<Seq<Cell>>,
    i: int,
    j: int,
)
    requires
        progress(t0, seeds, t),
        in_bounds(t0, i, j),
    ensures
        same_field(t0, t),
        t[i][j] == t0[i][j] || (t[i][j] == opened(t0[i][j]) && (t0[i][j].status
            == Status::Unexplored || seeds.contains((i, j)))),
{
    reveal(progress);
}

/// Nothing has happened yet.
pub proof fn lemma_progress_start(t0: Seq<Seq<Cell>>, seeds: Set<(int, int)>)
    ensures
        progress(t0, seeds, t0),
{
    reveal(progress);
    assert(same_field(t0, t0));
}

/// Opening the region of one more cell `n`, a seed or one that a seed
/// spreads to, keeps the dig in progress.
pub proof fn lemma_progress_flood(
    t0: Seq<Seq<Cell>>,
    seeds: Set<(int, int)>,
    t: Seq<Seq<Cell>>,
    n: (int, int),
    c: (int, int),
)
    requires
        progress(t0, seeds, t),
        in_bounds(t, n.0, n.1),
        t[n.0][n.1].status == Status::Unexplored || (t[n.0][n.1].status == Status::Pending
            && seeds.contains(n)),
        seeds.contains(n) || (seeds.contains(c) && spreads(t0, c, n)),
    ensures
        progress(t0, seeds, open_region(t, set![n])),
        open_region(t, set![n])[n.0][n.1].status == Status::Opened,
        forall|i: int, j: int|
            in_bounds(t, i, j) && t[i][j].status == Status::Opened ==> #[trigger] open_region(
                t,
                set![n],
            )[i][j].status == Status::Opened,
{
    reveal(progress);
    let t2 = open_region(t, set![n]);
    lemma_region_seed(t, set![n], n);
    // frame
    assert forall|i: int, j: int| in_bounds(t0, i, j) implies (#[trigger] t2[i][j] == t0[i][j] || (
    t2[i][j] == opened(t0[i][j]) && (t0[i][j].status == Status::Unexplored || seeds.contains(
        (i, j),
    )))) by {
        assert(t[i][j] == t0[i][j] || (t[i][j] == opened(t0[i][j]) && (t0[i][j].status
            == Status::Unexplored || seeds.contains((i, j)))));
        if in_region(t, set![n], (i, j)) {
            lemma_region_within(t, set![n], (i, j));
        }
    }
    assert(same_field(t0, t2));
    // spreading in `t` is spreading in `t0`
    assert forall|a: (int, int), b: (int, int)| #[trigger] spreads(t, a, b) implies spreads(t0, a, b) by {
        assert(t[b.0][b.1] == t0[b.0][b.1] || t[b.0][b.1] == opened(t0[b.0][b.1]));
        assert(t[a.0][a.1] == t0[a.0][a.1] || t[a.0][a.1] == opened(t0[a.0][a.1]));
    }
    // minimality
    assert forall|s: Set<(int, int)>| #[trigger] closed_under_spread(t0, s) && seeds.subset_of(s)
        implies forall|p: (int, int)| #[trigger] newly_opened(t0, t2, p) ==> s.contains(p) by {
        assert(s.contains(n)) by {
            if !seeds.contains(n) {
                assert(s.contains(c));
            }
        }
        assert(closed_under_spread(t, s)) by {
            assert forall|a: (int, int), b: (int, int)|
                #[trigger] s.contains(a) && #[trigger] spreads(t, a, b) implies s.contains(b) by {
                assert(spreads(t0, a, b));
            }
        }
        assert(set![n].subset_of(s));
        assert forall|p: (int, int)| #[trigger] newly_opened(t0, t2, p) implies s.contains(p) by {
            if !newly_opened(t0, t, p) {
                assert(in_region(t, set![n], p));
            }
        }
    }
    // closure
    assert forall|a: (int, int), b: (int, int)|
        #[trigger] newly_opened(t0, t2, a) && #[trigger] spreads(t0, a, b) implies t2[b.0][b.1].status
        == Status::Opened by {
        if newly_opened(t0, t, a) {
            assert(t[b.0][b.1].status == Status::Opened);
        } else {
            assert(in_region(t, set![n], a));
            assert(t[b.0][b.1] == t0[b.0][b.1] || t[b.0][b.1] == opened(t0[b.0][b.1]));
            if t[b.0][b.1].status == Status::Unexplored {
                assert(t[a.0][a.1] == t0[a.0][a.1] || t[a.0][a.1] == opened(t0[a.0][a.1]));
                assert(spreads(t, a, b));
                lemma_region_closed(t, set![n], a, b);
            }
        }
    }
}

/// Opening one seed `n` that spreads nowhere keeps the dig in progress.
pub proof fn lemma_progress_direct(
    t0: Seq<Seq<Cell>>,
    seeds: Set<(int, int)>,
    t: Seq<Seq<Cell>>,
    n: (int, int),
)
    requires
        progress(t0, seeds, t),
        in_bounds(t, n.0, n.1),
        t[n.0][n.1].surrnd_mines != 0,
        t[n.0][n.1].status != Status::Opened ==> seeds.contains(n),
    ensures
        progress(t0, seeds, with_status(t, n.0, n.1, Status::Opened)),
{
    reveal(progress);
    let t2 = with_status(t, n.0, n.1, Status::Opened);
    assert forall|i: int, j: int| in_bounds(t0, i, j) implies (#[trigger] t2[i][j] == t0[i][j] || (
    t2[i][j] == opened(t0[i][j]) && (t0[i][j].status == Status::Unexplored || seeds.contains(
        (i, j),
    )))) by {
        assert(t[i][j] == t0[i][j] || (t[i][j] == opened(t0[i][j]) && (t0[i][j].status
            == Status::Unexplored || seeds.contains((i, j)))));
    }
    assert(same_field(t0, t2));
    assert forall|s: Set<(int, int)>| #[trigger] closed_under_spread(t0, s) && seeds.subset_of(s)
        implies forall|p: (int, int)| #[trigger] newly_opened(t0, t2, p) ==> s.contains(p) by {
        assert forall|p: (int, int)| #[trigger] newly_opened(t0, t2, p) implies s.contains(p) by {
            if p != n || t[n.0][n.1].status == Status::Opened {
                assert(newly_opened(t0, t, p));
            } else {
                assert(seeds.contains(n));
            }
        }
    }
    assert forall|a: (int, int), b: (int, int)|
        #[trigger] newly_opened(t0, t2, a) && #[trigger] spreads(t0, a, b) implies t2[b.0][b.1].status
        == Status::Opened by {
        if a != n {
            assert(newly_opened(t0, t, a));
        }
    }
}

/// When the seeds are open and spread nowhere they have not spread yet, the
/// dig is done: the table is that of the opened region.
pub proof fn lemma_progress_finish(t0: Seq<Seq<Cell>>, seeds: Set<(int, int)>, t: Seq<Seq<Cell>>)
    requires
        progress(t0, seeds, t),
        forall|p: (int, int)| #[trigger] seeds.contains(p) ==> in_bounds(t0, p.0, p.1),
        forall|p: (int, int)| #[trigger] seeds.contains(p) ==> t[p.0][p.1].status == Status::Opened,
        forall|c: (int, int), n: (int, int)|
            #[trigger] seeds.contains(c) && #[trigger] spreads(t0, c, n) ==> t[n.0][n.1].status
                == Status::Opened,
    ensures
        t == open_region(t0, seeds),
{
    reveal(progress);
    let r = open_region(t0, seeds);
    let x = Set::new(|q: (int, int)| seeds.contains(q) || newly_opened(t0, t, q));
    assert(closed_under_spread(t0, x)) by {
        assert forall|c: (int, int), n: (int, int)|
            #[trigger] x.contains(c) && #[trigger] spreads(t0, c, n) implies x.contains(n) by {
            if seeds.contains(c) {
                assert(t[n.0][n.1].status == Status::Opened);
            } else {
                assert(newly_opened(t0, t, c));
            }
            assert(newly_opened(t0, t, n));
        }
    }
    assert(seeds.subset_of(x));
    assert forall|i: int, j: int| in_bounds(t, i, j) implies #[trigger] t[i][j] == r[i][j] by {
        assert(in_bounds(t0, i, j));
        assert(t[i][j] == t0[i][j] || (t[i][j] == opened(t0[i][j]) && (t0[i][j].status
            == Status::Unexplored || seeds.contains((i, j)))));
        if in_region(t0, seeds, (i, j)) {
            assert(x.contains((i, j)));
        } else {
            let s = choose|s: Set<(int, int)>|
                !(#[trigger] closed_under_spread(t0, s) && seeds.subset_of(s) ==> s.contains((i, j)));
            assert(closed_under_spread(t0, s) && seeds.subset_of(s));
            if newly_opened(t0, t, (i, j)) {
                assert(s.contains((i, j)));
            }
        }
    }
    lemma_tables_ext(t, r);
}


/// What `progress` says of spreading from what was opened.
pub proof fn lemma_progress_spread(
    t0: Seq<Seq<Cell>>,
    seeds: Set<(int, int)>,
    t: Seq<Seq<Cell>>,
    c: (int, int),
    n: (int, int),
)
    requires
        progress(t0, seeds, t),
        newly_opened(t0, t, c),
        spreads(t0, c, n),
    ensures
        t[n.0][n.1].status == Status::Opened,
{
    reveal(progress);
}

// ---------------------------------------------------------------------------
// Counts over a whole table and around a cell.
// ---------------------------------------------------------------------------

/// Columns of a table, taken from its first row.
pub open spec fn cols_of(t: Seq<Seq<Cell>>) -> int {
    if t.len() > 0 {
        t[0].len() as int
    } else {
        0
    }
}

/// The cells that are not opened.
pub open spec fn unopened_at(t: Seq<Seq<Cell>>) -> spec_fn(int, int) -> bool {
    |i: int, j: int| t[i][j].status != Status::Opened
}

/// Number of cells of the table that are not opened.
pub open spec fn unopened(t: Seq<Seq<Cell>>) -> int {
    count_box(unopened_at(t), 0, t.len() as int, 0, cols_of(t))
}

/// Changing one status changes the number of unopened cells by what the
/// change opens or closes.
pub proof fn lemma_unopened_with_status(t: Seq<Seq<Cell>>, i: int, j: int, s: Status)
    requires
        is_rect(t, t.len() as int, cols_of(t)),
        in_bounds(t, i, j),
    ensures
        unopened(with_status(t, i, j, s)) == unopened(t) - (if t[i][j].status
            != Status::Opened { 1int } else { 0int }) + (if s != Status::Opened { 1int } else { 0int }),
        unopened(t) >= 0,
        unopened(with_status(t, i, j, s)) >= 0,
{
    let t2 = with_status(t, i, j, s);
    assert(t2[0].len() == t[0].len());
    lemma_count_box_change(unopened_at(t), unopened_at(t2), 0, t.len() as int, 0, cols_of(t), i, j);
    lemma_count_box_bounds_any(unopened_at(t), 0, t.len() as int, 0, cols_of(t));
    lemma_count_box_bounds_any(unopened_at(t2), 0, t.len() as int, 0, cols_of(t));
}

/// The first row of the three-row box around row (or column) `v`.
pub open spec fn box_lo(v: int) -> int {
    if v == 0 {
        0
    } else {
        v - 1
    }
}

/// One past the last row (or column) of the box around `v`, within `n`.
pub open spec fn box_hi(v: int, n: int) -> int {
    if v + 2 > n {
        n
    } else {
        v + 2
    }
}

/// The cells flagged as mines.
pub open spec fn flagged_at(t: Seq<Seq<Cell>>) -> spec_fn(int, int) -> bool {
    |i: int, j: int| t[i][j].status == Status::Flaged
}

/// Number of flagged cells in the box of nine around `(y, x)`.
pub open spec fn flags_around(t: Seq<Seq<Cell>>, y: int, x: int) -> int {
    count_box(flagged_at(t), box_lo(y), box_hi(y, t.len() as int), box_lo(x), box_hi(x, cols_of(t)))
}

/// The mines around `(y, x)`, not counting `(y, x)` itself.
pub open spec fn mine_near(t: Seq<Seq<Cell>>, y: int, x: int) -> spec_fn(int, int) -> bool {
    |i: int, j: int| t[i][j].is_mine && !(i == y && j == x)
}

/// Number of mines in the eight cells around `(y, x)`.
pub open spec fn mines_around(t: Seq<Seq<Cell>>, y: int, x: int) -> int {
    count_box(mine_near(t, y, x), box_lo(y), box_hi(y, t.len() as int), box_lo(x), box_hi(x, cols_of(t)))
}

/// The cells that a test of `(y, x)` opens first: those around it that are
/// neither opened nor flagged.
pub open spec fn chord_seeds(t: Seq<Seq<Cell>>, y: int, x: int) -> Set<(int, int)> {
    Set::new(
        |p: (int, int)|
            in_bounds(t, p.0, p.1) && adjacent(p.0, p.1, y, x) && t[p.0][p.1].status
                != Status::Opened && t[p.0][p.1].status != Status::Flaged,
    )
}


/// Splitting the rows of a rectangle splits its count.
pub proof fn lemma_count_box_split(
    p: spec_fn(int, int) -> bool,
    ilo: int,
    mid: int,
    ihi: int,
    jlo: int,
    jhi: int,
)
    requires
        ilo <= mid <= ihi,
    ensures
        count_box(p, ilo, ihi, jlo, jhi) == count_box(p, ilo, mid, jlo, jhi) + count_box(
            p,
            mid,
            ihi,
            jlo,
            jhi,
        ),
    decreases ihi - mid,
{
    if ihi > mid {
        lemma_count_box_split(p, ilo, mid, ihi - 1, jlo, jhi);
    }
}

/// Splitting a row splits its count.
pub proof fn lemma_count_row_split(p: spec_fn(int, int) -> bool, i: int, lo: int, mid: int, hi: int)
    requires
        lo <= mid <= hi,
    ensures
        count_row(p, i, lo, hi) == count_row(p, i, lo, mid) + count_row(p, i, mid, hi),
    decreases hi - mid,
{
    if hi > mid {
        lemma_count_row_split(p, i, lo, mid, hi - 1);
    }
}

/// A predicate that holds on the whole rectangle counts its area; one that
/// holds nowhere counts zero.
pub proof fn lemma_count_box_const(
    p: spec_fn(int, int) -> bool,
    b: bool,
    ilo: int,
    ihi: int,
    jlo: int,
    jhi: int,
)
    requires
        ilo <= ihi,
        jlo <= jhi,
        forall|ii: int, jj: int| ilo <= ii < ihi && jlo <= jj < jhi ==> #[trigger] p(ii, jj) == b,
    ensures
        count_box(p, ilo, ihi, jlo, jhi) == if b { (ihi - ilo) * (jhi - jlo) } else { 0 },
    decreases ihi - ilo,
{
    if ihi > ilo {
        lemma_count_box_const(p, b, ilo, ihi - 1, jlo, jhi);
        lemma_count_row_const(p, b, ihi - 1, jlo, jhi);
        assert((ihi - 1 - ilo) * (jhi - jlo) + (jhi - jlo) == (ihi - ilo) * (jhi - jlo))
            by (nonlinear_arith);
    } else {
        assert((ihi - ilo) * (jhi - jlo) == 0) by (nonlinear_arith)
            requires
                ihi == ilo,
        ;
    }
}

proof fn lemma_count_row_const(p: spec_fn(int, int) -> bool, b: bool, i: int, lo: int, hi: int)
    requires
        lo <= hi,
        forall|jj: int| lo <= jj < hi ==> #[trigger] p(i, jj) == b,
    ensures
        count_row(p, i, lo, hi) == if b { hi - lo } else { 0 },
    decreases hi - lo,
{
    if hi > lo {
        lemma_count_row_const(p, b, i, lo, hi - 1);
    }
}

/// Number of cells of the whole table where `p` holds.
pub open spec fn count_all(t: Seq<Seq<Cell>>, p: spec_fn(int, int) -> bool) -> int {
    count_box(p, 0, t.len() as int, 0, cols_of(t))
}

/// The cells that hold a mine.
pub open spec fn mine_at(t: Seq<Seq<Cell>>) -> spec_fn(int, int) -> bool {
    |i: int, j: int| t[i][j].is_mine
}

/// The cells that hold no mine.
pub open spec fn free_at(t: Seq<Seq<Cell>>) -> spec_fn(int, int) -> bool {
    |i: int, j: int| !t[i][j].is_mine
}

/// The opened cells.
pub open spec fn opened_at(t: Seq<Seq<Cell>>) -> spec_fn(int, int) -> bool {
    |i: int, j: int| t[i][j].status == Status::Opened
}

/// The cells neither opened nor flagged: unexplored or pending.
pub open spec fn hidden_at(t: Seq<Seq<Cell>>) -> spec_fn(int, int) -> bool {
    |i: int, j: int| t[i][j].status == Status::Unexplored || t[i][j].status == Status::Pending
}

/// The unexplored cells.
pub open spec fn unexplored_at(t: Seq<Seq<Cell>>) -> spec_fn(int, int) -> bool {
    |i: int, j: int| t[i][j].status == Status::Unexplored
}

/// The opened cells that hold a mine.
pub open spec fn blown_at(t: Seq<Seq<Cell>>) -> spec_fn(int, int) -> bool {
    |i: int, j: int| t[i][j].is_mine && t[i][j].status == Status::Opened
}

/// `t` with a mine laid in cell `(i, j)`.
pub open spec fn with_mine(t: Seq<Seq<Cell>>, i: int, j: int) -> Seq<Seq<Cell>> {
    t.update(i, t[i].update(j, Cell { is_mine: true, ..t[i][j] }))
}

/// `t` with the count of mines around cell `(i, j)` set to `n`.
pub open spec fn with_count(t: Seq<Seq<Cell>>, i: int, j: int, n: i8) -> Seq<Seq<Cell>> {
    t.update(i, t[i].update(j, Cell { surrnd_mines: n, ..t[i][j] }))
}


/// A row range that is empty counts zero.
pub proof fn lemma_count_row_empty(p: spec_fn(int, int) -> bool, i: int, lo: int, hi: int)
    requires
        hi <= lo,
    ensures
        count_row(p, i, lo, hi) == 0,
{
}

/// A rectangle with no columns counts zero.
pub proof fn lemma_count_box_empty_cols(
    p: spec_fn(int, int) -> bool,
    ilo: int,
    ihi: int,
    jlo: int,
    jhi: int,
)
    requires
        jhi <= jlo,
    ensures
        count_box(p, ilo, ihi, jlo, jhi) == 0,
    decreases ihi - ilo,
{
    if ihi > ilo {
        lemma_count_box_empty_cols(p, ilo, ihi - 1, jlo, jhi);
    }
}


/// Mines around a cell depend only on where the mines are.
pub proof fn lemma_mines_around_same(a: Seq<Seq<Cell>>, b: Seq<Seq<Cell>>, y: int, x: int)
    requires
        same_field(a, b) || (a.len() == b.len() && (forall|i: int|
            0 <= i < a.len() ==> #[trigger] a[i].len() == b[i].len()) && forall|i: int, j: int|
            in_bounds(a, i, j) ==> (#[trigger] a[i][j]).is_mine == b[i][j].is_mine),
        is_rect(a, a.len() as int, cols_of(a)),
        0 <= y,
        0 <= x,
    ensures
        mines_around(a, y, x) == mines_around(b, y, x),
{
    if a.len() > 0 {
        assert(a[0].len() == b[0].len());
    }
    assert forall|ii: int, jj: int|
        box_lo(y) <= ii < box_hi(y, a.len() as int) && box_lo(x) <= jj < box_hi(x, cols_of(a))
            implies #[trigger] mine_near(a, y, x)(ii, jj) == mine_near(b, y, x)(ii, jj) by {
        assert(in_bounds(a, ii, jj));
    }
    lemma_count_box_same(
        mine_near(a, y, x),
        mine_near(b, y, x),
        box_lo(y),
        box_hi(y, a.len() as int),
        box_lo(x),
        box_hi(x, cols_of(a)),
    );
}

/// A count over a prefix of the rows, in reading order, is at most the
/// count over all of them.
pub proof fn lemma_count_prefix_le(p: spec_fn(int, int) -> bool, rows: int, cols: int, i: int, j: int)
    requires
        0 <= i < rows,
        0 <= j <= cols,
    ensures
        count_box(p, 0, i, 0, cols) + count_row(p, i, 0, j) <= count_box(p, 0, rows, 0, cols),
{
    lemma_count_box_split(p, 0, i, rows, 0, cols);
    lemma_count_box_split(p, i, i + 1, rows, 0, cols);
    lemma_count_row_split(p, i, 0, j, cols);
    lemma_count_row_bounds(p, i, j, cols);
    lemma_count_box_bounds_any(p, i + 1, rows, 0, cols);
    assert(count_box(p, i, i, 0, cols) == 0);
    assert(count_box(p, i, i + 1, 0, cols) == count_row(p, i, 0, cols));
}

/// Whether the game is lost, won or neither: lost when an opened cell holds
/// a mine; won when the opened cells and the mines together make up the
/// board.
pub open spec fn check_result(t: Seq<Seq<Cell>>, mines: int) -> crate::game::GameResult {
    if count_all(t, blown_at(t)) > 0 {
        crate::game::GameResult::Failed
    } else if mines + count_all(t, opened_at(t)) != t.len() * cols_of(t) {
        crate::game::GameResult::NotOver
    } else {
        crate::game::GameResult::Success
    }
}

/// `t` with every unexplored or pending cell flagged.
pub open spec fn flag_rest(t: Seq<Seq<Cell>>) -> Seq<Seq<Cell>> {
    Seq::new(
        t.len(),
        |i: int|
            Seq::new(
                t[i].len(),
                |j: int|
                    if hidden_at(t)(i, j) {
                        Cell { status: Status::Flaged, ..t[i][j] }
                    } else {
                        t[i][j]
                    },
            ),
    )
}


/// Counts of two predicates that never hold together add up to the count of
/// either.
pub proof fn lemma_count_box_disjoint(
    p: spec_fn(int, int) -> bool,
    q: spec_fn(int, int) -> bool,
    r: spec_fn(int, int) -> bool,
    ilo: int,
    ihi: int,
    jlo: int,
    jhi: int,
)
    requires
        forall|ii: int, jj: int|
            ilo <= ii < ihi && jlo <= jj < jhi ==> #[trigger] r(ii, jj) == (p(ii, jj) || q(ii, jj))
                && !(p(ii, jj) && q(ii, jj)),
    ensures
        count_box(r, ilo, ihi, jlo, jhi) == count_box(p, ilo, ihi, jlo, jhi) + count_box(
            q,
            ilo,
            ihi,
            jlo,
            jhi,
        ),
    decreases ihi - ilo,
{
    if ihi > ilo {
        lemma_count_box_disjoint(p, q, r, ilo, ihi - 1, jlo, jhi);
        lemma_count_row_disjoint(p, q, r, ihi - 1, jlo, jhi);
    }
}

proof fn lemma_count_row_disjoint(
    p: spec_fn(int, int) -> bool,
    q: spec_fn(int, int) -> bool,
    r: spec_fn(int, int) -> bool,
    i: int,
    lo: int,
    hi: int,
)
    requires
        forall|jj: int|
            lo <= jj < hi ==> #[trigger] r(i, jj) == (p(i, jj) || q(i, jj)) && !(p(i, jj) && q(i, jj)),
    ensures
        count_row(r, i, lo, hi) == count_row(p, i, lo, hi) + count_row(q, i, lo, hi),
    decreases hi - lo,
{
    if hi > lo {
        lemma_count_row_disjoint(p, q, r, i, lo, hi - 1);
    }
}

/// A predicate that implies another counts no more, and strictly less when
/// the other holds somewhere it does not.
pub proof fn lemma_count_box_mono(
    p: spec_fn(int, int) -> bool,
    q: spec_fn(int, int) -> bool,
    ilo: int,
    ihi: int,
    jlo: int,
    jhi: int,
)
    requires
        forall|ii: int, jj: int| ilo <= ii < ihi && jlo <= jj < jhi && #[trigger] p(ii, jj) ==> q(ii, jj),
    ensures
        count_box(p, ilo, ihi, jlo, jhi) <= count_box(q, ilo, ihi, jlo, jhi),
        (exists|ii: int, jj: int| ilo <= ii < ihi && jlo <= jj < jhi && #[trigger] q(ii, jj) && !p(ii, jj))
            ==> count_box(p, ilo, ihi, jlo, jhi) < count_box(q, ilo, ihi, jlo, jhi),
    decreases ihi - ilo,
{
    if ihi > ilo {
        lemma_count_box_mono(p, q, ilo, ihi - 1, jlo, jhi);
        lemma_count_row_mono(p, q, ihi - 1, jlo, jhi);
        if exists|ii: int, jj: int| ilo <= ii < ihi && jlo <= jj < jhi && #[trigger] q(ii, jj) && !p(ii, jj) {
            let (ii, jj) = choose|ii: int, jj: int| ilo <= ii < ihi && jlo <= jj < jhi && #[trigger] q(ii, jj) && !p(ii, jj);
            if ii < ihi - 1 {
                assert(q(ii, jj) && !p(ii, jj));
            } else {
                assert(q(ihi - 1, jj) && !p(ihi - 1, jj));
            }
        }
    }
}

proof fn lemma_count_row_mono(p: spec_fn(int, int) -> bool, q: spec_fn(int, int) -> bool, i: int, lo: int, hi: int)
    requires
        forall|jj: int| lo <= jj < hi && #[trigger] p(i, jj) ==> q(i, jj),
    ensures
        count_row(p, i, lo, hi) <= count_row(q, i, lo, hi),
        (exists|jj: int| lo <= jj < hi && #[trigger] q(i, jj) && !p(i, jj)) ==> count_row(p, i, lo, hi)
            < count_row(q, i, lo, hi),
    decreases hi - lo,
{
    if hi > lo {
        lemma_count_row_mono(p, q, i, lo, hi - 1);
        if exists|jj: int| lo <= jj < hi && #[trigger] q(i, jj) && !p(i, jj) {
            let jj = choose|jj: int| lo <= jj < hi && #[trigger] q(i, jj) && !p(i, jj);
            if jj < hi - 1 {
                assert(q(i, jj) && !p(i, jj));
            }
        }
    }
}

} // verus!
