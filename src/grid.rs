//! The layout of a soft body built as a `rows × cols` grid of particles:
//! which cell each particle takes, and which particles springs connect.
use vstd::prelude::*;
use vstd::arithmetic::div_mod::{
    lemma_fundamental_div_mod, lemma_fundamental_div_mod_converse, lemma_mod_pos_bound,
};
use crate::{index_pairs, pair_precedes};

verus! {

/// Cell `k` of a grid with `cols` columns, counted row by row: `(row, column)`.
pub open spec fn grid_cell(cols: int, k: int) -> (int, int) {
    (k / cols, k % cols)
}

/// Every cell of a `rows × cols` grid, row by row.
pub open spec fn grid_cell_seq(rows: int, cols: int) -> Seq<(int, int)> {
    Seq::new((rows * cols) as nat, |k: int| grid_cell(cols, k))
}

/// The springs that cell `k` opens when the grid's particles are numbered from
/// `start` row by row: one to its right neighbour, then one to the neighbour
/// below, each only where that neighbour exists.
pub open spec fn cell_links(start: int, rows: int, cols: int, k: int) -> Seq<(int, int)> {
    let (i, j) = grid_cell(cols, k);
    let p = start + k;
    (if j < cols - 1 { seq![(p, p + 1)] } else { seq![] }) + (if i < rows - 1 {
        seq![(p, p + cols)]
    } else {
        seq![]
    })
}

/// The springs opened by cells `0..k`, in cell order.
pub open spec fn grid_links(start: int, rows: int, cols: int, k: nat) -> Seq<(int, int)>
    decreases k,
{
    if k == 0 {
        seq![]
    } else {
        grid_links(start, rows, cols, (k - 1) as nat) + cell_links(start, rows, cols, k - 1)
    }
}

/// Whether a `rows × cols` body whose particles are numbered from `start`
/// fits in the index range: its last index must not pass `usize::MAX`.
pub fn grid_fits(start: usize, rows: usize, cols: usize) -> (r: bool)
    ensures
        r == (start + rows * cols <= usize::MAX),
{
    match rows.checked_mul(cols) {
        Some(count) => count <= usize::MAX - start,
        None => false,
    }
}

/// The particle indices of a `rows × cols` body numbered from `start`:
/// `start, start + 1, …, start + rows·cols − 1`, one per cell in row order.
pub fn grid_particle_indices(start: usize, rows: usize, cols: usize) -> (r: Vec<usize>)
    requires
        start + rows * cols <= usize::MAX,
    ensures
        r@ == Seq::new((rows * cols) as nat, |k: int| (start + k) as usize),
{
    let count = rows * cols;
    let mut r: Vec<usize> = Vec::new();
    let mut k: usize = 0;
    while k < count
        invariant
            count == rows * cols,
            start + count <= usize::MAX,
            k <= count,
            r@ == Seq::new(k as nat, |m: int| (start + m) as usize),
        decreases count - k,
    {
        r.push(start + k);
        proof {
            assert(r@ =~= Seq::new((k + 1) as nat, |m: int| (start + m) as usize));
        }
        k = k + 1;
    }
    r
}

/// The `(row, column)` of every cell of a `rows × cols` grid, row by row: the
/// order in which a body's particles are laid out and numbered.
pub fn grid_cells(rows: usize, cols: usize) -> (r: Vec<(usize, usize)>)
    requires
        rows * cols <= usize::MAX,
    ensures
        index_pairs(r@) == grid_cell_seq(rows as int, cols as int),
{
    let mut r: Vec<(usize, usize)> = Vec::new();
    let mut i: usize = 0;
    while i < rows
        invariant
            i <= rows,
            rows * cols <= usize::MAX,
            index_pairs(r@) == grid_cell_seq(i as int, cols as int),
        decreases rows - i,
    {
        let mut j: usize = 0;
        while j < cols
            invariant
                i < rows,
                j <= cols,
                rows * cols <= usize::MAX,
                index_pairs(r@) == Seq::new(
                    (i * cols + j) as nat,
                    |k: int| grid_cell(cols as int, k),
                ),
            decreases cols - j,
        {
            proof {
                lemma_fundamental_div_mod_converse((i * cols + j) as int, cols as int, i as int, j as int);
            }
            let ghost before = r@;
            r.push((i, j));
            proof {
                assert(index_pairs(r@) =~= index_pairs(before).push((i as int, j as int)));
                assert(index_pairs(r@) =~= Seq::new(
                    (i * cols + j + 1) as nat,
                    |k: int| grid_cell(cols as int, k),
                ));
            }
            j = j + 1;
        }
        proof {
            assert(i * cols + cols == (i + 1) * cols) by (nonlinear_arith);
        }
        i = i + 1;
    }
    r
}

/// The springs of a `rows × cols` grid whose particles are numbered from
/// `start` row by row: for each cell in order, one to its right neighbour and
/// one to the neighbour below, where those exist. No diagonals.
pub fn grid_springs(start: usize, rows: usize, cols: usize) -> (r: Vec<(usize, usize)>)
    requires
        start + rows * cols <= usize::MAX,
    ensures
        index_pairs(r@) == grid_links(start as int, rows as int, cols as int, (rows * cols) as nat),
        forall|k: int|
            0 <= k < r@.len() ==> start <= #[trigger] r@[k].0 < r@[k].1 < start + rows * cols,
{
    let mut r: Vec<(usize, usize)> = Vec::new();
    let mut i: usize = 0;
    while i < rows
        invariant
            i <= rows,
            start + rows * cols <= usize::MAX,
            index_pairs(r@) == grid_links(start as int, rows as int, cols as int, (i * cols) as nat),
            forall|k: int|
                0 <= k < r@.len() ==> start <= #[trigger] r@[k].0 < r@[k].1 < start + rows * cols,
        decreases rows - i,
    {
        let mut j: usize = 0;
        while j < cols
            invariant
                i < rows,
                j <= cols,
                start + rows * cols <= usize::MAX,
                index_pairs(r@) == grid_links(
                    start as int,
                    rows as int,
                    cols as int,
                    (i * cols + j) as nat,
                ),
                forall|k: int|
                    0 <= k < r@.len() ==> start <= #[trigger] r@[k].0 < r@[k].1 < start + rows
                        * cols,
            decreases cols - j,
        {
            let ghost k = i * cols + j;
            proof {
                lemma_fundamental_div_mod_converse(k, cols as int, i as int, j as int);
                assert((i + 1) * cols <= rows * cols) by (nonlinear_arith)
                    requires
                        i < rows,
                ;
                assert(i * cols + cols == (i + 1) * cols) by (nonlinear_arith);
            }
            let ghost before = r@;
            let p = start + i * cols + j;
            if j + 1 < cols {
                r.push((p, p + 1));
            }
            if i + 1 < rows {
                proof {
                    assert((i + 2) * cols <= rows * cols) by (nonlinear_arith)
                        requires
                            i + 1 < rows,
                    ;
                    assert((i + 1) * cols + cols == (i + 2) * cols) by (nonlinear_arith);
                }
                r.push((p, p + cols));
            }
            proof {
                assert(index_pairs(r@) =~= index_pairs(before) + cell_links(
                    start as int,
                    rows as int,
                    cols as int,
                    k,
                ));
            }
            j = j + 1;
        }
        proof {
            assert(i * cols + cols == (i + 1) * cols) by (nonlinear_arith);
        }
        i = i + 1;
    }
    r
}

/// The index structure of one grid body: its particles, the particle pairs
/// its springs join, and the particles its shape constraint covers, if it has
/// one.
pub struct BodyLayout {
    pub particles: Vec<usize>,
    pub springs: Vec<(usize, usize)>,
    pub shape: Option<Vec<usize>>,
}

/// Lays out a `rows × cols` body numbered from `start`: its particles in
/// cell order; the grid's springs where `with_springs`, else none; one shape
/// constraint over all of its particles where `with_shape`, else none.
pub fn grid_layout(
    start: usize,
    rows: usize,
    cols: usize,
    with_springs: bool,
    with_shape: bool,
) -> (r: BodyLayout)
    requires
        start + rows * cols <= usize::MAX,
    ensures
        r.particles@ == Seq::new((rows * cols) as nat, |k: int| (start + k) as usize),
        with_springs ==> index_pairs(r.springs@) == grid_links(
            start as int,
            rows as int,
            cols as int,
            (rows * cols) as nat,
        ),
        with_springs ==> forall|k: int|
            0 <= k < r.springs@.len() ==> start <= #[trigger] r.springs@[k].0 < r.springs@[k].1
                < start + rows * cols,
        !with_springs ==> r.springs@.len() == 0,
        with_shape ==> r.shape is Some && r.shape.unwrap()@ == r.particles@,
        !with_shape ==> r.shape is None,
{
    let particles = grid_particle_indices(start, rows, cols);
    let springs = if with_springs {
        grid_springs(start, rows, cols)
    } else {
        Vec::new()
    };
    let shape = if with_shape {
        let covered = particles.clone();
        proof {
            assert(covered@ =~= particles@);
        }
        Some(covered)
    } else {
        None
    };
    BodyLayout { particles, springs, shape }
}

/// With the particles of a `rows × cols` grid numbered from `start` row by
/// row, `a` and `b` are particles of the grid and `b` stands just right of `a`
/// or just below it.
pub open spec fn grid_neighbours(start: int, rows: int, cols: int, a: int, b: int) -> bool {
    let (ia, ja) = grid_cell(cols, a - start);
    let (ib, jb) = grid_cell(cols, b - start);
    &&& 0 <= a - start < rows * cols
    &&& 0 <= b - start < rows * cols
    &&& ((ib == ia && jb == ja + 1) || (ib == ia + 1 && jb == ja))
}

/// The springs of a grid body form its 4-connected grid graph: a spring joins
/// two particles exactly when one is the right or lower neighbour of the
/// other, and each such pair is joined once, the springs ordered by their
/// first particle and then by their second.
pub proof fn lemma_grid_springs_form_grid_graph(start: int, rows: nat, cols: nat)
    ensures
        forall|a: int, b: int|
            #[trigger] grid_links(start, rows as int, cols as int, rows * cols).contains((a, b))
                <==> grid_neighbours(start, rows as int, cols as int, a, b),
        forall|k1: int, k2: int|
            0 <= k1 < k2 < grid_links(start, rows as int, cols as int, rows * cols).len()
                ==> pair_precedes(
                #[trigger] grid_links(start, rows as int, cols as int, rows * cols)[k1],
                #[trigger] grid_links(start, rows as int, cols as int, rows * cols)[k2],
            ),
{
    if cols == 0 {
        assert(rows * cols == 0) by (nonlinear_arith)
            requires
                cols == 0,
        ;
    } else {
        lemma_grid_links_prefix(start, rows as int, cols as int, rows * cols);
        let s = grid_links(start, rows as int, cols as int, rows * cols);
        assert forall|a: int, b: int| #[trigger]
            s.contains((a, b)) implies grid_neighbours(start, rows as int, cols as int, a, b) by {
            let w = choose|w: int| 0 <= w < s.len() && s[w] == (a, b);
            assert(s[w] == (a, b));
        }
    }
}

/// The facts about the cell numbered `k` that the grid proofs use.
proof fn lemma_cell_facts(rows: int, cols: int, k: int)
    requires
        cols > 0,
        0 <= k < rows * cols,
    ensures
        k == cols * grid_cell(cols, k).0 + grid_cell(cols, k).1,
        0 <= grid_cell(cols, k).1 < cols,
        0 <= grid_cell(cols, k).0 < rows,
{
    lemma_fundamental_div_mod(k, cols);
    lemma_mod_pos_bound(k, cols);
    let i = k / cols;
    let j = k % cols;
    assert(0 <= i < rows) by (nonlinear_arith)
        requires
            k == cols * i + j,
            0 <= j < cols,
            0 <= k < rows * cols,
    ;
}

proof fn lemma_grid_links_prefix(start: int, rows: int, cols: int, m: nat)
    requires
        cols > 0,
        rows >= 0,
        m <= rows * cols,
    ensures
        forall|w: int|
            0 <= w < grid_links(start, rows, cols, m).len() ==> {
                let x = #[trigger] grid_links(start, rows, cols, m)[w];
                grid_neighbours(start, rows, cols, x.0, x.1) && x.0 - start < m
            },
        forall|a: int, b: int|
            grid_neighbours(start, rows, cols, a, b) && a - start < m ==> #[trigger] grid_links(
                start,
                rows,
                cols,
                m,
            ).contains((a, b)),
        forall|k1: int, k2: int|
            0 <= k1 < k2 < grid_links(start, rows, cols, m).len() ==> pair_precedes(
                #[trigger] grid_links(start, rows, cols, m)[k1],
                #[trigger] grid_links(start, rows, cols, m)[k2],
            ),
    decreases m,
{
    if m > 0 {
        let k = m - 1;
        let prev = grid_links(start, rows, cols, k as nat);
        let cell = cell_links(start, rows, cols, k);
        let s = grid_links(start, rows, cols, m);
        lemma_grid_links_prefix(start, rows, cols, k as nat);
        assert(s == prev + cell);
        lemma_cell_facts(rows, cols, k);
        let (i, j) = grid_cell(cols, k);
        let p = start + k;
        if j < cols - 1 {
            lemma_fundamental_div_mod_converse(k + 1, cols, i, j + 1);
            assert(cols * (i + 1) <= cols * rows) by (nonlinear_arith)
                requires
                    cols > 0,
                    i < rows,
            ;
            assert(k + 1 < rows * cols) by (nonlinear_arith)
                requires
                    k == cols * i + j,
                    j + 1 < cols,
                    cols * (i + 1) <= cols * rows,
            ;
        }
        if i < rows - 1 {
            assert(k + cols == (i + 1) * cols + j) by (nonlinear_arith)
                requires
                    k == cols * i + j,
            ;
            lemma_fundamental_div_mod_converse(k + cols, cols, i + 1, j);
            assert(cols * (i + 2) <= cols * rows) by (nonlinear_arith)
                requires
                    cols > 0,
                    i + 1 < rows,
            ;
            assert(k + cols < rows * cols) by (nonlinear_arith)
                requires
                    k == cols * i + j,
                    j < cols,
                    cols * (i + 2) <= cols * rows,
            ;
        }
        assert forall|w: int| 0 <= w < s.len() implies {
            let x = #[trigger] s[w];
            grid_neighbours(start, rows, cols, x.0, x.1) && x.0 - start < m
        } by {
            if w < prev.len() {
                assert(s[w] == prev[w]);
            } else {
                assert(s[w] == cell[w - prev.len()]);
            }
        }
        assert forall|a: int, b: int|
            grid_neighbours(start, rows, cols, a, b) && a - start < m implies #[trigger] s.contains(
            (a, b),
        ) by {
            if a - start < k {
                assert(prev.contains((a, b)));
                let w = choose|w: int| 0 <= w < prev.len() && prev[w] == (a, b);
                assert(s[w] == (a, b));
            } else {
                lemma_cell_facts(rows, cols, b - start);
                let (ib, jb) = grid_cell(cols, b - start);
                if ib == i {
                    assert(b == p + 1);
                    assert(s[prev.len() as int] == (p, p + 1));
                } else {
                    assert(b - start == cols * i + j + cols) by (nonlinear_arith)
                        requires
                            b - start == cols * ib + jb,
                            ib == i + 1,
                            jb == j,
                    ;
                    assert(b == p + cols);
                    let w = cell.len() - 1;
                    assert(cell[w] == (p, p + cols));
                    assert(s[prev.len() + w] == (p, p + cols));
                }
            }
        }
        assert forall|k1: int, k2: int| 0 <= k1 < k2 < s.len() implies pair_precedes(
            #[trigger] s[k1],
            #[trigger] s[k2],
        ) by {
            if k2 < prev.len() {
                assert(s[k1] == prev[k1] && s[k2] == prev[k2]);
            } else if k1 < prev.len() {
                assert(s[k1] == prev[k1]);
                assert(s[k2] == cell[k2 - prev.len()]);
            } else {
                assert(s[k1] == cell[k1 - prev.len()]);
                assert(s[k2] == cell[k2 - prev.len()]);
            }
        }
    }
}

} // verus!
