//! Grid topology: the fixed n-by-n cell layout and its precomputed
//! 8-neighbour (Moore) adjacency, clipped at the edges, no wrap-around.

use vstd::prelude::*;

verus! {

/// One grid position, identified by row and column.
#[derive(Clone, Copy, PartialEq, Eq, Structural, Debug)]
pub struct Cell {
    pub row: usize,
    pub col: usize,
}

/// Whether `c` names a position of an n-by-n grid.
pub open spec fn in_range(c: Cell, n: int) -> bool {
    c.row < n && c.col < n
}

/// Moore adjacency: two distinct positions of the n-by-n grid within
/// Chebyshev distance one of each other.
pub open spec fn is_adjacent(a: Cell, b: Cell, n: int) -> bool {
    &&& in_range(a, n)
    &&& in_range(b, n)
    &&& a != b
    &&& -1 <= a.row as int - b.row as int <= 1
    &&& -1 <= a.col as int - b.col as int <= 1
}

/// Row-major index of a cell in a flat array of n*n entries.
pub open spec fn row_major(c: Cell, n: int) -> int {
    c.row as int * n + c.col as int
}

/// How many values the Moore neighbourhood of coordinate `i` spans along
/// one axis of [0, n): the coordinate itself plus up to one on each side.
pub open spec fn axis_span(i: int, n: int) -> int {
    1 + (if i > 0 { 1int } else { 0int }) + (if i + 1 < n { 1int } else { 0int })
}

/// The exact number of Moore neighbours of a cell in an n-by-n grid.
pub open spec fn neighbor_count(c: Cell, n: int) -> int {
    axis_span(c.row as int, n) * axis_span(c.col as int, n) - 1
}

/// What a correct neighbour list of cell `c` holds: exactly the cells
/// adjacent to `c`, each of them once.
pub open spec fn neighbors_ok(ns: Seq<Cell>, c: Cell, n: int) -> bool {
    &&& forall|k: int| 0 <= k < ns.len() ==> is_adjacent(c, #[trigger] ns[k], n)
    &&& forall|b: Cell| is_adjacent(c, b, n) ==> #[trigger] ns.contains(b)
    &&& ns.no_duplicates()
    &&& ns.len() == neighbor_count(c, n)
}

/// Every index of a row below `r2` lies below the start of row `r2`.
pub proof fn lemma_row_major_below(row: int, col: int, r2: int, n: int)
    requires
        0 <= col < n,
        0 <= row < r2,
    ensures
        row * n + col < r2 * n,
{
    assert(row * n + col < r2 * n) by (nonlinear_arith)
        requires
            0 <= col < n,
            0 <= row < r2,
    ;
}

/// Row-major indices of grid cells stay below n*n.
pub proof fn lemma_row_major_bounds(c: Cell, n: int)
    requires
        in_range(c, n),
    ensures
        0 <= row_major(c, n) < n * n,
{
    lemma_row_major_below(c.row as int, c.col as int, n, n);
}

/// Distinct cells of the grid have distinct row-major indices.
pub proof fn lemma_row_major_injective(a: Cell, b: Cell, n: int)
    requires
        in_range(a, n),
        in_range(b, n),
        row_major(a, n) == row_major(b, n),
    ensures
        a == b,
{
    if (a.row as int) < (b.row as int) {
        lemma_row_major_below(a.row as int, a.col as int, b.row as int, n);
    }
    if (b.row as int) < (a.row as int) {
        lemma_row_major_below(b.row as int, b.col as int, a.row as int, n);
    }
}

/// Adjacency is symmetric: b is adjacent to a exactly when a is adjacent
/// to b.
pub proof fn lemma_adjacency_symmetric(a: Cell, b: Cell, n: int)
    ensures
        is_adjacent(a, b, n) == is_adjacent(b, a, n),
{
}

/// Appends a cell to a neighbour list under construction, keeping the
/// membership facts gathered so far.
pub(crate) fn push_cell(v: &mut Vec<Cell>, x: Cell)
    ensures
        final(v)@ == old(v)@.push(x),
        final(v)@.contains(x),
        forall|b: Cell| old(v)@.contains(b) ==> final(v)@.contains(b),
{
    v.push(x);
    proof {
        assert(v@[v@.len() - 1] == x);
        assert forall|b: Cell| old(v)@.contains(b) implies v@.contains(b) by {
            let i = choose|i: int| 0 <= i < old(v)@.len() && old(v)@[i] == b;
            assert(v@[i] == b);
        }
    }
}

/// The Moore neighbours of the position (r, c) of an n-by-n grid, built by
/// clipping the eight surrounding offsets at the grid boundary.
fn moore_neighbors(r: usize, c: usize, n: usize) -> (v: Vec<Cell>)
    requires
        r < n,
        c < n,
    ensures
        neighbors_ok(v@, Cell { row: r, col: c }, n as int),
{
    let ghost a = Cell { row: r, col: c };
    let mut v: Vec<Cell> = Vec::new();
    if r > 0 {
        if c > 0 {
            push_cell(&mut v, Cell { row: r - 1, col: c - 1 });
        }
        push_cell(&mut v, Cell { row: r - 1, col: c });
        if c + 1 < n {
            push_cell(&mut v, Cell { row: r - 1, col: c + 1 });
        }
    }
    if c > 0 {
        push_cell(&mut v, Cell { row: r, col: c - 1 });
    }
    if c + 1 < n {
        push_cell(&mut v, Cell { row: r, col: c + 1 });
    }
    if r + 1 < n {
        if c > 0 {
            push_cell(&mut v, Cell { row: r + 1, col: c - 1 });
        }
        push_cell(&mut v, Cell { row: r + 1, col: c });
        if c + 1 < n {
            push_cell(&mut v, Cell { row: r + 1, col: c + 1 });
        }
    }
    proof {
        let rows = axis_span(r as int, n as int);
        let cols = axis_span(c as int, n as int);
        assert(rows * cols == if rows == 1 {
            cols
        } else if rows == 2 {
            2 * cols
        } else {
            3 * cols
        }) by (nonlinear_arith)
            requires
                1 <= rows <= 3,
        ;
        assert forall|b: Cell| is_adjacent(a, b, n as int) implies #[trigger] v@.contains(b) by {
            if b.row as int == r as int - 1 {
                if b.col as int == c as int - 1 {
                    assert(v@.contains(Cell { row: (r - 1) as usize, col: (c - 1) as usize }));
                } else if b.col == c {
                    assert(v@.contains(Cell { row: (r - 1) as usize, col: c }));
                } else {
                    assert(v@.contains(Cell { row: (r - 1) as usize, col: (c + 1) as usize }));
                }
            } else if b.row == r {
                if b.col as int == c as int - 1 {
                    assert(v@.contains(Cell { row: r, col: (c - 1) as usize }));
                } else {
                    assert(v@.contains(Cell { row: r, col: (c + 1) as usize }));
                }
            } else {
                if b.col as int == c as int - 1 {
                    assert(v@.contains(Cell { row: (r + 1) as usize, col: (c - 1) as usize }));
                } else if b.col == c {
                    assert(v@.contains(Cell { row: (r + 1) as usize, col: c }));
                } else {
                    assert(v@.contains(Cell { row: (r + 1) as usize, col: (c + 1) as usize }));
                }
            }
        }
    }
    v
}

/// Whether `c` comes strictly before position (row, col) in row-major
/// order.
pub open spec fn lex_before(c: Cell, row: int, col: int) -> bool {
    c.row < row || (c.row == row && c.col < col)
}

/// What it means for the flat adjacency table to hold a finished entry
/// for cell `c`.
pub open spec fn adjacency_entry_ok(entries: Seq<Vec<Cell>>, c: Cell, n: int) -> bool {
    &&& 0 <= row_major(c, n) < entries.len()
    &&& neighbors_ok(entries[row_major(c, n)]@, c, n)
}

/// The fixed n-by-n topology: one precomputed Moore-neighbour list per
/// cell, stored row-major. Built once at game start, never mutated.
pub struct Grid {
    pub n: usize,
    pub adj: Vec<Vec<Cell>>,
}

impl Grid {
    /// The stored neighbour list of `c`, as the sequence it holds.
    pub open spec fn neighbors_seq(self, c: Cell) -> Seq<Cell> {
        self.adj@[row_major(c, self.n as int)]@
    }

    /// Well-formed: one entry per cell of the n-by-n grid, each entry
    /// exactly the Moore neighbours of its cell.
    pub open spec fn wf(self) -> bool {
        &&& 1 <= self.n
        &&& self.n as int * self.n as int <= usize::MAX as int
        &&& self.adj@.len() == self.n as int * self.n as int
        &&& forall|c: Cell| in_range(c, self.n as int) ==> neighbors_ok(
            #[trigger] self.neighbors_seq(c),
            c,
            self.n as int,
        )
    }

    /// Builds the n-by-n topology: cell identities and, for every cell,
    /// its clipped Moore neighbourhood. Deterministic and pure.
    pub fn build(n: usize) -> (g: Grid)
        requires
            1 <= n,
            n as int * n as int <= usize::MAX as int,
        ensures
            g.wf(),
            g.n == n,
    {
        let mut adj: Vec<Vec<Cell>> = Vec::new();
        let mut r: usize = 0;
        while r < n
            invariant
                r <= n,
                1 <= n,
                n as int * n as int <= usize::MAX as int,
                adj@.len() == r as int * n as int,
                forall|c: Cell| in_range(c, n as int) && (c.row as int) < (r as int)
                    ==> #[trigger] adjacency_entry_ok(adj@, c, n as int),
            decreases n - r,
        {
            let mut col: usize = 0;
            while col < n
                invariant
                    col <= n,
                    r < n,
                    1 <= n,
                    n as int * n as int <= usize::MAX as int,
                    adj@.len() == r as int * n as int + col as int,
                    forall|c: Cell| in_range(c, n as int) && lex_before(c, r as int, col as int)
                        ==> #[trigger] adjacency_entry_ok(adj@, c, n as int),
                decreases n - col,
            {
                let ns = moore_neighbors(r, col, n);
                let ghost prev = adj@;
                adj.push(ns);
                proof {
                    assert forall|c2: Cell|
                        in_range(c2, n as int) && lex_before(c2, r as int, col as int + 1)
                        implies #[trigger] adjacency_entry_ok(adj@, c2, n as int) by {
                        if lex_before(c2, r as int, col as int) {
                            assert(adjacency_entry_ok(prev, c2, n as int));
                            assert(adj@[row_major(c2, n as int)] == prev[row_major(c2, n as int)]);
                        } else {
                            assert(c2.row == r && c2.col == col);
                            assert(row_major(c2, n as int) == prev.len());
                            assert(adj@[row_major(c2, n as int)]@ == ns@);
                        }
                    }
                }
                col += 1;
            }
            proof {
                assert((r as int + 1) * (n as int) == r as int * n as int + n as int)
                    by (nonlinear_arith);
            }
            r += 1;
        }
        let g = Grid { n, adj };
        proof {
            assert forall|c: Cell| in_range(c, n as int) implies neighbors_ok(
                #[trigger] g.neighbors_seq(c),
                c,
                n as int,
            ) by {
                assert(adjacency_entry_ok(g.adj@, c, n as int));
            }
        }
        g
    }

    /// The precomputed neighbour list of `c`.
    pub fn neighbors(&self, c: Cell) -> (ns: &Vec<Cell>)
        requires
            self.wf(),
            in_range(c, self.n as int),
        ensures
            ns@ == self.neighbors_seq(c),
            neighbors_ok(ns@, c, self.n as int),
    {
        proof {
            lemma_row_major_bounds(c, self.n as int);
            assert(neighbors_ok(self.neighbors_seq(c), c, self.n as int));
        }
        let i = c.row * self.n + c.col;
        &self.adj[i]
    }
}

/// A cell on both boundaries of the grid.
pub open spec fn is_corner(c: Cell, n: int) -> bool {
    (c.row == 0 || c.row as int == n - 1) && (c.col == 0 || c.col as int == n - 1)
}

/// A cell on exactly one boundary of the grid.
pub open spec fn is_edge(c: Cell, n: int) -> bool {
    ||| (c.row == 0 || c.row as int == n - 1) && 0 < c.col && (c.col as int) < n - 1
    ||| (c.col == 0 || c.col as int == n - 1) && 0 < c.row && (c.row as int) < n - 1
}

/// A cell on no boundary of the grid.
pub open spec fn is_interior(c: Cell, n: int) -> bool {
    0 < c.row && (c.row as int) < n - 1 && 0 < c.col && (c.col as int) < n - 1
}

/// For a grid of side at least 3: a corner cell has exactly 3 stored
/// neighbours, an edge (non-corner) cell exactly 5, an interior cell
/// exactly 8.
pub proof fn lemma_neighbor_count_bounds(g: Grid, c: Cell)
    requires
        g.wf(),
        in_range(c, g.n as int),
        g.n >= 3,
    ensures
        is_corner(c, g.n as int) ==> g.neighbors_seq(c).len() == 3,
        is_edge(c, g.n as int) ==> g.neighbors_seq(c).len() == 5,
        is_interior(c, g.n as int) ==> g.neighbors_seq(c).len() == 8,
{
    let n = g.n as int;
    let rows = axis_span(c.row as int, n);
    let cols = axis_span(c.col as int, n);
    assert(g.neighbors_seq(c).len() == rows * cols - 1);
    assert(rows * cols == if rows == 2 {
        2 * cols
    } else {
        3 * cols
    }) by (nonlinear_arith)
        requires
            2 <= rows <= 3,
    ;
}

/// Adjacency symmetry at the level of the stored lists: b appears in a's
/// neighbour list exactly when a appears in b's.
pub proof fn lemma_neighbor_lists_symmetric(g: Grid, a: Cell, b: Cell)
    requires
        g.wf(),
        in_range(a, g.n as int),
        in_range(b, g.n as int),
    ensures
        g.neighbors_seq(a).contains(b) <==> g.neighbors_seq(b).contains(a),
{
    let n = g.n as int;
    if g.neighbors_seq(a).contains(b) {
        let i = choose|i: int|
            0 <= i < g.neighbors_seq(a).len() && g.neighbors_seq(a)[i] == b;
        assert(is_adjacent(a, b, n));
        assert(g.neighbors_seq(b).contains(a));
    }
    if g.neighbors_seq(b).contains(a) {
        let i = choose|i: int|
            0 <= i < g.neighbors_seq(b).len() && g.neighbors_seq(b)[i] == a;
        assert(is_adjacent(b, a, n));
        assert(g.neighbors_seq(a).contains(b));
    }
}

} // verus!
