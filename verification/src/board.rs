//! Board state: per-cell value and ownership, mutated only through claims.
//! A claim is permanent: once owned, a cell's owner and value never change.

use vstd::prelude::*;

use crate::grid::{in_range, lex_before, row_major, Cell};
use crate::grid::{lemma_row_major_bounds, lemma_row_major_injective};
use crate::player::Player;

verus! {

/// The state of one cell: its value, if set, and its owner, if any.
#[derive(Clone, Copy, PartialEq, Eq, Structural, Debug)]
pub struct CellState {
    pub value: Option<u32>,
    pub owner: Option<Player>,
}

/// A fatal misuse of the board that a correct caller never commits.
#[derive(Clone, Copy, PartialEq, Eq, Structural, Debug)]
pub enum InvariantViolation {
    /// A claim was made on a cell that is already owned.
    AlreadyOwned,
}

/// A cell is valued exactly when it is owned, and values are positive.
pub open spec fn cell_state_ok(s: CellState) -> bool {
    &&& s.owner is Some <==> s.value is Some
    &&& s.value matches Some(v) ==> v >= 1
}

/// The number of entries of `s` that no player owns.
pub open spec fn num_unowned(s: Seq<CellState>) -> int
    decreases s.len(),
{
    if s.len() == 0 {
        0
    } else {
        num_unowned(s.drop_last()) + if s.last().owner is None {
            1int
        } else {
            0int
        }
    }
}

/// The count of unowned entries lies between zero and the length.
pub proof fn lemma_num_unowned_le_len(s: Seq<CellState>)
    ensures
        0 <= num_unowned(s) <= s.len(),
    decreases s.len(),
{
    if s.len() > 0 {
        lemma_num_unowned_le_len(s.drop_last());
    }
}

/// Appending one entry adds one to the count exactly when it is unowned.
pub proof fn lemma_num_unowned_push(s: Seq<CellState>, x: CellState)
    ensures
        num_unowned(s.push(x)) == num_unowned(s) + if x.owner is None {
            1int
        } else {
            0int
        },
{
    assert(s.push(x).drop_last() =~= s);
    assert(s.push(x).last() == x);
}

/// Replacing an unowned entry by an owned one lowers the count by one.
pub proof fn lemma_num_unowned_update_claim(s: Seq<CellState>, i: int, x: CellState)
    requires
        0 <= i < s.len(),
        s[i].owner is None,
        x.owner is Some,
    ensures
        num_unowned(s.update(i, x)) == num_unowned(s) - 1,
    decreases s.len(),
{
    let t = s.update(i, x);
    if i == s.len() - 1 {
        assert(t.drop_last() =~= s.drop_last());
        assert(t.last() == x);
        assert(s.last() == s[i]);
    } else {
        assert(t.drop_last() =~= s.drop_last().update(i, x));
        assert(t.last() == s.last());
        lemma_num_unowned_update_claim(s.drop_last(), i, x);
    }
}

/// An unowned entry keeps the count positive.
pub proof fn lemma_num_unowned_pos(s: Seq<CellState>, i: int)
    requires
        0 <= i < s.len(),
        s[i].owner is None,
    ensures
        num_unowned(s) >= 1,
    decreases s.len(),
{
    lemma_num_unowned_le_len(s.drop_last());
    if i < s.len() - 1 {
        lemma_num_unowned_pos(s.drop_last(), i);
    }
}

/// With every entry owned the count is zero.
pub proof fn lemma_num_unowned_all_owned(s: Seq<CellState>)
    requires
        forall|i: int| 0 <= i < s.len() ==> (#[trigger] s[i].owner) is Some,
    ensures
        num_unowned(s) == 0,
    decreases s.len(),
{
    if s.len() > 0 {
        lemma_num_unowned_all_owned(s.drop_last());
        assert(s.last() == s[s.len() - 1]);
    }
}

/// A count of zero means every entry is owned.
pub proof fn lemma_num_unowned_zero(s: Seq<CellState>)
    requires
        num_unowned(s) == 0,
    ensures
        forall|i: int| 0 <= i < s.len() ==> (#[trigger] s[i].owner) is Some,
{
    assert forall|i: int| 0 <= i < s.len() implies (#[trigger] s[i].owner) is Some by {
        if s[i].owner is None {
            lemma_num_unowned_pos(s, i);
        }
    }
}

/// The unowned counter of a well-formed board reads zero exactly when
/// every cell of the grid is owned.
pub proof fn lemma_no_unowned_iff_all_owned(b: Board)
    requires
        b.wf(),
    ensures
        (b.unowned == 0) <==> (forall|c: Cell|
            in_range(c, b.n as int) ==> (#[trigger] b.owner_of(c)) is Some),
{
    let n_i = b.n as int;
    if b.unowned == 0 {
        lemma_num_unowned_zero(b.cells@);
        assert forall|c: Cell| in_range(c, n_i) implies (#[trigger] b.owner_of(c)) is Some by {
            lemma_row_major_bounds(c, n_i);
        }
    }
    if forall|c: Cell| in_range(c, n_i) ==> (#[trigger] b.owner_of(c)) is Some {
        assert forall|k: int| 0 <= k < b.cells@.len() implies (#[trigger] b.cells@[k].owner)
            is Some by {
            vstd::arithmetic::div_mod::lemma_fundamental_div_mod(k, n_i);
            vstd::arithmetic::div_mod::lemma_mod_bound(k, n_i);
            vstd::arithmetic::div_mod::lemma_div_pos_is_pos(k, n_i);
            if k / n_i >= n_i {
                vstd::arithmetic::mul::lemma_mul_inequality(n_i, k / n_i, n_i);
                assert(false);
            }
            let c = Cell { row: (k / n_i) as usize, col: (k % n_i) as usize };
            assert(0 <= k / n_i < n_i);
            assert(0 <= k % n_i < n_i);
            assert(c.row as int == k / n_i && c.col as int == k % n_i);
            assert((k / n_i) * n_i == n_i * (k / n_i)) by (nonlinear_arith);
            assert(row_major(c, n_i) == k);
            assert(b.owner_of(c) is Some);
        }
        lemma_num_unowned_all_owned(b.cells@);
    }
}

/// The board of an n-by-n game: one state per cell, stored row-major,
/// together with a running count of the cells that nobody owns yet.
pub struct Board {
    pub n: usize,
    pub cells: Vec<CellState>,
    pub unowned: usize,
}

impl Board {
    /// The state the board holds for cell `c`.
    pub open spec fn cell_spec(self, c: Cell) -> CellState {
        self.cells@[row_major(c, self.n as int)]
    }

    /// The owner of cell `c`, if any.
    pub open spec fn owner_of(self, c: Cell) -> Option<Player> {
        self.cell_spec(c).owner
    }

    /// The value written on cell `c`, if any.
    pub open spec fn value_of(self, c: Cell) -> Option<u32> {
        self.cell_spec(c).value
    }

    /// Well-formed: one entry per cell, each entry valued exactly when
    /// owned, and the unowned counter exact.
    pub open spec fn wf(self) -> bool {
        &&& 1 <= self.n
        &&& self.n as int * self.n as int <= usize::MAX as int
        &&& self.cells@.len() == self.n as int * self.n as int
        &&& forall|k: int| 0 <= k < self.cells@.len() ==> cell_state_ok(#[trigger] self.cells@[k])
        &&& self.unowned as int == num_unowned(self.cells@)
    }

    /// A fresh n-by-n board with every cell unowned and unvalued.
    pub fn new(n: usize) -> (b: Board)
        requires
            1 <= n,
            n as int * n as int <= usize::MAX as int,
        ensures
            b.wf(),
            b.n == n,
            b.unowned as int == n as int * n as int,
            forall|c: Cell| in_range(c, n as int) ==> (#[trigger] b.owner_of(c)) is None
                && b.value_of(c) is None,
    {
        let total = n * n;
        let mut cells: Vec<CellState> = Vec::new();
        let mut i: usize = 0;
        while i < total
            invariant
                i <= total,
                cells@.len() == i as int,
                forall|k: int| 0 <= k < i as int ==> (#[trigger] cells@[k]) == (CellState {
                    value: None::<u32>,
                    owner: None::<Player>,
                }),
                num_unowned(cells@) == i as int,
            decreases total - i,
        {
            let ghost prev = cells@;
            cells.push(CellState { value: None, owner: None });
            proof {
                lemma_num_unowned_push(prev, CellState { value: None, owner: None });
            }
            i += 1;
        }
        let b = Board { n, cells, unowned: total };
        proof {
            assert forall|c: Cell| in_range(c, n as int) implies (#[trigger] b.owner_of(c)) is None
                && b.value_of(c) is None by {
                lemma_row_major_bounds(c, n as int);
            }
        }
        b
    }

    /// The value written on cell `c`, if any.
    pub fn value(&self, c: Cell) -> (v: Option<u32>)
        requires
            self.wf(),
            in_range(c, self.n as int),
        ensures
            v == self.value_of(c),
    {
        proof {
            lemma_row_major_bounds(c, self.n as int);
        }
        let i = c.row * self.n + c.col;
        self.cells[i].value
    }

    /// The owner of cell `c`, if any.
    pub fn owner(&self, c: Cell) -> (o: Option<Player>)
        requires
            self.wf(),
            in_range(c, self.n as int),
        ensures
            o == self.owner_of(c),
    {
        proof {
            lemma_row_major_bounds(c, self.n as int);
        }
        let i = c.row * self.n + c.col;
        self.cells[i].owner
    }

    /// Claims cell `c` for player `p` with the given positive value. On an
    /// unowned cell the claim succeeds and is permanent; on an owned cell
    /// nothing changes and the call reports the violation: claims never
    /// overwrite an owner or a value.
    pub fn claim(&mut self, c: Cell, p: Player, value: u32) -> (r: Result<
        (),
        InvariantViolation,
    >)
        requires
            old(self).wf(),
            in_range(c, old(self).n as int),
            value >= 1,
        ensures
            final(self).wf(),
            final(self).n == old(self).n,
            old(self).owner_of(c) is None ==> r is Ok && final(self).cell_spec(c) == (CellState {
                value: Some(value),
                owner: Some(p),
            }) && final(self).unowned as int == old(self).unowned as int - 1,
            old(self).owner_of(c) is Some ==> r == Err::<(), InvariantViolation>(
                InvariantViolation::AlreadyOwned,
            ) && *final(self) == *old(self),
            forall|c2: Cell|
                in_range(c2, old(self).n as int) && c2 != c ==> final(self).cell_spec(c2) == old(
                    self,
                ).cell_spec(c2),
    {
        proof {
            lemma_row_major_bounds(c, self.n as int);
        }
        let i = c.row * self.n + c.col;
        if self.cells[i].owner.is_some() {
            return Err(InvariantViolation::AlreadyOwned);
        }
        let ghost prev = self.cells@;
        proof {
            lemma_num_unowned_pos(prev, i as int);
        }
        self.cells[i] = CellState { value: Some(value), owner: Some(p) };
        self.unowned = self.unowned - 1;
        proof {
            lemma_num_unowned_update_claim(
                prev,
                i as int,
                CellState { value: Some(value), owner: Some(p) },
            );
            assert forall|c2: Cell|
                in_range(c2, self.n as int) && c2 != c implies self.cell_spec(c2) == old(
                self,
            ).cell_spec(c2) by {
                lemma_row_major_bounds(c2, self.n as int);
                if row_major(c2, self.n as int) == row_major(c, self.n as int) {
                    lemma_row_major_injective(c2, c, self.n as int);
                }
            }
        }
        Ok(())
    }

    /// Every cell that nobody owns, in row-major order: the finite,
    /// restartable enumeration used for legality scans and termination
    /// checks.
    pub fn unowned_cells(&self) -> (v: Vec<Cell>)
        requires
            self.wf(),
        ensures
            forall|k: int|
                0 <= k < v@.len() ==> in_range(#[trigger] v@[k], self.n as int) && self.owner_of(
                    v@[k],
                ) is None,
            forall|c: Cell|
                in_range(c, self.n as int) && self.owner_of(c) is None ==> #[trigger] v@.contains(
                    c,
                ),
            v@.no_duplicates(),
            v@.len() == self.unowned as int,
    {
        let n = self.n;
        let mut v: Vec<Cell> = Vec::new();
        let mut r: usize = 0;
        while r < n
            invariant
                r <= n,
                self.wf(),
                n == self.n,
                v@.len() == num_unowned(self.cells@.take(r as int * n as int)),
                forall|k: int|
                    0 <= k < v@.len() ==> in_range(#[trigger] v@[k], n as int) && self.owner_of(
                        v@[k],
                    ) is None && lex_before(v@[k], r as int, 0),
                forall|c: Cell|
                    in_range(c, n as int) && lex_before(c, r as int, 0) && self.owner_of(c) is None
                        ==> #[trigger] v@.contains(c),
                v@.no_duplicates(),
            decreases n - r,
        {
            let mut col: usize = 0;
            while col < n
                invariant
                    col <= n,
                    r < n,
                    self.wf(),
                    n == self.n,
                    v@.len() == num_unowned(
                        self.cells@.take(r as int * n as int + col as int),
                    ),
                    forall|k: int|
                        0 <= k < v@.len() ==> in_range(#[trigger] v@[k], n as int)
                            && self.owner_of(v@[k]) is None && lex_before(
                            v@[k],
                            r as int,
                            col as int,
                        ),
                    forall|c: Cell|
                        in_range(c, n as int) && lex_before(c, r as int, col as int)
                            && self.owner_of(c) is None ==> #[trigger] v@.contains(c),
                    v@.no_duplicates(),
                decreases n - col,
            {
                let cur = Cell { row: r, col };
                proof {
                    lemma_row_major_bounds(cur, n as int);
                    assert(self.cells@.take(row_major(cur, n as int) + 1).drop_last()
                        =~= self.cells@.take(row_major(cur, n as int)));
                    assert(self.cells@.take(row_major(cur, n as int) + 1).last()
                        == self.cells@[row_major(cur, n as int)]);
                }
                let k = r * n + col;
                if self.cells[k].owner.is_none() {
                    let ghost prevv = v@;
                    crate::grid::push_cell(&mut v, cur);
                    proof {
                        assert forall|i: int, j: int| 0 <= i < j < v@.len() implies v@[i] != v@[j]
                        by {
                            if j == v@.len() - 1 {
                                assert(prevv[i] == v@[i]);
                                assert(lex_before(v@[i], r as int, col as int));
                            } else {
                                assert(prevv[i] == v@[i] && prevv[j] == v@[j]);
                            }
                        }
                    }
                }
                col += 1;
            }
            proof {
                assert((r as int + 1) * (n as int) == r as int * n as int + n as int)
                    by (nonlinear_arith);
            }
            r += 1;
        }
        proof {
            assert(self.cells@.take(n as int * n as int) =~= self.cells@);
        }
        v
    }

    /// Every cell owned by `p`, in row-major order.
    pub fn owned_cells_of(&self, p: Player) -> (v: Vec<Cell>)
        requires
            self.wf(),
        ensures
            forall|k: int|
                0 <= k < v@.len() ==> in_range(#[trigger] v@[k], self.n as int) && self.owner_of(
                    v@[k],
                ) == Some(p),
            forall|c: Cell|
                in_range(c, self.n as int) && self.owner_of(c) == Some(p) ==> #[trigger] v@.contains(
                    c,
                ),
            v@.no_duplicates(),
    {
        let n = self.n;
        let mut v: Vec<Cell> = Vec::new();
        let mut r: usize = 0;
        while r < n
            invariant
                r <= n,
                self.wf(),
                n == self.n,
                forall|k: int|
                    0 <= k < v@.len() ==> in_range(#[trigger] v@[k], n as int) && self.owner_of(
                        v@[k],
                    ) == Some(p) && lex_before(v@[k], r as int, 0),
                forall|c: Cell|
                    in_range(c, n as int) && lex_before(c, r as int, 0) && self.owner_of(c) == Some(
                        p,
                    ) ==> #[trigger] v@.contains(c),
                v@.no_duplicates(),
            decreases n - r,
        {
            let mut col: usize = 0;
            while col < n
                invariant
                    col <= n,
                    r < n,
                    self.wf(),
                    n == self.n,
                    forall|k: int|
                        0 <= k < v@.len() ==> in_range(#[trigger] v@[k], n as int)
                            && self.owner_of(v@[k]) == Some(p) && lex_before(
                            v@[k],
                            r as int,
                            col as int,
                        ),
                    forall|c: Cell|
                        in_range(c, n as int) && lex_before(c, r as int, col as int)
                            && self.owner_of(c) == Some(p) ==> #[trigger] v@.contains(c),
                    v@.no_duplicates(),
                decreases n - col,
            {
                let cur = Cell { row: r, col };
                proof {
                    lemma_row_major_bounds(cur, n as int);
                }
                let k = r * n + col;
                let owned_by_p = match self.cells[k].owner {
                    Some(q) => q == p,
                    None => false,
                };
                if owned_by_p {
                    let ghost prevv = v@;
                    crate::grid::push_cell(&mut v, cur);
                    proof {
                        assert forall|i: int, j: int| 0 <= i < j < v@.len() implies v@[i] != v@[j]
                        by {
                            if j == v@.len() - 1 {
                                assert(prevv[i] == v@[i]);
                                assert(lex_before(v@[i], r as int, col as int));
                            } else {
                                assert(prevv[i] == v@[i] && prevv[j] == v@[j]);
                            }
                        }
                    }
                }
                col += 1;
            }
            r += 1;
        }
        v
    }
}

} // verus!
