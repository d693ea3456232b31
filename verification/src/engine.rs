//! Turn engine: move legality, the three-phase turn state machine,
//! score updates and win detection. The board and the ledger are mutated
//! only through the engine's entry points.

use vstd::prelude::*;

use crate::board::{
    cell_state_ok, lemma_num_unowned_pos, lemma_num_unowned_zero, Board, CellState,
};
use crate::grid::{
    in_range, is_adjacent, lemma_row_major_bounds, neighbors_ok, row_major, Cell, Grid,
};
use crate::player::{Ledger, Player};

verus! {

/// The phase of the turn state machine.
#[derive(Clone, Copy, PartialEq, Eq, Structural, Debug)]
pub enum Phase {
    /// No pending move; the engine awaits a confirmed selection.
    Unselected,
    /// A legal move has been chosen and is about to be applied.
    Committed,
    /// Post-move bookkeeping: termination check and turn handoff.
    TurnEnd,
    /// Every cell is owned; the game is over.
    Terminal,
}

/// Whether `p` owns at least one neighbour of `c` — the eligibility
/// condition of the legality rule.
pub open spec fn has_owned_neighbor(b: Board, c: Cell, p: Player) -> bool {
    exists|o: Cell|
        is_adjacent(c, o, b.n as int) && (#[trigger] b.owner_of(o)) == Some(p)
}

/// Whether `v` is the largest value among the neighbours of `c` that `p`
/// owns: some such neighbour carries `v`, and none exceeds it.
pub open spec fn largest_owned_neighbor_ok(b: Board, c: Cell, p: Player, v: u32) -> bool {
    &&& exists|o: Cell|
        is_adjacent(c, o, b.n as int) && (#[trigger] b.owner_of(o)) == Some(p) && b.value_of(o)
            == Some(v)
    &&& forall|o: Cell|
        is_adjacent(c, o, b.n as int) && (#[trigger] b.owner_of(o)) == Some(p)
            ==> b.value_of(o)->Some_0 <= v
}

/// Whether `p` has a legal move anywhere: an unowned cell next to a cell
/// `p` owns.
pub open spec fn player_can_move(b: Board, p: Player) -> bool {
    exists|u: Cell|
        in_range(u, b.n as int) && (#[trigger] b.owner_of(u)) is None && has_owned_neighbor(
            b,
            u,
            p,
        )
}

/// The largest owned-neighbour value is determined: a commit on an
/// eligible cell writes one value and no other.
pub proof fn lemma_largest_owned_neighbor_value_unique(
    b: Board,
    c: Cell,
    p: Player,
    v1: u32,
    v2: u32,
)
    requires
        largest_owned_neighbor_ok(b, c, p, v1),
        largest_owned_neighbor_ok(b, c, p, v2),
    ensures
        v1 == v2,
{
    let o1 = choose|o: Cell|
        is_adjacent(c, o, b.n as int) && (#[trigger] b.owner_of(o)) == Some(p) && b.value_of(o)
            == Some(v1);
    let o2 = choose|o: Cell|
        is_adjacent(c, o, b.n as int) && (#[trigger] b.owner_of(o)) == Some(p) && b.value_of(o)
            == Some(v2);
    assert(b.value_of(o1)->Some_0 <= v2);
    assert(b.value_of(o2)->Some_0 <= v1);
}

/// The sole legality oracle: the largest value among the neighbours of
/// `c` that `p` owns, or None when `p` owns no neighbour of `c`. A
/// candidate cell is selectable by `p` exactly when this returns Some.
pub fn largest_owned_neighbor_value(grid: &Grid, board: &Board, c: Cell, p: Player) -> (r: Option<
    u32,
>)
    requires
        grid.wf(),
        board.wf(),
        grid.n == board.n,
        in_range(c, grid.n as int),
    ensures
        r is Some <==> has_owned_neighbor(*board, c, p),
        r matches Some(v) ==> largest_owned_neighbor_ok(*board, c, p, v),
{
    let ns = grid.neighbors(c);
    let mut best: Option<u32> = None;
    let mut k: usize = 0;
    while k < ns.len()
        invariant
            k as int <= ns@.len(),
            grid.wf(),
            board.wf(),
            grid.n == board.n,
            in_range(c, grid.n as int),
            ns@ == grid.neighbors_seq(c),
            neighbors_ok(ns@, c, grid.n as int),
            best is Some <==> exists|j: int|
                0 <= j < k as int && (#[trigger] board.owner_of(ns@[j])) == Some(p),
            best matches Some(v) ==> exists|j: int|
                0 <= j < k as int && (#[trigger] board.owner_of(ns@[j])) == Some(p)
                    && board.value_of(ns@[j]) == Some(v),
            best matches Some(v) ==> forall|j: int|
                0 <= j < k as int && (#[trigger] board.owner_of(ns@[j])) == Some(p)
                    ==> board.value_of(ns@[j])->Some_0 <= v,
        decreases ns@.len() - k as int,
    {
        let nb = ns[k];
        let o = board.owner(nb);
        let owned_by_p = match o {
            Some(q) => q == p,
            None => false,
        };
        if owned_by_p {
            proof {
                lemma_row_major_bounds(nb, board.n as int);
            }
            match board.value(nb) {
                Some(vv) => {
                    best = match best {
                        Some(bv) => if vv > bv {
                            Some(vv)
                        } else {
                            Some(bv)
                        },
                        None => Some(vv),
                    };
                },
                None => {
                    proof {
                        assert(cell_state_ok(board.cell_spec(nb)));
                        assert(false);
                    }
                },
            }
        }
        k += 1;
    }
    proof {
        let n = grid.n as int;
        match best {
            Some(v) => {
                let j = choose|j: int|
                    0 <= j < ns@.len() && (#[trigger] board.owner_of(ns@[j])) == Some(p)
                        && board.value_of(ns@[j]) == Some(v);
                assert(is_adjacent(c, ns@[j], n));
                assert(has_owned_neighbor(*board, c, p));
                assert forall|o2: Cell|
                    is_adjacent(c, o2, n) && (#[trigger] board.owner_of(o2)) == Some(p)
                    implies board.value_of(o2)->Some_0 <= v by {
                    assert(ns@.contains(o2));
                    let i = choose|i: int| 0 <= i < ns@.len() && ns@[i] == o2;
                    assert(board.owner_of(ns@[i]) == Some(p));
                }
            },
            None => {
                if has_owned_neighbor(*board, c, p) {
                    let o2 = choose|o2: Cell|
                        is_adjacent(c, o2, n) && (#[trigger] board.owner_of(o2)) == Some(p);
                    assert(ns@.contains(o2));
                    let i = choose|i: int| 0 <= i < ns@.len() && ns@[i] == o2;
                    assert(board.owner_of(ns@[i]) == Some(p));
                }
            },
        }
    }
    best
}

/// The owner a cell has on the starting board: the first half of the main
/// diagonal belongs to player one, the rest of the diagonal to player two.
pub open spec fn seed_owner(c: Cell, n: int) -> Option<Player> {
    if c.row == c.col {
        if c.row < n / 2 {
            Some(Player::One)
        } else {
            Some(Player::Two)
        }
    } else {
        None
    }
}

/// The value a cell carries on the starting board: increasing values
/// 1..n/2 down the first half of the diagonal, mirrored decreasing values
/// down the rest.
pub open spec fn seed_value(c: Cell, n: int) -> Option<u32> {
    if c.row == c.col {
        if c.row < n / 2 {
            Some((c.row + 1) as u32)
        } else {
            Some((n - c.row) as u32)
        }
    } else {
        None
    }
}

/// The pre-placed diagonal: for position (i, j) of the starting board,
/// the value it carries and the player who owns it, if any.
pub fn init_cell_data(i: usize, j: usize, n: usize) -> (r: (Option<u32>, Option<Player>))
    requires
        i < n,
        j < n,
        n as int * n as int + n as int <= u32::MAX as int,
    ensures
        r.0 == seed_value(Cell { row: i, col: j }, n as int),
        r.1 == seed_owner(Cell { row: i, col: j }, n as int),
{
    if i == j {
        let half = n / 2;
        if i < half {
            (Some((i + 1) as u32), Some(Player::One))
        } else {
            (Some((n - i) as u32), Some(Player::Two))
        }
    } else {
        (None, None)
    }
}

/// The winner and final score the engine reports on termination.
#[derive(Clone, Copy, PartialEq, Eq, Structural, Debug)]
pub struct GameOutcome {
    pub winner: Player,
    pub score: u32,
}

/// A whole game: the fixed topology, the board, the two scores, whose
/// turn it is, the phase of the turn machine and the pending selection.
pub struct Game {
    pub grid: Grid,
    pub board: Board,
    pub ledger: Ledger,
    pub current: Player,
    pub phase: Phase,
    pub pending: Option<(Cell, u32)>,
}

impl Game {
    /// The side length of the grid.
    pub open spec fn side(self) -> int {
        self.grid.n as int
    }

    /// Half the side length: the length of each player's seeded diagonal
    /// run, and both players' starting score.
    pub open spec fn half(self) -> int {
        self.grid.n as int / 2
    }

    /// The ledger is exact for `p`: some cell `p` owns carries the score,
    /// and no cell `p` owns exceeds it.
    pub open spec fn scores_ok_for(self, p: Player) -> bool {
        &&& exists|c: Cell|
            in_range(c, self.side()) && (#[trigger] self.board.owner_of(c)) == Some(p)
                && self.board.value_of(c) == Some(self.ledger.score_spec(p))
        &&& forall|c: Cell|
            in_range(c, self.side()) && (#[trigger] self.board.owner_of(c)) == Some(p)
                ==> self.board.value_of(c)->Some_0 <= self.ledger.score_spec(p)
    }

    /// Every value on the board leaves room to grow by one per remaining
    /// unowned cell: values never outrun the arithmetic of the value type.
    pub open spec fn values_bounded(self) -> bool {
        forall|c: Cell|
            in_range(c, self.side()) && (#[trigger] self.board.owner_of(c)) is Some
                ==> self.board.value_of(c)->Some_0 + self.board.unowned as int <= self.half()
                + self.side() * self.side() - self.side()
    }

    /// The pending selection exists exactly in the Committed phase, and
    /// then records an eligible unowned cell with the value a commit will
    /// write: one more than the current player's largest owned neighbour.
    pub open spec fn pending_ok(self) -> bool {
        match self.phase {
            Phase::Committed => {
                &&& self.pending matches Some((c, w))
                &&& in_range(c, self.side())
                &&& self.board.owner_of(c) is None
                &&& w >= 2
                &&& largest_owned_neighbor_ok(self.board, c, self.current, (w - 1) as u32)
            },
            _ => self.pending is None,
        }
    }

    /// Well-formed: grid and board agree on an even side of at least two,
    /// small enough for values to stay representable; the ledger is exact
    /// for both players; the pending selection matches the phase; and a
    /// terminal game has no unowned cell left.
    pub open spec fn wf(self) -> bool {
        &&& self.grid.wf()
        &&& self.board.wf()
        &&& self.board.n == self.grid.n
        &&& 2 <= self.grid.n
        &&& self.grid.n % 2 == 0
        &&& self.side() * self.side() + self.side() <= u32::MAX as int
        &&& self.scores_ok_for(Player::One)
        &&& self.scores_ok_for(Player::Two)
        &&& self.values_bounded()
        &&& self.pending_ok()
        &&& (self.phase is Terminal ==> self.board.unowned == 0)
    }

    /// A new game on an n-by-n grid: the diagonal is pre-claimed as the
    /// seed configuration, both scores start at n/2 (the largest seeded
    /// value), player two moves first, and the engine awaits a selection.
    /// The side must be even, so that the diagonal splits evenly between
    /// the two players, and small enough for values to stay representable.
    pub fn new(n: usize) -> (g: Game)
        requires
            2 <= n,
            n % 2 == 0,
            n as int * n as int + n as int <= u32::MAX as int,
        ensures
            g.wf(),
            g.grid.n == n,
            g.phase is Unselected,
            g.current == Player::Two,
            g.pending is None,
            g.ledger.score_spec(Player::One) == n / 2,
            g.ledger.score_spec(Player::Two) == n / 2,
            g.board.unowned as int == n as int * n as int - n as int,
            forall|c: Cell|
                in_range(c, n as int) ==> (#[trigger] g.board.owner_of(c)) == seed_owner(
                    c,
                    n as int,
                ),
            forall|c: Cell|
                in_range(c, n as int) ==> (#[trigger] g.board.value_of(c)) == seed_value(
                    c,
                    n as int,
                ),
    {
        let grid = Grid::build(n);
        let mut board = Board::new(n);
        proof {
            assert forall|c: Cell| in_range(c, n as int) implies #[trigger] board.cell_spec(c)
                == (CellState { value: None::<u32>, owner: None::<Player> }) by {
                assert(board.owner_of(c) is None && board.value_of(c) is None);
            }
        }
        let ledger = Ledger::new((n / 2) as u32);
        let mut i: usize = 0;
        while i < n
            invariant
                i <= n,
                2 <= n,
                n % 2 == 0,
                n as int * n as int + n as int <= u32::MAX as int,
                board.wf(),
                board.n == n,
                board.unowned as int == n as int * n as int - i as int,
                forall|c: Cell|
                    in_range(c, n as int) ==> #[trigger] board.cell_spec(c) == (if c.row == c.col
                        && (c.row as int) < i as int {
                        CellState { value: seed_value(c, n as int), owner: seed_owner(c, n as int) }
                    } else {
                        CellState { value: None::<u32>, owner: None::<Player> }
                    }),
            decreases n - i,
        {
            let d = Cell { row: i, col: i };
            let (val, owner) = init_cell_data(i, i, n);
            match (val, owner) {
                (Some(v), Some(p)) => {
                    let ghost prev = board;
                    let res = board.claim(d, p, v);
                    proof {
                        assert(res is Ok);
                        assert forall|c: Cell| in_range(c, n as int) implies #[trigger] board
                            .cell_spec(c) == (if c.row == c.col && (c.row as int) < i as int + 1 {
                            CellState {
                                value: seed_value(c, n as int),
                                owner: seed_owner(c, n as int),
                            }
                        } else {
                            CellState { value: None::<u32>, owner: None::<Player> }
                        }) by {
                            if c != d {
                                assert(board.cell_spec(c) == prev.cell_spec(c));
                            }
                        }
                    }
                },
                _ => {
                    proof {
                        assert(false);
                    }
                },
            }
            i += 1;
        }
        let g = Game {
            grid,
            board,
            ledger,
            current: Player::Two,
            phase: Phase::Unselected,
            pending: None,
        };
        proof {
            let n_int = n as int;
            let half = n_int / 2;
            let c1 = Cell { row: (half - 1) as usize, col: (half - 1) as usize };
            let c2 = Cell { row: half as usize, col: half as usize };
            assert(g.board.owner_of(c1) == Some(Player::One));
            assert(g.board.value_of(c1) == Some((half) as u32));
            assert(g.board.owner_of(c2) == Some(Player::Two));
            assert(g.board.value_of(c2) == Some((n_int - half) as u32));
            assert(g.scores_ok_for(Player::One));
            assert(g.scores_ok_for(Player::Two));
        }
        g
    }

    /// For a candidate cell from the input boundary: Some(w) exactly when
    /// the current player may select `c`, where `w` — one more than the
    /// largest value among the current player's owned neighbours — is the
    /// value a commit would write. Used for eligibility highlighting and
    /// by `confirm_selection`.
    pub fn candidate_value(&self, c: Cell) -> (r: Option<u32>)
        requires
            self.wf(),
        ensures
            r is Some <==> (in_range(c, self.side()) && self.board.owner_of(c) is None
                && has_owned_neighbor(self.board, c, self.current)),
            r matches Some(w) ==> w >= 2 && largest_owned_neighbor_ok(
                self.board,
                c,
                self.current,
                (w - 1) as u32,
            ),
    {
        if !(c.row < self.grid.n && c.col < self.grid.n) {
            return None;
        }
        if self.board.owner(c).is_some() {
            return None;
        }
        match largest_owned_neighbor_value(&self.grid, &self.board, c, self.current) {
            Some(v) => {
                proof {
                    let n_int = self.side();
                    let o = choose|o: Cell|
                        is_adjacent(c, o, n_int) && (#[trigger] self.board.owner_of(o)) == Some(
                            self.current,
                        ) && self.board.value_of(o) == Some(v);
                    lemma_row_major_bounds(o, n_int);
                    assert(cell_state_ok(self.board.cell_spec(o)));
                    lemma_row_major_bounds(c, n_int);
                    lemma_num_unowned_pos(self.board.cells@, row_major(c, n_int));
                }
                Some(v + 1)
            },
            None => None,
        }
    }

    /// A confirmed selection from the input boundary. Accepted exactly
    /// when the engine awaits a selection and the cell is eligible for
    /// the current player; the engine then records the pending move and
    /// enters Committed. A confirmation on any other cell is ignored:
    /// no state change.
    pub fn confirm_selection(&mut self, c: Cell) -> (accepted: bool)
        requires
            old(self).wf(),
        ensures
            final(self).wf(),
            accepted <==> (old(self).phase is Unselected && in_range(c, old(self).side()) && old(
                self,
            ).board.owner_of(c) is None && has_owned_neighbor(old(self).board, c, old(self).current)),
            accepted ==> final(self).phase is Committed && (final(self).pending matches Some(
                (cc, w),
            ) && cc == c && w >= 2 && largest_owned_neighbor_ok(
                old(self).board,
                c,
                old(self).current,
                (w - 1) as u32,
            )) && final(self).board == old(self).board && final(self).ledger == old(self).ledger
                && final(self).current == old(self).current && final(self).grid == old(self).grid,
            !accepted ==> *final(self) == *old(self),
    {
        match self.phase {
            Phase::Unselected => {},
            _ => {
                return false;
            },
        }
        match self.candidate_value(c) {
            Some(w) => {
                self.pending = Some((c, w));
                self.phase = Phase::Committed;
                true
            },
            None => false,
        }
    }

    /// Applies the pending selection: claims its cell for the current
    /// player with the pending value, raises that player's score to it if
    /// higher, clears the selection and enters TurnEnd. Exactly one board
    /// mutation; every other cell, the other score, and the turn are
    /// untouched.
    pub fn commit_selection(&mut self)
        requires
            old(self).wf(),
            old(self).phase is Committed,
        ensures
            final(self).wf(),
            final(self).phase is TurnEnd,
            final(self).pending is None,
            final(self).current == old(self).current,
            final(self).grid == old(self).grid,
            old(self).pending matches Some((c, w)) ==> {
                &&& final(self).board.owner_of(c) == Some(old(self).current)
                &&& final(self).board.value_of(c) == Some(w)
                &&& forall|c2: Cell|
                    in_range(c2, old(self).side()) && c2 != c ==> final(self).board.cell_spec(c2)
                        == old(self).board.cell_spec(c2)
                &&& final(self).board.unowned as int == old(self).board.unowned as int - 1
                &&& final(self).ledger.score_spec(old(self).current) == (if w > old(
                    self,
                ).ledger.score_spec(old(self).current) {
                    w
                } else {
                    old(self).ledger.score_spec(old(self).current)
                })
                &&& final(self).ledger.score_spec(old(self).current) >= old(self).ledger.score_spec(
                    old(self).current,
                )
                &&& final(self).ledger.score_spec(old(self).current.other_spec()) == old(
                    self,
                ).ledger.score_spec(old(self).current.other_spec())
            },
    {
        let cur = self.current;
        match self.pending {
            Some((c, w)) => {
                let res = self.board.claim(c, cur, w);
                proof {
                    // the pending cell is unowned, so the claim succeeds
                    assert(res is Ok);
                }
                self.ledger.update_score(cur, w);
                self.pending = None;
                self.phase = Phase::TurnEnd;
                proof {
                    let n_int = self.side();
                    let old_score = old(self).ledger.score_spec(cur);
                    let new_score = self.ledger.score_spec(cur);
                    // the ledger stays exact for the acting player
                    if w > old_score {
                        assert(self.board.owner_of(c) == Some(cur) && self.board.value_of(c)
                            == Some(w));
                    } else {
                        let cw = choose|cw: Cell|
                            in_range(cw, n_int) && (#[trigger] old(self).board.owner_of(cw))
                                == Some(cur) && old(self).board.value_of(cw) == Some(old_score);
                        assert(self.board.cell_spec(cw) == old(self).board.cell_spec(cw));
                        assert(self.board.owner_of(cw) == Some(cur) && self.board.value_of(cw)
                            == Some(new_score));
                    }
                    assert forall|c2: Cell|
                        in_range(c2, n_int) && (#[trigger] self.board.owner_of(c2)) == Some(cur)
                        implies self.board.value_of(c2)->Some_0 <= new_score by {
                        if c2 != c {
                            assert(old(self).board.owner_of(c2) == Some(cur));
                        }
                    }
                    assert(self.scores_ok_for(cur));
                    // the other player's cells and score are untouched
                    let oth = cur.other_spec();
                    let co = choose|co: Cell|
                        in_range(co, n_int) && (#[trigger] old(self).board.owner_of(co)) == Some(
                            oth,
                        ) && old(self).board.value_of(co) == Some(
                            old(self).ledger.score_spec(oth),
                        );
                    assert(self.board.cell_spec(co) == old(self).board.cell_spec(co));
                    assert(self.board.owner_of(co) == Some(oth) && self.board.value_of(co) == Some(
                        self.ledger.score_spec(oth),
                    ));
                    assert forall|c2: Cell|
                        in_range(c2, n_int) && (#[trigger] self.board.owner_of(c2)) == Some(oth)
                        implies self.board.value_of(c2)->Some_0 <= self.ledger.score_spec(oth) by {
                        if c2 != c {
                            assert(old(self).board.owner_of(c2) == Some(oth));
                        }
                    }
                    assert(self.scores_ok_for(oth));
                    // every value still leaves room for the remaining cells
                    let ov = choose|ov: Cell|
                        is_adjacent(c, ov, n_int) && (#[trigger] old(self).board.owner_of(ov))
                            == Some(cur) && old(self).board.value_of(ov) == Some((w - 1) as u32);
                    assert forall|c2: Cell|
                        in_range(c2, n_int) && (#[trigger] self.board.owner_of(c2)) is Some
                        implies self.board.value_of(c2)->Some_0 + self.board.unowned as int
                        <= self.half() + self.side() * self.side() - self.side() by {
                        if c2 == c {
                            assert(old(self).board.owner_of(ov) is Some);
                            assert(old(self).board.value_of(ov)->Some_0 + old(
                                self,
                            ).board.unowned as int <= self.half() + self.side() * self.side()
                                - self.side());
                        } else {
                            assert(old(self).board.owner_of(c2) is Some);
                        }
                    }
                }
            },
            None => {
                proof {
                    assert(false);
                }
            },
        }
    }

    /// Whether `p` has at least one legal move: an unowned cell adjacent
    /// to a cell `p` owns.
    pub fn player_has_moves(&self, p: Player) -> (r: bool)
        requires
            self.wf(),
        ensures
            r == player_can_move(self.board, p),
    {
        let owned = self.board.owned_cells_of(p);
        let mut i: usize = 0;
        while i < owned.len()
            invariant
                i as int <= owned@.len(),
                self.wf(),
                forall|j: int|
                    0 <= j < owned@.len() ==> in_range(#[trigger] owned@[j], self.side())
                        && self.board.owner_of(owned@[j]) == Some(p),
                forall|c: Cell|
                    in_range(c, self.side()) && self.board.owner_of(c) == Some(p)
                        ==> #[trigger] owned@.contains(c),
                forall|j: int|
                    0 <= j < i as int ==> no_unowned_neighbor(self.board, #[trigger] owned@[j]),
            decreases owned@.len() - i as int,
        {
            let o = owned[i];
            let ns = self.grid.neighbors(o);
            let mut k: usize = 0;
            while k < ns.len()
                invariant
                    k as int <= ns@.len(),
                    self.wf(),
                    in_range(o, self.side()),
                    self.board.owner_of(o) == Some(p),
                    neighbors_ok(ns@, o, self.side()),
                    forall|j: int|
                        0 <= j < k as int ==> (#[trigger] self.board.owner_of(ns@[j])) is Some,
                decreases ns@.len() - k as int,
            {
                let u = ns[k];
                if self.board.owner(u).is_none() {
                    proof {
                        assert(is_adjacent(o, u, self.side()));
                        assert(has_owned_neighbor(self.board, u, p));
                    }
                    return true;
                }
                k += 1;
            }
            proof {
                assert forall|u: Cell| is_adjacent(o, u, self.side()) implies (
                #[trigger] self.board.owner_of(u)) is Some by {
                    assert(ns@.contains(u));
                    let j = choose|j: int| 0 <= j < ns@.len() && ns@[j] == u;
                    assert(self.board.owner_of(ns@[j]) is Some);
                }
                assert(no_unowned_neighbor(self.board, o));
            }
            i += 1;
        }
        proof {
            if player_can_move(self.board, p) {
                let u = choose|u: Cell|
                    in_range(u, self.side()) && (#[trigger] self.board.owner_of(u)) is None
                        && has_owned_neighbor(self.board, u, p);
                let o = choose|o: Cell|
                    is_adjacent(u, o, self.side()) && (#[trigger] self.board.owner_of(o)) == Some(
                        p,
                    );
                assert(owned@.contains(o));
                let j = choose|j: int| 0 <= j < owned@.len() && owned@[j] == o;
                assert(no_unowned_neighbor(self.board, owned@[j]));
                assert(is_adjacent(o, u, self.side()));
            }
        }
        false
    }

    /// Termination check and turn handoff, in this order: with no unowned
    /// cell left the game ends; otherwise the turn passes to the other
    /// player if that player has a legal move, and stays with the same
    /// player if not — an implicit pass while unowned cells remain.
    pub fn turn_end(&mut self)
        requires
            old(self).wf(),
            old(self).phase is TurnEnd,
        ensures
            final(self).wf(),
            final(self).board == old(self).board,
            final(self).ledger == old(self).ledger,
            final(self).grid == old(self).grid,
            final(self).pending is None,
            old(self).board.unowned == 0 ==> final(self).phase is Terminal && final(self).current
                == old(self).current,
            old(self).board.unowned != 0 ==> final(self).phase is Unselected && final(self).current
                == (if player_can_move(old(self).board, old(self).current.other_spec()) {
                old(self).current.other_spec()
            } else {
                old(self).current
            }),
    {
        if self.board.unowned == 0 {
            self.phase = Phase::Terminal;
        } else {
            let next = self.current.other();
            if self.player_has_moves(next) {
                self.current = next;
            }
            self.phase = Phase::Unselected;
        }
    }

    /// On termination: the winning player — the strictly higher score,
    /// with an equal score going to player one — and that score. None
    /// while the game is still running.
    pub fn game_over(&self) -> (r: Option<GameOutcome>)
        requires
            self.wf(),
        ensures
            r is Some <==> self.phase is Terminal,
            r matches Some(o) ==> {
                &&& o.score == self.ledger.score_spec(o.winner)
                &&& self.ledger.score_spec(o.winner) >= self.ledger.score_spec(
                    o.winner.other_spec(),
                )
                &&& (self.ledger.one >= self.ledger.two ==> o.winner == Player::One)
                &&& (self.ledger.two > self.ledger.one ==> o.winner == Player::Two)
            },
    {
        match self.phase {
            Phase::Terminal => {
                let w = self.ledger.winner();
                let s = self.ledger.score(w);
                Some(GameOutcome { winner: w, score: s })
            },
            _ => None,
        }
    }

    /// The renderable state of one cell for the presentation boundary:
    /// the value to display and how to highlight the cell — by its owner,
    /// as eligible for the current player with the value a commit would
    /// write, or as plain unowned.
    pub fn cell_display(&self, c: Cell) -> (d: CellDisplay)
        requires
            self.wf(),
            in_range(c, self.side()),
        ensures
            self.board.owner_of(c) matches Some(p) ==> d == (CellDisplay {
                value_to_display: self.board.value_of(c),
                highlight: Highlight::OwnedBy(p),
            }),
            self.board.owner_of(c) is None && has_owned_neighbor(self.board, c, self.current)
                ==> (d.highlight matches Highlight::EligiblePending(w) && d.value_to_display
                == Some(w) && w >= 2 && largest_owned_neighbor_ok(
                self.board,
                c,
                self.current,
                (w - 1) as u32,
            )),
            self.board.owner_of(c) is None && !has_owned_neighbor(self.board, c, self.current)
                ==> d == (CellDisplay { value_to_display: None, highlight: Highlight::Unowned }),
    {
        match self.board.owner(c) {
            Some(p) => CellDisplay {
                value_to_display: self.board.value(c),
                highlight: Highlight::OwnedBy(p),
            },
            None => match self.candidate_value(c) {
                Some(w) => CellDisplay {
                    value_to_display: Some(w),
                    highlight: Highlight::EligiblePending(w),
                },
                None => CellDisplay { value_to_display: None, highlight: Highlight::Unowned },
            },
        }
    }

    /// The phase the turn machine is in.
    pub fn phase(&self) -> (ph: Phase)
        ensures
            ph == self.phase,
    {
        self.phase
    }

    /// The player whose turn it is.
    pub fn current_player(&self) -> (p: Player)
        ensures
            p == self.current,
    {
        self.current
    }

    /// The current score of `p`.
    pub fn score(&self, p: Player) -> (s: u32)
        ensures
            s == self.ledger.score_spec(p),
    {
        self.ledger.score(p)
    }
}

/// A cell of `b` all of whose neighbours are owned.
pub open spec fn no_unowned_neighbor(b: Board, o: Cell) -> bool {
    forall|u: Cell| is_adjacent(o, u, b.n as int) ==> (#[trigger] b.owner_of(u)) is Some
}

/// How one cell is highlighted at the presentation boundary.
#[derive(Clone, Copy, PartialEq, Eq, Structural, Debug)]
pub enum Highlight {
    /// Not owned and not eligible for the current player.
    Unowned,
    /// Eligible for the current player; a commit would write this value.
    EligiblePending(u32),
    /// Owned, permanently, by this player.
    OwnedBy(Player),
}

/// The renderable state of one cell.
#[derive(Clone, Copy, PartialEq, Eq, Structural, Debug)]
pub struct CellDisplay {
    pub value_to_display: Option<u32>,
    pub highlight: Highlight,
}

/// The score a well-formed game holds for `p` is exactly the largest
/// value among the cells `p` owns, so a claim can only raise it: some
/// owned cell carries the score, and no owned cell exceeds it.
pub proof fn lemma_score_is_max_owned_value(g: Game, p: Player)
    requires
        g.wf(),
    ensures
        exists|c: Cell|
            in_range(c, g.side()) && (#[trigger] g.board.owner_of(c)) == Some(p)
                && g.board.value_of(c) == Some(g.ledger.score_spec(p)),
        forall|c: Cell|
            in_range(c, g.side()) && (#[trigger] g.board.owner_of(c)) == Some(p)
                ==> g.board.value_of(c)->Some_0 <= g.ledger.score_spec(p),
{
}

/// The engine is terminal only when every cell is owned.
pub proof fn lemma_terminal_all_owned(g: Game)
    requires
        g.wf(),
        g.phase is Terminal,
    ensures
        forall|c: Cell| in_range(c, g.side()) ==> (#[trigger] g.board.owner_of(c)) is Some,
{
    lemma_num_unowned_zero(g.board.cells@);
    assert forall|c: Cell| in_range(c, g.side()) implies (#[trigger] g.board.owner_of(c)) is Some
    by {
        lemma_row_major_bounds(c, g.side());
    }
}

} // verus!
