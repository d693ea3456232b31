//! End-to-end tests of the territory engine: topology, board claims,
//! scores, the turn state machine and termination.

use territory::board::{Board, InvariantViolation};
use territory::engine::{
    init_cell_data, largest_owned_neighbor_value, CellDisplay, Game, Highlight, Phase,
};
use territory::grid::{Cell, Grid};
use territory::player::{Ledger, Player};

fn cell(row: usize, col: usize) -> Cell {
    Cell { row, col }
}

fn holds(v: &Vec<Cell>, c: Cell) -> bool {
    v.iter().any(|x| *x == c)
}

#[test]
fn adjacency_symmetry_concrete() {
    let g = Grid::build(6);
    let pairs = [
        (cell(0, 0), cell(1, 1)),
        (cell(0, 0), cell(0, 1)),
        (cell(2, 3), cell(3, 4)),
        (cell(5, 5), cell(4, 5)),
        (cell(0, 0), cell(2, 2)),
        (cell(1, 4), cell(3, 4)),
    ];
    for (a, b) in pairs {
        let a_to_b = holds(g.neighbors(a), b);
        let b_to_a = holds(g.neighbors(b), a);
        assert_eq!(a_to_b, b_to_a);
    }
}

#[test]
fn neighbor_counts() {
    let g = Grid::build(6);
    assert_eq!(g.neighbors(cell(0, 0)).len(), 3);
    assert_eq!(g.neighbors(cell(5, 5)).len(), 3);
    assert_eq!(g.neighbors(cell(0, 5)).len(), 3);
    assert_eq!(g.neighbors(cell(0, 3)).len(), 5);
    assert_eq!(g.neighbors(cell(3, 0)).len(), 5);
    assert_eq!(g.neighbors(cell(5, 2)).len(), 5);
    assert_eq!(g.neighbors(cell(2, 4)).len(), 8);
    assert_eq!(g.neighbors(cell(1, 1)).len(), 8);
}

#[test]
fn neighbors_of_corner() {
    let g = Grid::build(6);
    let ns = g.neighbors(cell(0, 0));
    assert!(holds(ns, cell(0, 1)));
    assert!(holds(ns, cell(1, 0)));
    assert!(holds(ns, cell(1, 1)));
    assert!(!holds(ns, cell(0, 0)));
    assert!(!holds(ns, cell(2, 2)));
}

#[test]
fn claim_permanence() {
    let mut b = Board::new(2);
    assert_eq!(b.claim(cell(0, 0), Player::One, 4), Ok(()));
    assert_eq!(b.value(cell(0, 0)), Some(4));
    assert_eq!(b.owner(cell(0, 0)), Some(Player::One));
    // a repeated claim fails and changes nothing
    assert_eq!(
        b.claim(cell(0, 0), Player::Two, 9),
        Err(InvariantViolation::AlreadyOwned)
    );
    assert_eq!(b.value(cell(0, 0)), Some(4));
    assert_eq!(b.owner(cell(0, 0)), Some(Player::One));
    // a claim elsewhere leaves the cell untouched
    assert_eq!(b.claim(cell(1, 1), Player::Two, 1), Ok(()));
    assert_eq!(b.value(cell(0, 0)), Some(4));
    assert_eq!(b.owner(cell(0, 0)), Some(Player::One));
}

#[test]
fn score_updates_are_monotonic() {
    let mut l = Ledger::new(3);
    l.update_score(Player::One, 5);
    assert_eq!(l.score(Player::One), 5);
    assert_eq!(l.score(Player::Two), 3);
    // an update with a lower value is idempotent
    l.update_score(Player::One, 2);
    assert_eq!(l.score(Player::One), 5);
    l.update_score(Player::One, 5);
    assert_eq!(l.score(Player::One), 5);
    l.update_score(Player::Two, 4);
    assert_eq!(l.score(Player::Two), 4);
}

#[test]
fn winner_tie_goes_to_player_one() {
    let l = Ledger { one: 5, two: 5 };
    assert_eq!(l.winner(), Player::One);
    let l2 = Ledger { one: 3, two: 7 };
    assert_eq!(l2.winner(), Player::Two);
    let l3 = Ledger { one: 7, two: 3 };
    assert_eq!(l3.winner(), Player::One);
}

#[test]
fn initial_diagonal_seeding() {
    let g = Game::new(6);
    assert_eq!(g.board.owner(cell(0, 0)), Some(Player::One));
    assert_eq!(g.board.value(cell(0, 0)), Some(1));
    assert_eq!(g.board.owner(cell(1, 1)), Some(Player::One));
    assert_eq!(g.board.value(cell(1, 1)), Some(2));
    assert_eq!(g.board.owner(cell(2, 2)), Some(Player::One));
    assert_eq!(g.board.value(cell(2, 2)), Some(3));
    assert_eq!(g.board.owner(cell(3, 3)), Some(Player::Two));
    assert_eq!(g.board.value(cell(3, 3)), Some(3));
    assert_eq!(g.board.owner(cell(4, 4)), Some(Player::Two));
    assert_eq!(g.board.value(cell(4, 4)), Some(2));
    assert_eq!(g.board.owner(cell(5, 5)), Some(Player::Two));
    assert_eq!(g.board.value(cell(5, 5)), Some(1));
    assert_eq!(g.score(Player::One), 3);
    assert_eq!(g.score(Player::Two), 3);
    assert_eq!(g.board.owner(cell(0, 1)), None);
    assert_eq!(g.board.value(cell(0, 1)), None);
    assert_eq!(g.phase(), Phase::Unselected);
}

#[test]
fn init_cell_data_values() {
    assert_eq!(init_cell_data(0, 0, 6), (Some(1), Some(Player::One)));
    assert_eq!(init_cell_data(2, 2, 6), (Some(3), Some(Player::One)));
    assert_eq!(init_cell_data(3, 3, 6), (Some(3), Some(Player::Two)));
    assert_eq!(init_cell_data(5, 5, 6), (Some(1), Some(Player::Two)));
    assert_eq!(init_cell_data(0, 1, 6), (None, None));
}

#[test]
fn eligibility_and_commit_for_player_one() {
    let mut g = Game::new(6);
    g.current = Player::One;
    // (0,1) neighbours (0,0)=1 and (1,1)=2, both player one's
    assert_eq!(
        largest_owned_neighbor_value(&g.grid, &g.board, cell(0, 1), Player::One),
        Some(2)
    );
    assert_eq!(g.candidate_value(cell(0, 1)), Some(3));
    assert!(g.confirm_selection(cell(0, 1)));
    assert_eq!(g.phase(), Phase::Committed);
    g.commit_selection();
    assert_eq!(g.board.value(cell(0, 1)), Some(3));
    assert_eq!(g.board.owner(cell(0, 1)), Some(Player::One));
    assert_eq!(g.score(Player::One), 3);
    assert_eq!(g.phase(), Phase::TurnEnd);
}

#[test]
fn ineligible_selection_is_ignored() {
    let mut g = Game::new(6);
    // player two acts first; (0,1) has no neighbour owned by player two
    assert_eq!(g.current_player(), Player::Two);
    assert_eq!(g.candidate_value(cell(0, 1)), None);
    assert!(!g.confirm_selection(cell(0, 1)));
    assert_eq!(g.phase(), Phase::Unselected);
    assert_eq!(g.board.owner(cell(0, 1)), None);
    assert_eq!(g.board.value(cell(0, 1)), None);
    assert_eq!(g.score(Player::One), 3);
    assert_eq!(g.score(Player::Two), 3);
}

#[test]
fn no_owned_neighbor_means_no_commit() {
    let g = Game::new(6);
    // (5,0) touches no owned cell at all
    assert_eq!(
        largest_owned_neighbor_value(&g.grid, &g.board, cell(5, 0), Player::One),
        None
    );
    assert_eq!(
        largest_owned_neighbor_value(&g.grid, &g.board, cell(5, 0), Player::Two),
        None
    );
    assert_eq!(g.candidate_value(cell(5, 0)), None);
}

#[test]
fn selection_on_owned_cell_is_ignored() {
    let mut g = Game::new(6);
    assert!(!g.confirm_selection(cell(3, 3)));
    assert_eq!(g.phase(), Phase::Unselected);
}

#[test]
fn selection_out_of_range_is_ignored() {
    let mut g = Game::new(6);
    assert!(!g.confirm_selection(cell(6, 0)));
    assert!(!g.confirm_selection(cell(0, 17)));
    assert_eq!(g.phase(), Phase::Unselected);
}

#[test]
fn full_game_to_termination() {
    let mut g = Game::new(2);
    assert_eq!(g.score(Player::One), 1);
    assert_eq!(g.score(Player::Two), 1);
    assert_eq!(g.current_player(), Player::Two);
    // player two claims (0,1), next to its own (1,1)=1
    assert_eq!(g.candidate_value(cell(0, 1)), Some(2));
    assert!(g.confirm_selection(cell(0, 1)));
    g.commit_selection();
    assert_eq!(g.board.value(cell(0, 1)), Some(2));
    assert_eq!(g.score(Player::Two), 2);
    assert_eq!(g.game_over(), None);
    g.turn_end();
    // unowned cells remain and player one can move: the turn passes
    assert_eq!(g.phase(), Phase::Unselected);
    assert_eq!(g.current_player(), Player::One);
    // player one claims the last cell (1,0), next to its own (0,0)=1
    assert!(g.confirm_selection(cell(1, 0)));
    g.commit_selection();
    assert_eq!(g.board.value(cell(1, 0)), Some(2));
    assert_eq!(g.score(Player::One), 2);
    g.turn_end();
    // every cell is owned: terminal, and the tie goes to player one
    assert_eq!(g.phase(), Phase::Terminal);
    let over = g.game_over().expect("game must be over");
    assert_eq!(over.winner, Player::One);
    assert_eq!(over.score, 2);
}

#[test]
fn score_tracks_largest_claimed_value() {
    let mut g = Game::new(6);
    g.current = Player::One;
    // claiming (0,1) writes 3 and leaves the score at 3
    assert!(g.confirm_selection(cell(0, 1)));
    g.commit_selection();
    assert_eq!(g.score(Player::One), 3);
    g.turn_end();
    // (1,2) now touches (1,1)=2, (2,2)=3 and (0,1)=3: it writes 4
    g.current = Player::One;
    assert!(g.confirm_selection(cell(1, 2)));
    g.commit_selection();
    assert_eq!(g.board.value(cell(1, 2)), Some(4));
    assert_eq!(g.score(Player::One), 4);
    assert_eq!(g.score(Player::Two), 3);
}

#[test]
fn stuck_next_player_is_skipped() {
    // player two owns nothing, so it has no move; player one keeps the
    // turn while unowned cells remain
    let mut board = Board::new(2);
    assert_eq!(board.claim(cell(0, 0), Player::One, 1), Ok(()));
    let mut g = Game {
        grid: Grid::build(2),
        board,
        ledger: Ledger { one: 1, two: 0 },
        current: Player::One,
        phase: Phase::TurnEnd,
        pending: None,
    };
    assert!(!g.player_has_moves(Player::Two));
    assert!(g.player_has_moves(Player::One));
    g.turn_end();
    assert_eq!(g.phase(), Phase::Unselected);
    assert_eq!(g.current_player(), Player::One);
}

#[test]
fn cell_enumerations() {
    let g = Game::new(2);
    let unowned = g.board.unowned_cells();
    assert_eq!(unowned.len(), 2);
    assert!(holds(&unowned, cell(0, 1)));
    assert!(holds(&unowned, cell(1, 0)));
    let one_cells = g.board.owned_cells_of(Player::One);
    assert_eq!(one_cells.len(), 1);
    assert!(holds(&one_cells, cell(0, 0)));
    let two_cells = g.board.owned_cells_of(Player::Two);
    assert_eq!(two_cells.len(), 1);
    assert!(holds(&two_cells, cell(1, 1)));
}

#[test]
fn cell_display_states() {
    let g = Game::new(6);
    // an owned cell shows its value and its owner
    assert_eq!(
        g.cell_display(cell(0, 0)),
        CellDisplay {
            value_to_display: Some(1),
            highlight: Highlight::OwnedBy(Player::One),
        }
    );
    // (2,4) touches (3,3)=3 of the acting player two: eligible, pending 4
    assert_eq!(
        g.cell_display(cell(2, 4)),
        CellDisplay {
            value_to_display: Some(4),
            highlight: Highlight::EligiblePending(4),
        }
    );
    // (0,1) touches nothing of player two: plain unowned
    assert_eq!(
        g.cell_display(cell(0, 1)),
        CellDisplay {
            value_to_display: None,
            highlight: Highlight::Unowned,
        }
    );
}
