//! End-to-end tests of the board engine: dealing, playing, undoing,
//! hinting, and the certificates behind every deal.

use mahjong::board::{Board, SelectionOutcome};
use mahjong::shuffle::is_clearing_sequence;
use mahjong::tile_type::{count_occurrences, counts_agree, get_tile_types, IterableEnum};
use mahjong::tiles::TileId;
use mahjong::{Position, TileType};

/// A four-slot board: two ground slots side by side, each covered by one
/// slot on the layer above.
fn small_positions() -> Vec<(u8, u8, u8)> {
    vec![(0, 0, 0), (2, 0, 0), (0, 0, 1), (2, 0, 1)]
}

fn small_pool() -> Vec<TileType> {
    vec![
        TileType::BallOne,
        TileType::BallOne,
        TileType::BallOne,
        TileType::BallOne,
    ]
}

fn standard_board(seed: u64) -> Board {
    let positions = mahjong::board::standard_positions();
    let pool = get_tile_types();
    Board::new_seeded(&positions, &pool, seed).expect("deal failed")
}

#[test]
fn scenario_four_slot_board() {
    let positions = small_positions();
    let pool = small_pool();
    let mut board = Board::new_seeded(&positions, &pool, 7).expect("deal failed");
    let (s0, s1, s2, s3) = (TileId(0), TileId(1), TileId(2), TileId(3));

    // Initial state: the covered ground slots are blocked, the top slots
    // are playable.
    assert!(!board.is_playable(s0));
    assert!(!board.is_playable(s1));
    assert!(board.is_playable(s2));
    assert!(board.is_playable(s3));

    // The pool makes every pair match.
    assert!(board.are_matching(s2, s3));

    assert_eq!(board.try_select_tile(s2), Ok(SelectionOutcome::FirstSelection));
    assert_eq!(board.try_select_tile(s3), Ok(SelectionOutcome::Matched));
    assert!(board.is_played(s2));
    assert!(board.is_played(s3));
    assert!(board.is_playable(s0));
    assert!(board.is_playable(s1));
    assert_eq!(board.history_len(), 1);

    // Undo restores the exact state from before the pair was played.
    assert!(board.undo().is_ok());
    assert!(board.is_playable(s2));
    assert!(board.is_playable(s3));
    assert!(!board.is_playable(s0));
    assert!(!board.is_playable(s1));
    assert_eq!(board.history_len(), 0);
}

#[test]
fn four_slot_board_plays_to_game_over() {
    let positions = small_positions();
    let pool = small_pool();
    let mut board = Board::new_seeded(&positions, &pool, 11).expect("deal failed");
    let (s0, s1, s2, s3) = (TileId(0), TileId(1), TileId(2), TileId(3));
    assert_eq!(board.try_select_tile(s2), Ok(SelectionOutcome::FirstSelection));
    assert_eq!(board.try_select_tile(s3), Ok(SelectionOutcome::Matched));
    assert_eq!(board.try_select_tile(s0), Ok(SelectionOutcome::FirstSelection));
    // The last pair ends the game: no move remains on an empty board.
    assert_eq!(board.try_select_tile(s1), Ok(SelectionOutcome::GameOver));
    for i in 0..4 {
        assert!(board.is_played(TileId(i)));
    }
}

#[test]
fn selecting_blocked_slot_is_invalid() {
    let positions = small_positions();
    let pool = small_pool();
    let mut board = Board::new_seeded(&positions, &pool, 3).expect("deal failed");
    // The covered ground slot cannot be selected.
    assert!(board.try_select_tile(TileId(0)).is_err());
    assert_eq!(board.history_len(), 0);
}

#[test]
fn deselecting_returns_deselected() {
    let positions = small_positions();
    let pool = small_pool();
    let mut board = Board::new_seeded(&positions, &pool, 3).expect("deal failed");
    assert_eq!(board.try_select_tile(TileId(2)), Ok(SelectionOutcome::FirstSelection));
    assert_eq!(board.try_select_tile(TileId(2)), Ok(SelectionOutcome::Deselected));
}

#[test]
fn mismatched_pair_returns_no_match() {
    // Two separate ground rows of two tiles each: all four tiles are
    // playable, and tiles of different pairs can carry different ranks.
    let positions = vec![(0, 0, 0), (2, 0, 0), (0, 4, 0), (2, 4, 0)];
    let pool = vec![
        TileType::BallOne,
        TileType::BallOne,
        TileType::DragonRed,
        TileType::DragonRed,
    ];
    let mut seen_no_match = false;
    for seed in 0..64 {
        let mut board = Board::new_seeded(&positions, &pool, seed).expect("deal failed");
        let (a, c) = (TileId(0), TileId(2));
        if board.is_playable(a) && board.is_playable(c) && board.type_of(a) != board.type_of(c) {
            assert_eq!(board.try_select_tile(a), Ok(SelectionOutcome::FirstSelection));
            assert_eq!(board.try_select_tile(c), Ok(SelectionOutcome::NoMatch));
            assert_eq!(board.history_len(), 0);
            seen_no_match = true;
            break;
        }
    }
    assert!(seen_no_match);
}

#[test]
fn undo_on_fresh_board_is_empty_history() {
    let positions = small_positions();
    let pool = small_pool();
    let mut board = Board::new_seeded(&positions, &pool, 5).expect("deal failed");
    assert!(board.undo().is_err());
}

#[test]
fn standard_deal_has_full_type_multiset() {
    let board = standard_board(42);
    assert_eq!(board.tile_count(), 144);
    let mut dealt: Vec<TileType> = Vec::new();
    for i in 0..board.tile_count() {
        dealt.push(board.type_of(TileId(i)));
    }
    for t in TileType::iter() {
        let expected = t.max_allowed() as usize;
        assert_eq!(count_occurrences(&dealt, t), expected);
    }
    assert!(counts_agree(&dealt, &get_tile_types()));
}

#[test]
fn standard_deal_solution_clears_the_board() {
    let mut board = standard_board(9000);
    let solution = board.solution().clone();
    assert_eq!(solution.len(), 72);
    // Replaying the certificate against the live tracker empties the board.
    for (k, (a, b)) in solution.iter().enumerate() {
        assert_eq!(board.try_select_tile(*a), Ok(SelectionOutcome::FirstSelection));
        let outcome = board.try_select_tile(*b).expect("certificate step refused");
        if k + 1 < solution.len() {
            assert_eq!(outcome, SelectionOutcome::Matched);
        } else {
            assert_eq!(outcome, SelectionOutcome::GameOver);
        }
    }
    for i in 0..board.tile_count() {
        assert!(board.is_played(TileId(i)));
    }
}

#[test]
fn clearing_sequence_checker_accepts_solution_and_rejects_junk() {
    let board = standard_board(77);
    let n = board.tile_count();
    let mut positions: Vec<Position> = Vec::new();
    let mut types: Vec<TileType> = Vec::new();
    for i in 0..n {
        positions.push(board.position_of(TileId(i)));
        types.push(board.type_of(TileId(i)));
    }
    let solution = board.solution();
    assert!(is_clearing_sequence(positions.clone(), types.clone(), solution));
    // An empty order clears nothing.
    assert!(!is_clearing_sequence(positions.clone(), types.clone(), &Vec::new()));
    // An order that starts with a covered tile is not legal.
    let mut bogus = solution.clone();
    bogus.swap(0, solution.len() - 1);
    assert!(!is_clearing_sequence(positions, types, &bogus));
}

#[test]
fn state_consistency_after_plays_and_undos() {
    let mut board = standard_board(1234);
    let solution = board.solution().clone();
    // Play a few pairs, undo one, and re-check every slot against the rule.
    for (a, b) in solution.iter().take(5) {
        assert!(board.try_select_tile(*a).is_ok());
        assert!(board.try_select_tile(*b).is_ok());
    }
    assert!(board.undo().is_ok());
    check_state_consistency(&board);
}

/// Re-computes, straight from the rules, whether each slot should be
/// playable, and compares with the tracker.
fn check_state_consistency(board: &Board) {
    let n = board.tile_count();
    for i in 0..n {
        let pi = board.position_of(TileId(i));
        if board.is_played(TileId(i)) {
            assert!(!board.is_playable(TileId(i)));
            continue;
        }
        let mut any_up = false;
        let mut any_left = false;
        let mut any_right = false;
        for j in 0..n {
            if i == j || board.is_played(TileId(j)) {
                continue;
            }
            let pj = board.position_of(TileId(j));
            match pi.neighbours(pj) {
                Some(mahjong::Direction::Up) => any_up = true,
                Some(mahjong::Direction::Left) => any_left = true,
                Some(mahjong::Direction::Right) => any_right = true,
                _ => {}
            }
        }
        let expected = !any_up && !(any_left && any_right);
        assert_eq!(board.is_playable(TileId(i)), expected, "slot {}", i);
    }
}

#[test]
fn undo_restores_full_state() {
    let mut board = standard_board(55);
    let n = board.tile_count();
    let solution = board.solution().clone();
    for (a, b) in solution.iter().take(3) {
        assert!(board.try_select_tile(*a).is_ok());
        assert!(board.try_select_tile(*b).is_ok());
    }
    let before: Vec<bool> = (0..n).map(|i| board.is_playable(TileId(i))).collect();
    let played_before: Vec<bool> = (0..n).map(|i| board.is_played(TileId(i))).collect();
    let history_before = board.history_len();
    let (a, b) = solution[3];
    assert!(board.try_select_tile(a).is_ok());
    assert!(board.try_select_tile(b).is_ok());
    assert!(board.undo().is_ok());
    let after: Vec<bool> = (0..n).map(|i| board.is_playable(TileId(i))).collect();
    let played_after: Vec<bool> = (0..n).map(|i| board.is_played(TileId(i))).collect();
    assert_eq!(before, after);
    assert_eq!(played_before, played_after);
    assert_eq!(board.history_len(), history_before);
}

#[test]
fn reset_deals_a_fresh_valid_board() {
    let mut board = standard_board(2024);
    let solution = board.solution().clone();
    for (a, b) in solution.iter().take(10) {
        assert!(board.try_select_tile(*a).is_ok());
        assert!(board.try_select_tile(*b).is_ok());
    }
    assert!(board.reset().is_ok());
    assert_eq!(board.history_len(), 0);
    for i in 0..board.tile_count() {
        assert!(!board.is_played(TileId(i)));
    }
    // The fresh deal again draws the full pool ...
    let mut dealt: Vec<TileType> = Vec::new();
    for i in 0..board.tile_count() {
        dealt.push(board.type_of(TileId(i)));
    }
    assert!(counts_agree(&dealt, &get_tile_types()));
    // ... satisfies the playability rule ...
    check_state_consistency(&board);
    // ... and is again certified solvable.
    let mut positions: Vec<Position> = Vec::new();
    for i in 0..board.tile_count() {
        positions.push(board.position_of(TileId(i)));
    }
    assert!(is_clearing_sequence(positions, dealt, board.solution()));
}

#[test]
fn hints_group_matching_playable_tiles() {
    let board = standard_board(31415);
    let sets = board.hint().expect("fresh standard board has moves");
    assert!(!sets.is_empty());
    for set in &sets {
        assert!(set.tiles.len() >= 2);
        assert!(set.tiles.len() <= 4);
        for w in set.tiles.windows(2) {
            assert!(w[0].0 < w[1].0);
        }
        for a in &set.tiles {
            assert!(board.is_playable(*a));
            for b in &set.tiles {
                assert!(board.type_of(*a).matches(&board.type_of(*b)));
            }
        }
    }
    // Distinct groups never match each other.
    for (k1, s1) in sets.iter().enumerate() {
        for s2 in sets.iter().skip(k1 + 1) {
            assert!(!board.type_of(s1.tiles[0]).matches(&board.type_of(s2.tiles[0])));
        }
    }
    // Every playable tile with a playable partner belongs to some family.
    let n = board.tile_count();
    for i in 0..n {
        if !board.is_playable(TileId(i)) {
            continue;
        }
        let has_partner = (0..n).any(|j| {
            j != i && board.is_playable(TileId(j)) && board.are_matching(TileId(i), TileId(j))
        });
        if has_partner {
            assert!(sets
                .iter()
                .any(|s| board.are_matching(s.tiles[0], TileId(i))));
        }
    }
}

#[test]
fn hint_on_cleared_board_reports_no_match() {
    let positions = small_positions();
    let pool = small_pool();
    let mut board = Board::new_seeded(&positions, &pool, 8).expect("deal failed");
    assert!(board.hint().is_ok());
    assert_eq!(board.try_select_tile(TileId(2)), Ok(SelectionOutcome::FirstSelection));
    assert_eq!(board.try_select_tile(TileId(3)), Ok(SelectionOutcome::Matched));
    assert_eq!(board.try_select_tile(TileId(0)), Ok(SelectionOutcome::FirstSelection));
    assert_eq!(board.try_select_tile(TileId(1)), Ok(SelectionOutcome::GameOver));
    assert!(board.hint().is_err());
}

#[test]
fn playable_tiles_lists_exactly_the_playable_slots() {
    let board = standard_board(606);
    let playable = board.playable_tiles();
    let mut expected: Vec<usize> = Vec::new();
    for i in 0..board.tile_count() {
        if board.is_playable(TileId(i)) {
            expected.push(i);
        }
    }
    let got: Vec<usize> = playable.tiles.iter().map(|t| t.0).collect();
    assert_eq!(got, expected);
}

#[test]
fn seeded_deals_are_reproducible() {
    let a = standard_board(99);
    let b = standard_board(99);
    for i in 0..a.tile_count() {
        assert_eq!(a.type_of(TileId(i)), b.type_of(TileId(i)));
    }
}

