use minesweeper::state::neighbors;
use minesweeper::state::GameState;
use minesweeper::state::Outcome;

#[test]
fn create_places_fifty_bombs_on_large_board() {
    let g = GameState::new(20, 20);
    assert_eq!(g.num_bombs(), 50);
    assert_eq!(g.outcome, Outcome::InProgress);
    assert_eq!(g.visible_bomb, None);
    assert_eq!(g.num_revealed(), 0);
    let mut count = 0;
    for x in 0..20usize {
        for y in 0..20usize {
            if g.is_bomb((x, y)) {
                count += 1;
            }
        }
    }
    assert_eq!(count, 50);
}

#[test]
fn create_caps_bombs_on_small_board() {
    let g = GameState::new(3, 3);
    assert_eq!(g.num_bombs(), 9);
    for x in 0..3usize {
        for y in 0..3usize {
            assert!(g.is_bomb((x, y)));
        }
    }
}

#[test]
fn bomb_click_loses_without_revealing() {
    let mut g = GameState::with_bombs(3, 3, vec![(1, 1)]);
    g.click((0, 0));
    assert_eq!(g.num_revealed(), 1);
    assert_eq!(g.outcome, Outcome::InProgress);
    g.click((1, 1));
    assert_eq!(g.outcome, Outcome::Lose);
    assert_eq!(g.visible_bomb, Some((1, 1)));
    assert_eq!(g.num_revealed(), 1);
    assert!(g.is_revealed((0, 0)));
    assert!(!g.is_revealed((1, 1)));
}

#[test]
fn flood_fill_reveals_region_and_wins() {
    let mut g = GameState::with_bombs(3, 3, vec![(2, 2)]);
    g.click((0, 0));
    assert_eq!(g.num_revealed(), 8);
    assert_eq!(g.outcome, Outcome::Win);
    for x in 0..3usize {
        for y in 0..3usize {
            if (x, y) == (2, 2) {
                assert!(!g.is_revealed((x, y)));
            } else {
                assert!(g.is_revealed((x, y)));
            }
        }
    }
    assert_eq!(g.neighbor_count((1, 1)), 1);
    assert_eq!(g.neighbor_count((1, 2)), 1);
    assert_eq!(g.neighbor_count((2, 1)), 1);
    assert_eq!(g.neighbor_count((0, 0)), 0);
    assert_eq!(g.neighbor_count((0, 1)), 0);
    assert_eq!(g.neighbor_count((0, 2)), 0);
    assert_eq!(g.neighbor_count((1, 0)), 0);
    assert_eq!(g.neighbor_count((2, 0)), 0);
}

#[test]
fn repeat_click_is_idempotent() {
    let mut g = GameState::with_bombs(3, 3, vec![(1, 0), (1, 1), (1, 2)]);
    g.click((0, 1));
    assert_eq!(g.num_revealed(), 1);
    assert_eq!(g.neighbor_count((0, 1)), 3);
    g.click((0, 1));
    assert_eq!(g.num_revealed(), 1);
    assert_eq!(g.neighbor_count((0, 1)), 3);
    assert_eq!(g.outcome, Outcome::InProgress);
}

#[test]
fn identical_boards_reveal_identically() {
    let mut a = GameState::with_bombs(4, 4, vec![(3, 3)]);
    let mut b = GameState::with_bombs(4, 4, vec![(3, 3)]);
    a.click((0, 0));
    b.click((0, 0));
    for x in 0..4usize {
        for y in 0..4usize {
            assert_eq!(a.is_revealed((x, y)), b.is_revealed((x, y)));
            if a.is_revealed((x, y)) {
                assert_eq!(a.neighbor_count((x, y)), b.neighbor_count((x, y)));
            }
        }
    }
    assert_eq!(a.outcome, b.outcome);
}

#[test]
fn win_on_last_nonbomb_cell() {
    let mut g = GameState::with_bombs(3, 3, vec![(1, 0), (1, 1), (1, 2)]);
    for &c in [(0, 0), (0, 1), (0, 2), (2, 0), (2, 1)].iter() {
        g.click(c);
        assert_eq!(g.outcome, Outcome::InProgress);
    }
    g.click((2, 2));
    assert_eq!(g.outcome, Outcome::Win);
    assert_eq!(g.num_revealed(), 6);
}

#[test]
fn neighbor_counts_are_exact() {
    let mut g = GameState::with_bombs(3, 3, vec![(0, 0), (2, 2)]);
    g.click((1, 1));
    assert_eq!(g.neighbor_count((1, 1)), 2);
    g.click((2, 0));
    assert_eq!(g.neighbor_count((2, 0)), 0);
    assert_eq!(g.neighbor_count((1, 0)), 1);
    assert_eq!(g.neighbor_count((2, 1)), 1);
}

#[test]
fn reset_after_lose_starts_fresh() {
    let mut g = GameState::with_bombs(3, 3, vec![(1, 1)]);
    g.click((0, 0));
    g.click((1, 1));
    assert_eq!(g.outcome, Outcome::Lose);
    g.reset();
    assert_eq!(g.outcome, Outcome::InProgress);
    assert_eq!(g.visible_bomb, None);
    assert_eq!(g.num_revealed(), 0);
    assert!(!g.is_revealed((0, 0)));
    assert_eq!(g.num_bombs(), 9);
    assert_eq!(g.height, 3);
    assert_eq!(g.width, 3);
}

#[test]
fn neighbors_of_corner_edge_center() {
    let g = GameState::with_bombs(3, 3, vec![(2, 2)]);
    let mut corner = neighbors(&g, (0, 0));
    corner.sort();
    assert_eq!(corner, vec![(0, 1), (1, 0), (1, 1)]);
    let mut edge = neighbors(&g, (1, 0));
    edge.sort();
    assert_eq!(edge, vec![(0, 0), (0, 1), (1, 1), (2, 0), (2, 1)]);
    let mut center = neighbors(&g, (1, 1));
    center.sort();
    assert_eq!(
        center,
        vec![(0, 0), (0, 1), (0, 2), (1, 0), (1, 2), (2, 0), (2, 1), (2, 2)]
    );
}

#[test]
fn mark_is_a_noop() {
    let mut g = GameState::with_bombs(3, 3, vec![(2, 2)]);
    g.mark((0, 0));
    assert_eq!(g.outcome, Outcome::InProgress);
    assert_eq!(g.num_revealed(), 0);
    assert!(!g.is_revealed((0, 0)));
    assert_eq!(g.visible_bomb, None);
}
