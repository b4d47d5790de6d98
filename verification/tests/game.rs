use battlefield::Cell;
use battlefield::Rotation;
use battlefield::config::Board;
use battlefield::config::TOTAL_SHIP_CELLS;
use battlefield::game::HitType;
use battlefield::game::get_hit_type;
use battlefield::game::get_score;
use battlefield::game::is_fleet_sunk;
use battlefield::movement::place_entity;

#[test]
fn shot_into_open_water_is_a_miss() {
    let visible = Board::new();
    let secret = Board::new();
    assert_eq!(get_hit_type(&visible, &secret, 4, 7), HitType::Miss);
}

#[test]
fn first_hit_on_a_two_block_ship_is_a_hit() {
    let visible = Board::new();
    let secret = place_entity(Board::new(), 0, 0, 2, &Rotation::Horizontal, Cell::Ship);
    assert_eq!(get_hit_type(&visible, &secret, 0, 0), HitType::Hit);
    assert_eq!(get_hit_type(&visible, &secret, 1, 0), HitType::Hit);
}

#[test]
fn last_hit_on_a_two_block_ship_sinks_it() {
    let mut visible = Board::new();
    visible.set_cell(1, 0, Cell::Damage);
    let secret = place_entity(Board::new(), 0, 0, 2, &Rotation::Horizontal, Cell::Ship);
    assert_eq!(get_hit_type(&visible, &secret, 0, 0), HitType::HitNSunk);
}

#[test]
fn four_block_ship_sinks_only_with_the_fourth_hit() {
    let secret = place_entity(Board::new(), 2, 3, 4, &Rotation::Vertical, Cell::Ship);
    let mut visible = Board::new();
    assert_eq!(get_hit_type(&visible, &secret, 2, 3), HitType::Hit);
    visible.set_cell(2, 3, Cell::Damage);
    assert_eq!(get_hit_type(&visible, &secret, 2, 4), HitType::Hit);
    visible.set_cell(2, 4, Cell::Damage);
    assert_eq!(get_hit_type(&visible, &secret, 2, 5), HitType::Hit);
    visible.set_cell(2, 5, Cell::Damage);
    assert_eq!(get_hit_type(&visible, &secret, 2, 6), HitType::HitNSunk);
}

#[test]
fn single_block_ship_sinks_at_once() {
    let mut secret = Board::new();
    secret.set_cell(8, 8, Cell::Ship);
    let visible = Board::new();
    assert_eq!(get_hit_type(&visible, &secret, 8, 8), HitType::HitNSunk);
}

#[test]
fn defender_board_serving_as_both_sides_resolves_in_place() {
    let mut board = place_entity(Board::new(), 5, 5, 2, &Rotation::Vertical, Cell::Ship);
    assert_eq!(get_hit_type(&board, &board, 5, 5), HitType::Hit);
    board = place_entity(board, 5, 5, 1, &Rotation::Horizontal, Cell::Damage);
    assert_eq!(get_hit_type(&board, &board, 5, 6), HitType::HitNSunk);
}

#[test]
fn score_counts_damage_cells() {
    let mut board = Board::new();
    assert_eq!(get_score(&board), 0);
    board.set_cell(0, 0, Cell::Damage);
    board.set_cell(9, 9, Cell::Damage);
    board.set_cell(3, 4, Cell::Damage);
    board.set_cell(5, 5, Cell::Shot);
    assert_eq!(get_score(&board), 3);
}

#[test]
fn fleet_is_sunk_once_all_its_cells_are_damage() {
    let mut board = Board::new();
    assert!(!is_fleet_sunk(&board));
    let mut placed = 0;
    'outer: for y in 0..10 {
        for x in 0..10 {
            if placed == TOTAL_SHIP_CELLS {
                break 'outer;
            }
            board.set_cell(x, y, Cell::Damage);
            placed += 1;
        }
    }
    assert_eq!(get_score(&board), TOTAL_SHIP_CELLS);
    assert!(is_fleet_sunk(&board));
}
