use battlefield::Cell;
use battlefield::Rotation;
use battlefield::ai::Attack;
use battlefield::ai::Mode;
use battlefield::ai::set_ships;
use battlefield::config::Board;
use battlefield::config::TOTAL_SHIP_CELLS;
use battlefield::game::HitType;
use battlefield::game::get_hit_type;
use battlefield::movement::place_entity;
use battlefield::ships::Ship;
use battlefield::ships::ShipTracker;

fn is_ship(cell: Cell) -> bool {
    matches!(
        cell,
        Cell::Ship | Cell::ShipTwo(..) | Cell::ShipThree(..) | Cell::ShipFour(..)
    )
}

#[test]
fn set_ships_places_the_whole_fleet() {
    let board = set_ships(Board::new()).expect("the fleet must fit the configured board");
    let mut ship_cells = 0;
    for y in 0..10 {
        for x in 0..10 {
            let cell = board.get_cell(x, y);
            if is_ship(cell) {
                ship_cells += 1;
            } else {
                assert_eq!(cell, Cell::Empty);
            }
        }
    }
    assert_eq!(ship_cells, TOTAL_SHIP_CELLS);
}

#[test]
fn set_ships_placements_differ_between_games() {
    // Two random fleets agreeing on all hundred cells is as good as
    // impossible; three in a row would mean the generator is not random.
    let a = set_ships(Board::new()).unwrap();
    let b = set_ships(Board::new()).unwrap();
    let c = set_ships(Board::new()).unwrap();
    assert!(a != b || b != c);
}

#[test]
fn targeting_never_repeats_a_coordinate() {
    let mut attack = Attack::new();
    let mut seen = [[false; 10]; 10];
    for _ in 0..100 {
        assert!(attack.shot_count() < 100);
        let (x, y) = attack.shoot();
        assert!(x < 10 && y < 10);
        assert!(!seen[y][x], "coordinate returned twice");
        seen[y][x] = true;
    }
    assert_eq!(attack.shot_count(), 100);
    for row in seen.iter() {
        for &cell in row.iter() {
            assert!(cell, "full board coverage without repeats");
        }
    }
}

#[test]
fn hunt_target_hunt_cycle_on_a_two_block_ship() {
    let mut attack = Attack::new();
    assert_eq!(attack.get_mode(), Mode::Hunt);

    // The hunt shot lands somewhere random; seat a two-block ship so that
    // the shot hits it and the ship's other half lies on the engine's
    // first-priority neighbor (up when possible, down from the top row).
    let (x, y) = attack.shoot();
    let (other_y, anchor_y) = if y > 0 { (y - 1, y - 1) } else { (y + 1, y) };
    let mut board = place_entity(Board::new(), x, anchor_y, 2, &Rotation::Vertical, Cell::Ship);

    let first = get_hit_type(&board, &board, x, y);
    assert_eq!(first, HitType::Hit);
    board = place_entity(board, x, y, 1, &Rotation::Horizontal, Cell::Damage);
    attack.record_result(x, y, first);
    assert_eq!(attack.get_mode(), Mode::Target);

    let (x2, y2) = attack.shoot_after_hit();
    assert_eq!((x2, y2), (x, other_y));
    let second = get_hit_type(&board, &board, x2, y2);
    assert_eq!(second, HitType::HitNSunk);
    board = place_entity(board, x2, y2, 1, &Rotation::Horizontal, Cell::Damage);
    attack.record_result(x2, y2, second);
    assert_eq!(attack.get_mode(), Mode::Hunt);
    assert!(board.get_cell(x, y) == Cell::Damage && board.get_cell(x2, y2) == Cell::Damage);
}

#[test]
fn placing_the_full_fleet_empties_the_tracker() {
    let mut tracker = ShipTracker::new(3, 2, 1);
    let mut board = Board::new();
    let mut rotation = Rotation::Horizontal;
    while let Some(kind) = tracker.get_next_unset_ship() {
        let size = battlefield::config::get_entitie_size(&kind);
        let (x, y) = battlefield::movement::get_next_available_coordinates(
            &board, size, &rotation,
        );
        assert!(battlefield::movement::is_free_space(
            &board, x as isize, y as isize, size, &rotation
        ));
        board = place_entity(board, x, y, size, &rotation, Cell::Ship);
        tracker.set_ship(&kind);
        rotation = match rotation {
            Rotation::Horizontal => Rotation::Vertical,
            Rotation::Vertical => Rotation::Horizontal,
        };
    }
    assert_eq!(tracker.get_ships(), (0, 0, 0));
    assert!(tracker.get_next_unset_ship().is_none());
    let mut ship_cells = 0;
    for y in 0..10 {
        for x in 0..10 {
            if is_ship(board.get_cell(x, y)) {
                ship_cells += 1;
            }
        }
    }
    assert_eq!(ship_cells, TOTAL_SHIP_CELLS);
}

#[test]
fn a_miss_while_targeting_keeps_the_chain_for_the_next_turn() {
    let mut attack = Attack::new();
    let (x, y) = attack.shoot();
    attack.record_result(x, y, HitType::Hit);
    assert_eq!(attack.get_mode(), Mode::Target);

    // Try one neighbor and miss: the remaining neighbors stay queued, so the
    // engine keeps targeting rather than fall back to hunting.
    let (x2, y2) = attack.shoot_after_hit();
    let adjacent = (x2 == x && (y2 + 1 == y || y2 == y + 1))
        || (y2 == y && (x2 + 1 == x || x2 == x + 1));
    assert!(adjacent, "target-mode shot must neighbor the anchor hit");
    attack.record_result(x2, y2, HitType::Miss);
    assert_eq!(attack.get_mode(), Mode::Target);
}

#[test]
fn a_sunk_ship_always_returns_the_engine_to_hunting() {
    let mut attack = Attack::new();
    let (x, y) = attack.shoot();
    attack.record_result(x, y, HitType::HitNSunk);
    assert_eq!(attack.get_mode(), Mode::Hunt);
}

#[test]
fn a_second_hit_narrows_targeting_to_the_ship_axis() {
    let mut attack = Attack::new();
    let (x, y) = attack.shoot();
    attack.record_result(x, y, HitType::Hit);

    let (x2, y2) = attack.shoot_after_hit();
    attack.record_result(x2, y2, HitType::Hit);
    assert_eq!(attack.get_mode(), Mode::Target);

    // Every further shot of the chain continues the established line: it
    // lands one past either end of the two hit cells.
    let (x3, y3) = attack.shoot_after_hit();
    if x == x2 {
        let lo = y.min(y2);
        let hi = y.max(y2);
        assert_eq!(x3, x);
        assert!(y3 + 1 == lo || y3 == hi + 1);
    } else {
        let lo = x.min(x2);
        let hi = x.max(x2);
        assert_eq!(y3, y);
        assert!(x3 + 1 == lo || x3 == hi + 1);
    }
}
