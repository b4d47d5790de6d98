use battlefield::ships::Ship;
use battlefield::ships::ShipTracker;

#[test]
fn keep_track_of_ships() {
    let mut ships = ShipTracker::new(3, 2, 1);

    assert_eq!(ships.get_ships(), (3, 2, 1));
    let mut this_ship = ships.get_next_unset_ship().unwrap();
    assert_eq!(this_ship, Ship::TwoBlock);
    ships.set_ship(&this_ship);

    assert_eq!(ships.get_ships(), (2, 2, 1));
    this_ship = ships.get_next_unset_ship().unwrap();
    assert_eq!(this_ship, Ship::TwoBlock);
    ships.set_ship(&this_ship);

    assert_eq!(ships.get_ships(), (1, 2, 1));
    this_ship = ships.get_next_unset_ship().unwrap();
    assert_eq!(this_ship, Ship::TwoBlock);
    ships.set_ship(&this_ship);

    assert_eq!(ships.get_ships(), (0, 2, 1));
    this_ship = ships.get_next_unset_ship().unwrap();
    assert_eq!(this_ship, Ship::ThreeBlock);
    ships.set_ship(&this_ship);

    assert_eq!(ships.get_ships(), (0, 1, 1));
    this_ship = ships.get_next_unset_ship().unwrap();
    assert_eq!(this_ship, Ship::ThreeBlock);
    ships.set_ship(&this_ship);

    assert_eq!(ships.get_ships(), (0, 0, 1));
    this_ship = ships.get_next_unset_ship().unwrap();
    assert_eq!(this_ship, Ship::FourBlock);
    ships.set_ship(&this_ship);

    assert_eq!(ships.get_ships(), (0, 0, 0));
    assert!(ships.get_next_unset_ship().is_none())
}

#[test]
fn tracker_counts_give_sizes() {
    let ships = ShipTracker::new(1, 0, 0);
    assert_eq!(
        battlefield::config::get_entitie_size(&ships.get_next_unset_ship().unwrap()),
        2
    );
    let ships = ShipTracker::new(0, 1, 0);
    assert_eq!(
        battlefield::config::get_entitie_size(&ships.get_next_unset_ship().unwrap()),
        3
    );
    let ships = ShipTracker::new(0, 0, 1);
    assert_eq!(
        battlefield::config::get_entitie_size(&ships.get_next_unset_ship().unwrap()),
        4
    );
}
