//! Tests of the slot geometry: the neighbour rule and its symmetry, the
//! footprint relations, the blocking lists, and the screen-space helpers.

use mahjong::geometry::{Point, Rect};
use mahjong::graph::create_neighbour_list;
use mahjong::position::Neighbour;
use mahjong::tile_position::{generate_blocking_data, Blocking, TilePosition};
use mahjong::{Direction, Position};

#[test]
fn side_neighbours_are_symmetric() {
    let a = Position::new(4, 0, 0);
    let b = Position::new(6, 0, 0);
    assert_eq!(a.neighbours(b), Some(Direction::Right));
    assert_eq!(b.neighbours(a), Some(Direction::Left));
    // Rows overlapping by one still neighbour each other.
    let c = Position::new(2, 7, 0);
    let d = Position::new(4, 6, 0);
    assert_eq!(c.neighbours(d), Some(Direction::Right));
    assert_eq!(d.neighbours(c), Some(Direction::Left));
}

#[test]
fn stacked_neighbours_are_symmetric() {
    let a = Position::new(14, 8, 3);
    let b = Position::new(15, 7, 4);
    assert_eq!(a.neighbours(b), Some(Direction::Up));
    assert_eq!(b.neighbours(a), Some(Direction::Down));
}

#[test]
fn distant_slots_are_not_neighbours() {
    let a = Position::new(4, 0, 0);
    assert_eq!(a.neighbours(Position::new(8, 0, 0)), None);
    assert_eq!(a.neighbours(Position::new(4, 2, 0)), None);
    assert_eq!(a.neighbours(Position::new(4, 0, 2)), None);
    assert_eq!(a.neighbours(a), None);
}

#[test]
fn direction_rev_swaps_opposites() {
    assert_eq!(Direction::Up.rev(), Direction::Down);
    assert_eq!(Direction::Down.rev(), Direction::Up);
    assert_eq!(Direction::Left.rev(), Direction::Right);
    assert_eq!(Direction::Right.rev(), Direction::Left);
}

#[test]
fn neighbour_lists_mirror_each_other() {
    let positions = vec![
        Position::new(0, 0, 0),
        Position::new(2, 0, 0),
        Position::new(0, 0, 1),
        Position::new(2, 0, 1),
    ];
    let lists = create_neighbour_list(&positions);
    assert_eq!(lists.len(), 4);
    assert!(lists[0].contains(&Neighbour::new(1, Direction::Right)));
    assert!(lists[1].contains(&Neighbour::new(0, Direction::Left)));
    assert!(lists[0].contains(&Neighbour::new(2, Direction::Up)));
    assert!(lists[2].contains(&Neighbour::new(0, Direction::Down)));
    assert!(!lists[0].iter().any(|e| e.id == 3));
}

#[test]
fn position_to_key_packs_coordinates() {
    assert_eq!(Position::new(0, 0, 0).to_key(), 0);
    assert_eq!(Position::new(1, 2, 3).to_key(), 0x010203);
    assert_eq!(Position::new(255, 255, 255).to_key(), 0xFFFFFF);
}

#[test]
fn footprint_covers_its_four_cells() {
    let t = TilePosition::new(4, 6, 1);
    assert_eq!(t.x(), 4);
    assert_eq!(t.y(), 6);
    assert_eq!(t.z(), 1);
    assert!(t.is_on_position(&Position::new(4, 6, 1)));
    assert!(t.is_on_position(&Position::new(5, 6, 1)));
    assert!(t.is_on_position(&Position::new(4, 7, 1)));
    assert!(t.is_on_position(&Position::new(5, 7, 1)));
    assert!(!t.is_on_position(&Position::new(6, 6, 1)));
    assert!(!t.is_on_position(&Position::new(4, 6, 0)));
}

#[test]
fn footprint_relations() {
    let left = TilePosition::new(4, 0, 0);
    let right = TilePosition::new(6, 0, 0);
    let above = TilePosition::new(5, 0, 1);
    let far = TilePosition::new(10, 10, 0);
    assert!(left.is_left_of(&right));
    assert!(right.is_right_of(&left));
    assert!(!right.is_left_of(&left));
    assert!(above.is_above(&left));
    assert!(above.is_above(&right));
    assert!(left.is_under(&above));
    assert!(left.is_neighbour_of(&right));
    assert!(left.is_neighbour_of(&above));
    assert!(!left.is_neighbour_of(&far));
}

#[test]
fn blocking_data_lists_supports_and_sides() {
    let tiles = vec![
        TilePosition::new(4, 0, 0),
        TilePosition::new(6, 0, 0),
        TilePosition::new(5, 0, 1),
    ];
    let data = generate_blocking_data(&tiles);
    assert_eq!(data.len(), 3);
    assert_eq!(data[0].tile_index, 0);
    // The upper tile rests on both ground tiles.
    assert_eq!(data[2].get_blocking(Blocking::Vertically), &vec![0, 1]);
    // The ground tiles stand beside each other.
    assert_eq!(data[0].get_blocking(Blocking::Right), &vec![1]);
    assert_eq!(data[1].get_blocking(Blocking::Left), &vec![0]);
    assert!(data[0].get_blocking(Blocking::Left).is_empty());
    assert!(data[0].get_blocking(Blocking::Vertically).is_empty());
}

#[test]
fn neighbour_carries_id_and_direction() {
    let e = Neighbour::new(5, Direction::Up);
    assert_eq!(e.position(), 5);
    assert_eq!(e.direction, Direction::Up);
}

#[test]
fn play_state_defaults_to_blocked() {
    assert_eq!(mahjong::rules::PlayState::default(), mahjong::rules::PlayState::Blocked);
}

#[test]
fn rect_contains_point_borders_included() {
    let r = Rect::new(10, 20, 5, 6);
    assert_eq!(r.x(), 10);
    assert_eq!(r.y(), 20);
    assert!(r.contains_point(Point::new(10, 20)));
    assert!(r.contains_point(Point::new(15, 26)));
    assert!(r.contains_point(Point::new(12, 23)));
    assert!(!r.contains_point(Point::new(9, 23)));
    assert!(!r.contains_point(Point::new(16, 23)));
    assert!(!r.contains_point(Point::new(12, 27)));
}
