use rtlib::coord_2d::Coord2D;
use rtlib::tuple_kind::TupleKind;

#[test]
fn coord_index_round_trip() {
    let dim = Coord2D::new(23, 42);
    let c = Coord2D::new(5, 7);
    assert_eq!(c.to_index(&dim), 5 + 23 * 7);
    assert_eq!(Coord2D::new_from_index(c.to_index(&dim), &dim), c);
    assert_eq!(Coord2D::new_from_index(0, &dim), Coord2D::new(0, 0));
    assert_eq!(Coord2D::new_from_index(23, &dim), Coord2D::new(0, 1));
    assert_eq!(Coord2D::new_from_index(22, &dim), Coord2D::new(22, 0));
    let c = Coord2D::new(3, 4);
    assert_eq!((c.x, c.y), (3, 4));
}

#[test]
fn tuple_kinds() {
    assert_eq!(TupleKind::classify(true, false), TupleKind::Point);
    assert_eq!(TupleKind::classify(false, true), TupleKind::Vector);
    assert_eq!(TupleKind::classify(false, false), TupleKind::Neither);
    assert_eq!(TupleKind::classify(true, true), TupleKind::Point);
    assert_eq!(TupleKind::Point.name(), "Point");
    assert_eq!(TupleKind::Vector.name(), "Vector");
    assert_eq!(TupleKind::Neither.name(), "Tuple");
    assert!(TupleKind::Neither.shows_w());
    assert!(!TupleKind::Point.shows_w());
    assert!(!TupleKind::Vector.shows_w());
}
