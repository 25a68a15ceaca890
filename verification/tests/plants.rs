use darwin::coordinate::Coordinate;
use darwin::plant::Plant;

#[test]
fn a_new_plant_holds_nothing() {
    let p = Plant::new();
    assert_eq!(p.get_amount(), 0);
}

#[test]
fn increase_adds_one_unit() {
    let mut p = Plant::new();
    p.increase();
    assert_eq!(p.get_amount(), 1);
    p.increase();
    p.increase();
    assert_eq!(p.get_amount(), 3);
}

#[test]
fn decrease_takes_one_unit() {
    let mut p = Plant::new();
    p.increase();
    p.increase();
    p.decrease();
    assert_eq!(p.get_amount(), 1);
    p.decrease();
    assert_eq!(p.get_amount(), 0);
}

#[test]
fn decrease_on_an_empty_plant_leaves_it_empty() {
    let mut p = Plant::new();
    p.decrease();
    assert_eq!(p.get_amount(), 0);
    p.decrease();
    p.decrease();
    assert_eq!(p.get_amount(), 0);
    p.increase();
    assert_eq!(p.get_amount(), 1);
}

#[test]
fn a_coordinate_keeps_its_parts() {
    let c = Coordinate::new(3, 7);
    assert_eq!(c.get_x(), 3);
    assert_eq!(c.get_y(), 7);
    let far = Coordinate::new(u32::MAX, 0);
    assert_eq!(far.get_x(), u32::MAX);
    assert_eq!(far.get_y(), 0);
}

#[test]
fn coordinates_compare_by_their_parts() {
    assert_eq!(Coordinate::new(1, 2), Coordinate::new(1, 2));
    assert_ne!(Coordinate::new(1, 2), Coordinate::new(2, 1));
    assert_ne!(Coordinate::new(1, 2), Coordinate::new(1, 3));
}
