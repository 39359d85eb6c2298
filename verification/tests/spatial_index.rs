use replicants::simulation::CellMapper;

#[test]
fn claim_then_move_vacates_the_old_cell() {
    let mut map = CellMapper::new(None);
    let mut pos = (0, 0);
    assert!(map.add_abs(&mut pos, (3, 4), 1));
    assert_eq!(pos, (3, 4));
    assert!(map.has(3, 4));
    assert!(map.is(3, 4, 1));
    assert!(!map.isexcept(3, 4, 1));
    assert!(map.move_rel(&mut pos, (1, 0), 1));
    assert_eq!(pos, (4, 4));
    assert!(!map.has(3, 4));
    assert!(map.has(4, 4));
}

#[test]
fn move_to_a_taken_cell_changes_nothing() {
    let mut map = CellMapper::new(None);
    let mut a = (0, 0);
    let mut b = (0, 0);
    assert!(map.add_abs(&mut a, (1, 1), 0));
    assert!(map.add_abs(&mut b, (2, 1), 2));
    assert!(!map.move_abs(&mut a, (2, 1), 0));
    assert_eq!(a, (1, 1));
    assert!(map.is(1, 1, 0));
    assert!(map.is(2, 1, 2));
}

#[test]
fn move_on_a_torus_wraps_both_cells() {
    let mut map = CellMapper::new(Some((4, 4)));
    let mut pos = (0, 0);
    assert!(map.add_abs(&mut pos, (7, -1), 2));
    assert_eq!(pos, (3, 3));
    let mut far = (-1, 7);
    assert!(map.move_abs(&mut far, (4, 5), 2));
    assert_eq!(far, (0, 1));
    assert!(!map.has(3, 3));
    assert!(map.is(0, 1, 2));
    assert!(map.is(4, -3, 2));
    assert_eq!(map.holds((0, 1)), Some(2));
    assert_eq!(map.holds((4, 5)), None);
    assert!(!map.move_rel(&mut far, (4, 0), 2));
    assert_eq!(far, (0, 1));
    assert!(map.move_rel(&mut far, (-1, 0), 2));
    assert_eq!(far, (3, 1));
    map.set_clip(None);
    assert_eq!(map.clip(), None);
    assert!(map.has(3, 1));
    map.reset();
    assert!(!map.has(3, 1));
}

#[test]
fn torus_wraps_negative_coordinates() {
    let map = CellMapper::new(Some((10, 5)));
    assert_eq!(map.normalize(-1, -1), (9, 4));
    assert_eq!(map.normalize(10, 5), (0, 0));
    assert_eq!(map.normalize(-21, 12), (9, 2));
    assert_eq!(map.normalize(3, 4), (3, 4));
}
