use life_sim::config::Config;
use life_sim::coords::{coords_to_index, index_to_coords, index_to_coords_with_grid_width};

#[test]
fn index_to_coords_works() {
    let (x, y) = index_to_coords_with_grid_width(9, 4);
    assert_eq!(x, 1);
    assert_eq!(y, 2);
}

#[test]
fn coords_to_index_is_row_major() {
    let cfg = Config::new(4, 3, 255, 1).unwrap();
    assert_eq!(coords_to_index(&cfg, 0, 0), 0);
    assert_eq!(coords_to_index(&cfg, 3, 0), 3);
    assert_eq!(coords_to_index(&cfg, 1, 2), 9);
    assert_eq!(coords_to_index(&cfg, 3, 2), 11);
}

#[test]
fn index_and_coords_round_trip() {
    let cfg = Config::new(5, 7, 255, 1).unwrap();
    for i in 0..35 {
        let (x, y) = index_to_coords(&cfg, i);
        assert!(x < 5 && y < 7);
        assert_eq!(coords_to_index(&cfg, x, y), i);
    }
    for y in 0..7 {
        for x in 0..5 {
            assert_eq!(index_to_coords(&cfg, coords_to_index(&cfg, x, y)), (x, y));
        }
    }
}
