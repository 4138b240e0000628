use wasm_game_of_life::cells::Cell;
use wasm_game_of_life::rules::hades;

#[test]
fn test_hades() {
    assert_eq!(hades(Cell::Alive, 1), Cell::Dead);
    assert_eq!(hades(Cell::Alive, 2), Cell::Alive);
    assert_eq!(hades(Cell::Alive, 3), Cell::Alive);
    assert_eq!(hades(Cell::Alive, 4), Cell::Dead);
    assert_eq!(hades(Cell::Alive, 5), Cell::Dead);
    assert_eq!(hades(Cell::Alive, 6), Cell::Dead);
    assert_eq!(hades(Cell::Alive, 7), Cell::Dead);
    assert_eq!(hades(Cell::Alive, 8), Cell::Dead);

    assert_eq!(hades(Cell::Dead, 1), Cell::Dead);
    assert_eq!(hades(Cell::Dead, 2), Cell::Dead);
    assert_eq!(hades(Cell::Dead, 3), Cell::Alive);
    assert_eq!(hades(Cell::Dead, 4), Cell::Dead);
    assert_eq!(hades(Cell::Dead, 5), Cell::Dead);
    assert_eq!(hades(Cell::Dead, 6), Cell::Dead);
    assert_eq!(hades(Cell::Dead, 7), Cell::Dead);
    assert_eq!(hades(Cell::Dead, 8), Cell::Dead);
}

#[test]
fn rule_table_for_every_count() {
    for n in 0u8..=8 {
        let alive_next = if n == 2 || n == 3 { Cell::Alive } else { Cell::Dead };
        assert_eq!(hades(Cell::Alive, n), alive_next);
        let dead_next = if n == 3 { Cell::Alive } else { Cell::Dead };
        assert_eq!(hades(Cell::Dead, n), dead_next);
    }
}
