use wasm_game_of_life::cells::Cell;

#[test]
fn cells_test_display() {
    assert_eq!(Cell::Alive.to_string(), '◼'.to_string());
    assert_eq!(Cell::Dead.to_string(), '◻'.to_string());
}

#[test]
fn encoding_of_both_states() {
    assert_eq!(Cell::Alive.encode(), 1);
    assert_eq!(Cell::Dead.encode(), 0);
}

#[test]
fn glyphs_are_distinct_single_characters() {
    assert_ne!(Cell::Alive.glyph(), Cell::Dead.glyph());
    assert_eq!(Cell::Alive.to_string().chars().count(), 1);
    assert_eq!(Cell::Dead.to_string().chars().count(), 1);
    assert_eq!(Cell::Alive.glyph(), '◼');
    assert_eq!(Cell::Dead.glyph(), '◻');
}
