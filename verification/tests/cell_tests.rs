use islands::CellState;

#[test]
fn toggle_cycle_of_blank() {
    let s = CellState::Blank;
    assert_eq!(s.next(), CellState::River);
    assert_eq!(s.next().next(), CellState::Island);
    assert_eq!(s.next().next().next(), CellState::Blank);
}

#[test]
fn toggle_cycle_of_island() {
    let s = CellState::Island;
    assert_eq!(s.next().next().next(), CellState::Island);
}

#[test]
fn toggle_cycle_of_river() {
    let s = CellState::River;
    assert_eq!(s.next().next().next(), CellState::River);
}

#[test]
fn toggle_fixes_value() {
    assert_eq!(CellState::Value(0).next(), CellState::Value(0));
    assert_eq!(CellState::Value(5).next(), CellState::Value(5));
    assert_eq!(CellState::Value(9).next(), CellState::Value(9));
    assert_eq!(CellState::Value(127).next(), CellState::Value(127));
}

#[test]
fn is_same_land_equivalence() {
    assert!(CellState::Blank.is_same(CellState::Value(5)));
    assert!(CellState::Island.is_same(CellState::Value(5)));
    assert!(CellState::Value(3).is_same(CellState::Island));
    assert!(CellState::River.is_same(CellState::River));
    assert!(!CellState::River.is_same(CellState::Island));
    assert!(!CellState::Blank.is_same(CellState::River));
    assert!(CellState::Blank.is_same(CellState::Blank));
    assert!(CellState::Blank.is_same(CellState::Island));
    assert!(!CellState::Island.is_same(CellState::River));
    assert!(!CellState::River.is_same(CellState::Blank));
    assert!(!CellState::River.is_same(CellState::Value(7)));
}

#[test]
fn render_char_of_each_state() {
    assert_eq!(CellState::Blank.render_char(), Some(' '));
    assert_eq!(CellState::Island.render_char(), Some('.'));
    assert_eq!(CellState::River.render_char(), Some('X'));
    assert_eq!(CellState::Value(0).render_char(), Some('0'));
    assert_eq!(CellState::Value(2).render_char(), Some('2'));
    assert_eq!(CellState::Value(9).render_char(), Some('9'));
}

#[test]
fn render_char_rejects_multi_digit_values() {
    assert_eq!(CellState::Value(10).render_char(), None);
    assert_eq!(CellState::Value(12).render_char(), None);
    assert_eq!(CellState::Value(-1).render_char(), None);
}

#[test]
fn tile_index_mapping() {
    assert_eq!(CellState::Blank.tile_index(), 0);
    assert_eq!(CellState::Island.tile_index(), 10);
    assert_eq!(CellState::River.tile_index(), 11);
    assert_eq!(CellState::Value(5).tile_index(), 5);
    assert_eq!(CellState::Value(0).tile_index(), 0);
}
