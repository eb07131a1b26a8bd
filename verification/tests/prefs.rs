use finder::prefs::ViewMode;

#[test]
fn view_mode_strings_roundtrip() {
    assert_eq!(ViewMode::Grid.as_str(), "grid");
    assert_eq!(ViewMode::List.as_str(), "list");
    assert_eq!(ViewMode::from_str("list"), ViewMode::List);
    assert_eq!(ViewMode::from_str("grid"), ViewMode::Grid);
    assert_eq!(ViewMode::from_str(ViewMode::List.as_str()), ViewMode::List);
}

#[test]
fn view_mode_unknown_falls_back_to_grid() {
    assert_eq!(ViewMode::from_str("bogus"), ViewMode::Grid);
    assert_eq!(ViewMode::from_str("LIST"), ViewMode::Grid);
    assert_eq!(ViewMode::from_str(""), ViewMode::Grid);
}
