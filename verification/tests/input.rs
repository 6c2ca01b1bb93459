use taxstud_core::input::{parse_classification_path, validate_item_input};

#[test]
fn path_names_are_trimmed_and_empty_pieces_left_out() {
    assert_eq!(
        parse_classification_path(" Drink , Coffee,, Espresso ,").unwrap(),
        vec!["Drink", "Coffee", "Espresso"]
    );
    assert_eq!(parse_classification_path("Root").unwrap(), vec!["Root"]);
    assert_eq!(parse_classification_path("a b , c").unwrap(), vec!["a b", "c"]);
}

#[test]
fn path_without_names_is_an_error_on_the_path() {
    for input in ["", "  ", ",", " , ,, "] {
        let e = parse_classification_path(input).unwrap_err();
        assert_eq!(e.field, "path");
        assert_eq!(e.message, "Classification path cannot be empty");
        assert_eq!(e.to_string(), "path: Classification path cannot be empty");
    }
}

#[test]
fn item_input_gives_the_trimmed_name_and_the_path() {
    let (name, path) = validate_item_input("  Flat White ", "Drink, Coffee").unwrap();
    assert_eq!(name, "Flat White");
    assert_eq!(path, vec!["Drink", "Coffee"]);
}

#[test]
fn blank_name_is_reported_before_the_path() {
    let e = validate_item_input(" \t", "").unwrap_err();
    assert_eq!(e.field, "name");
    assert_eq!(e.message, "Name cannot be empty");
    assert_eq!(e.to_string(), "name: Name cannot be empty");
    let e = validate_item_input("Tea", " , ").unwrap_err();
    assert_eq!(e.field, "path");
}
