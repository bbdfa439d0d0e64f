use fandom_data::search::ShipKind;
use fandom_data::ship::{ship_to_characters, Ship, ShipParseError};

fn ship(first: &str, second: &str, kind: ShipKind) -> Ship {
    Ship { first: first.to_owned(), second: second.to_owned(), kind }
}

#[test]
fn order_and_white_space_do_not_matter() {
    assert_eq!(Ship::from_str("Alice/Bob"), Ship::from_str(" Bob / Alice "));
    assert_eq!(Ship::from_str("Alice/Bob"), Ok(ship("Alice", "Bob", ShipKind::Romantic)));
    assert_eq!(Ship::from_str("\tBob\u{a0}&\u{3000}Alice\n"), Ok(ship("Alice", "Bob", ShipKind::Platonic)));
}

#[test]
fn slash_decides_the_kind() {
    assert_eq!(Ship::from_str("A/B & C"), Ok(ship("A", "B & C", ShipKind::Romantic)));
    assert_eq!(Ship::from_str("A & B/C"), Ok(ship("A & B", "C", ShipKind::Romantic)));
    assert_eq!(Ship::from_str("A&B"), Ok(ship("A", "B", ShipKind::Platonic)));
}

#[test]
fn three_characters_are_refused() {
    assert_eq!(Ship::from_str("A/B/C"), Err(ShipParseError::UnsupportedArity));
    assert_eq!(Ship::from_str("A & B & C"), Err(ShipParseError::UnsupportedArity));
    assert_eq!(Ship::from_str("A/B/"), Err(ShipParseError::UnsupportedArity));
}

#[test]
fn tag_without_separator_has_no_kind() {
    assert_eq!(Ship::from_str("Alice"), Err(ShipParseError::UnknownShipKind));
    assert_eq!(Ship::from_str(""), Err(ShipParseError::UnknownShipKind));
}

#[test]
fn separator_in_a_suffix_still_cuts() {
    assert_eq!(Ship::from_str("Alice (A/B)"), Ok(ship("Alice", "B)", ShipKind::Romantic)));
    assert_eq!(Ship::from_str("Alice (A&B)"), Ok(ship("Alice", "B)", ShipKind::Platonic)));
}

#[test]
fn fandom_suffix_is_dropped() {
    assert_eq!(
        Ship::from_str("Alice (Wonderland)/Bob (Wonderland)"),
        Ship::from_str("Alice/Bob")
    );
    assert_eq!(
        Ship::from_str("Zuko (Avatar) & Iroh (Avatar: The Last Airbender)"),
        Ok(ship("Iroh", "Zuko", ShipKind::Platonic))
    );
    assert_eq!(Ship::from_str("Alice (a) (b)/Bob"), Ok(ship("Alice", "Bob", ShipKind::Romantic)));
}

#[test]
fn names_may_be_empty_or_equal() {
    assert_eq!(Ship::from_str("/"), Ok(ship("", "", ShipKind::Romantic)));
    assert_eq!(Ship::from_str("A/"), Ok(ship("", "A", ShipKind::Romantic)));
    assert_eq!(Ship::from_str("A/A"), Ok(ship("A", "A", ShipKind::Romantic)));
}

#[test]
fn names_are_ordered_as_strings_are() {
    let names = ["", "a", "A", "ab", "Zuko", "aang", "Ünal", "é", "e", "中", "\u{10348}", "a b", "a\u{0}"];
    for x in names {
        for y in names {
            let parsed = Ship::from_str(&format!("{}/{}", x, y)).unwrap();
            let (first, second) = if x <= y { (x, y) } else { (y, x) };
            assert_eq!(parsed, ship(first, second, ShipKind::Romantic));
        }
    }
}

#[test]
fn trimming_is_that_of_strings() {
    for c in ['\u{9}', '\u{a}', '\u{b}', '\u{c}', '\u{d}', ' ', '\u{85}', '\u{a0}', '\u{1680}', '\u{2000}', '\u{200a}', '\u{2028}', '\u{2029}', '\u{202f}', '\u{205f}', '\u{3000}', '\u{200b}', '\u{feff}', '\u{1c}', '_', '\u{180e}'] {
        let tag = format!("{}x{}/y", c, c);
        let parsed = Ship::from_str(&tag).unwrap();
        let name = format!("{}x{}", c, c);
        let (first, second) = if name.trim() <= "y" { (name.trim(), "y") } else { ("y", name.trim()) };
        assert_eq!(parsed, ship(first, second, ShipKind::Romantic));
    }
}

#[test]
fn characters_of_a_tag() {
    assert_eq!(ship_to_characters("Bob / Alice"), Some(ship("Alice", "Bob", ShipKind::Romantic)));
    assert_eq!(ship_to_characters("Bob & Alice"), Some(ship("Alice", "Bob", ShipKind::Platonic)));
    assert_eq!(ship_to_characters("Alice/Bob (Wonderland)"), Some(ship("Alice", "Bob", ShipKind::Romantic)));
    assert_eq!(
        ship_to_characters("Alice (Wonderland)/Bob (Wonderland)"),
        Some(ship("Alice", "Bob", ShipKind::Romantic))
    );
    assert_eq!(
        ship_to_characters("Alice (Wonderland)/Bob (Wonderland)"),
        ship_to_characters("Alice/Bob")
    );
    assert_eq!(ship_to_characters("A/B & C"), Some(ship("A", "B & C", ShipKind::Romantic)));
    assert_eq!(ship_to_characters("A/B/C"), None);
    assert_eq!(ship_to_characters("A & B & C"), None);
    assert_eq!(ship_to_characters("Alice"), None);
    assert_eq!(ship_to_characters(""), None);
}

#[test]
fn characters_are_those_of_the_ship() {
    for tag in ["Alice/Bob", " b & a ", "A/B & C", "x (y)/z (y)", "/", "A/A", "A/B/C", "A", "", "a&b&c", "(a/b)"] {
        assert_eq!(ship_to_characters(tag), Ship::from_str(tag).ok());
    }
}

#[test]
fn tag_of_a_ship_names_the_ship() {
    for tag in [
        "Alice/Bob",
        " Bob / Alice ",
        "A/B & C",
        "Zuko (Avatar) & Iroh (Avatar: The Last Airbender)",
        "/",
        "A/A",
        "x (y/z",
        "\u{3000}é\u{a0}&\t中",
    ] {
        let ship = Ship::from_str(tag).unwrap();
        assert_eq!(Ship::from_str(&ship.to_tag()), Ok(ship));
    }
    assert_eq!(ship("Alice", "Bob", ShipKind::Romantic).to_tag(), "Alice/Bob");
    assert_eq!(ship("Alice", "Bob", ShipKind::Platonic).to_tag(), "Alice&Bob");
}
