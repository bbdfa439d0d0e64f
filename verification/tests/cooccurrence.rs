use fandom_data::cooccurrence::{
    co_occurrence, matrix_of, merge_counts, retained_ships, ship_counts, CoOccurrenceMatrix,
    ShipCount,
};
use fandom_data::text::text_le;
use fandom_data::search::ShipKind;
use fandom_data::ship::Ship;

fn pairs(items: &[(&str, u64)]) -> Vec<(String, u64)> {
    items.iter().map(|(tag, count)| (tag.to_string(), *count)).collect()
}

fn counted(first: &str, second: &str, kind: ShipKind, count: u64) -> ShipCount {
    ShipCount { ship: Ship { first: first.to_owned(), second: second.to_owned(), kind }, count }
}

#[test]
fn duplicates_are_summed() {
    let input = pairs(&[("Alice/Bob", 3), ("Bob/Alice", 5)]);
    assert_eq!(
        ship_counts(&input, ShipKind::Romantic),
        vec![counted("Alice", "Bob", ShipKind::Romantic, 8)]
    );
    assert_eq!(
        co_occurrence(&input, ShipKind::Romantic),
        CoOccurrenceMatrix {
            names: vec!["Alice".to_owned(), "Bob".to_owned()],
            matrix: vec![vec![0, 8], vec![8, 0]],
        }
    );
}

#[test]
fn other_kind_and_unreadable_tags_are_passed_over() {
    let input = pairs(&[
        ("Zuko/Katara", 10),
        ("Sokka & Toph", 7),
        ("Aang", 100),
        ("Aang/Katara/Zuko", 50),
        ("Katara (Avatar)/Aang (Avatar)", 4),
        (" Katara / Zuko ", 1),
    ]);
    assert_eq!(
        ship_counts(&input, ShipKind::Romantic),
        vec![
            counted("Aang", "Katara", ShipKind::Romantic, 4),
            counted("Katara", "Zuko", ShipKind::Romantic, 11),
        ]
    );
    assert_eq!(
        ship_counts(&input, ShipKind::Platonic),
        vec![counted("Sokka", "Toph", ShipKind::Platonic, 7)]
    );
    assert_eq!(
        co_occurrence(&input, ShipKind::Romantic),
        CoOccurrenceMatrix {
            names: vec!["Aang".to_owned(), "Katara".to_owned(), "Zuko".to_owned()],
            matrix: vec![vec![0, 4, 0], vec![4, 0, 11], vec![0, 11, 0]],
        }
    );
}

#[test]
fn nothing_in_nothing_out() {
    assert_eq!(ship_counts(&vec![], ShipKind::Romantic), vec![]);
    assert_eq!(
        co_occurrence(&pairs(&[("A & B", 1)]), ShipKind::Romantic),
        CoOccurrenceMatrix { names: vec![], matrix: vec![] }
    );
}

#[test]
fn matrix_is_symmetric() {
    let input = pairs(&[
        ("d/a", 1),
        ("b/c", 2),
        ("a/c", 4),
        ("c/a", 8),
        ("d/d", 16),
        ("b/a", 32),
        ("e & a", 64),
        ("c/d", 0),
    ]);
    let m = co_occurrence(&input, ShipKind::Romantic);
    assert_eq!(m.names, vec!["a", "b", "c", "d"]);
    assert_eq!(
        m.matrix,
        vec![vec![0, 32, 12, 1], vec![32, 0, 2, 0], vec![12, 2, 0, 0], vec![1, 0, 0, 32]]
    );
    for i in 0..m.names.len() {
        assert_eq!(m.matrix[i].len(), m.names.len());
        for j in 0..m.names.len() {
            assert_eq!(m.matrix[i][j], m.matrix[j][i]);
        }
    }
}

#[test]
fn diagonal_is_zero_without_self_pairs() {
    let input = pairs(&[("x/y", 3), ("y/z", 5), ("z/x", 7), ("y/x", 11)]);
    let m = co_occurrence(&input, ShipKind::Romantic);
    for i in 0..m.names.len() {
        assert_eq!(m.matrix[i][i], 0);
    }
    assert_eq!(m.matrix, vec![vec![0, 14, 7], vec![14, 0, 5], vec![7, 5, 0]]);
}

#[test]
fn ship_that_is_counted_zero_times_is_kept() {
    let input = pairs(&[("a/b", 0)]);
    assert_eq!(
        ship_counts(&input, ShipKind::Romantic),
        vec![counted("a", "b", ShipKind::Romantic, 0)]
    );
    assert_eq!(co_occurrence(&input, ShipKind::Romantic).names, vec!["a", "b"]);
}

#[test]
fn sums_stop_at_the_largest_count() {
    let input = pairs(&[("a/b", u64::MAX - 1), ("b/a", 1), ("a/b", 5), ("c/c", u64::MAX)]);
    let counts = ship_counts(&input, ShipKind::Romantic);
    assert_eq!(
        counts,
        vec![
            counted("a", "b", ShipKind::Romantic, u64::MAX),
            counted("c", "c", ShipKind::Romantic, u64::MAX),
        ]
    );
    let m = co_occurrence(&input, ShipKind::Romantic);
    assert_eq!(m.matrix[0][1], u64::MAX);
    assert_eq!(m.matrix[2][2], u64::MAX);
}

#[test]
fn report_is_in_the_order_of_the_ships() {
    let input = pairs(&[
        ("b/c", 1),
        ("a/z", 1),
        ("a/b", 1),
        ("A/b", 1),
        ("ab/a", 1),
        ("a/", 1),
        ("é/a", 1),
        ("a/a", 1),
    ]);
    let counts = ship_counts(&input, ShipKind::Romantic);
    let mut sorted = counts.clone();
    sorted.sort();
    assert_eq!(counts, sorted);
    assert_eq!(counts.len(), 8);
    let names = co_occurrence(&input, ShipKind::Romantic).names;
    let mut expected = vec!["", "A", "a", "ab", "b", "c", "z", "é"];
    expected.sort();
    assert_eq!(names, expected);
}

#[test]
fn text_order_is_that_of_strings() {
    let words = ["", "a", "A", "ab", "b", "é", "e\u{301}", "中", "\u{10348}", "\u{ffff}", "zz"];
    for x in words {
        for y in words {
            assert_eq!(text_le(x, y), x <= y);
        }
    }
}

#[test]
fn tags_are_read_in_their_order() {
    let input = pairs(&[("b/a", 1), ("x", 2), ("a & b", 3), (" a / b ", 4), ("a/b/c", 5), ("c (d)/a", 6)]);
    assert_eq!(
        retained_ships(&input, ShipKind::Romantic),
        vec![
            counted("a", "b", ShipKind::Romantic, 1),
            counted("a", "b", ShipKind::Romantic, 4),
            counted("a", "c", ShipKind::Romantic, 6),
        ]
    );
    assert_eq!(
        retained_ships(&input, ShipKind::Platonic),
        vec![counted("a", "b", ShipKind::Platonic, 3)]
    );
}

#[test]
fn ships_of_both_kinds_are_told_apart() {
    let entries = vec![
        counted("a", "b", ShipKind::Platonic, 1),
        counted("a", "b", ShipKind::Romantic, 2),
        counted("a", "a", ShipKind::Romantic, 4),
        counted("a", "b", ShipKind::Platonic, 8),
        counted("", "b", ShipKind::Platonic, 16),
    ];
    let merged = merge_counts(&entries);
    assert_eq!(
        merged,
        vec![
            counted("", "b", ShipKind::Platonic, 16),
            counted("a", "a", ShipKind::Romantic, 4),
            counted("a", "b", ShipKind::Romantic, 2),
            counted("a", "b", ShipKind::Platonic, 9),
        ]
    );
    let mut sorted = merged.clone();
    sorted.sort();
    assert_eq!(merged, sorted);
    assert_eq!(
        matrix_of(&entries),
        CoOccurrenceMatrix {
            names: vec!["".to_owned(), "a".to_owned(), "b".to_owned()],
            matrix: vec![vec![0, 0, 16], vec![0, 8, 11], vec![16, 11, 0]],
        }
    );
    assert_eq!(matrix_of(&merged), matrix_of(&entries));
}

#[test]
fn names_out_of_order_are_taken_as_they_are() {
    let entries = vec![counted("b", "a", ShipKind::Romantic, 1), counted("a", "b", ShipKind::Romantic, 2)];
    assert_eq!(merge_counts(&entries).len(), 2);
    assert_eq!(matrix_of(&entries).matrix, vec![vec![0, 3], vec![3, 0]]);
}

#[test]
fn nothing_to_merge() {
    assert_eq!(merge_counts(&vec![]), vec![]);
    assert_eq!(matrix_of(&vec![]), CoOccurrenceMatrix { names: vec![], matrix: vec![] });
}
