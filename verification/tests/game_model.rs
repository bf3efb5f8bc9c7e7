use bingo::game::BingoGame;
use bingo::game::NotFoundError;
use bingo::game::ParseError;

fn collect_pairs(game: &BingoGame, grid_size: usize) -> Vec<(String, bool)> {
    let mut pairs = Vec::new();
    for row in 0..grid_size {
        for col in 0..grid_size {
            if let Some(item) = game.get_item(row, col) {
                pairs.push((item.name.clone(), item.done));
            }
        }
    }
    pairs.sort();
    pairs
}

#[test]
fn load_keeps_all_entries_when_under_capacity() {
    let game = BingoGame::new(r#"{"a":false,"b":true,"c":false}"#, 2).unwrap();
    let mut seen = 0;
    for row in 0..2 {
        for col in 0..2 {
            if game.get_item(row, col).is_some() {
                seen += 1;
            }
        }
    }
    assert_eq!(seen, 3);
}

#[test]
fn load_truncates_to_grid_capacity() {
    let game = BingoGame::new(r#"{"a":false,"b":true,"c":false,"d":true,"e":false}"#, 2).unwrap();
    let pairs = collect_pairs(&game, 2);
    assert_eq!(pairs.len(), 4);
}

#[test]
fn load_exactly_at_capacity() {
    let game = BingoGame::new(r#"{"a":false,"b":true,"c":false,"d":true}"#, 2).unwrap();
    assert_eq!(collect_pairs(&game, 2).len(), 4);
}

#[test]
fn load_empty_mapping() {
    let game = BingoGame::new("{}", 8).unwrap();
    assert!(game.get_item(0, 0).is_none());
}

#[test]
fn load_rejects_malformed_input() {
    assert_eq!(BingoGame::new("not json", 2), Err(ParseError::InvalidMapping));
    assert_eq!(BingoGame::new(r#"{"a":1}"#, 2), Err(ParseError::InvalidMapping));
    assert_eq!(BingoGame::new(r#"{"a":{"b":true}}"#, 2), Err(ParseError::InvalidMapping));
    assert_eq!(BingoGame::new(r#"["a"]"#, 2), Err(ParseError::InvalidMapping));
}

#[test]
fn load_rejects_zero_grid_size() {
    assert_eq!(BingoGame::new(r#"{"a":true}"#, 0), Err(ParseError::ZeroGridSize));
    assert_eq!(BingoGame::new("not json", 0), Err(ParseError::ZeroGridSize));
}

#[test]
fn get_item_present_iff_linear_index_in_range() {
    let game = BingoGame::new(r#"{"a":false,"b":true,"c":false}"#, 2).unwrap();
    for row in 0..4 {
        for col in 0..4 {
            let index = row * 2 + col;
            assert_eq!(game.get_item(row, col).is_some(), index < 3);
        }
    }
}

#[test]
fn get_item_does_not_validate_coordinates() {
    // An over-large column whose linear index still lands in range addresses
    // another cell: (0, 2) on a 2-grid is linear index 2, the same as (1, 0).
    let game = BingoGame::new(r#"{"a":false,"b":true,"c":false}"#, 2).unwrap();
    let wrapped = game.get_item(0, 2).unwrap().clone();
    let direct = game.get_item(1, 0).unwrap().clone();
    assert_eq!(wrapped, direct);
}

#[test]
fn set_then_get_observes_written_flag() {
    let mut game = BingoGame::new(r#"{"a":false,"b":false,"c":false}"#, 2).unwrap();
    let name_before = game.get_item(1, 0).unwrap().name.clone();
    assert!(game.set_item_completed(1, 0, true).is_ok());
    let item = game.get_item(1, 0).unwrap();
    assert_eq!(item.name, name_before);
    assert!(item.done);
    assert!(game.set_item_completed(1, 0, false).is_ok());
    assert!(!game.get_item(1, 0).unwrap().done);
}

#[test]
fn set_absent_cell_fails_and_changes_nothing() {
    let mut game = BingoGame::new(r#"{"a":false,"b":true}"#, 2).unwrap();
    let before = game.clone();
    assert_eq!(game.set_item_completed(1, 1, true), Err(NotFoundError { row: 1, col: 1 }));
    assert_eq!(game, before);
}

#[test]
fn set_is_idempotent() {
    let mut once = BingoGame::new(r#"{"a":false,"b":true,"c":false}"#, 2).unwrap();
    once.set_item_completed(0, 1, true).unwrap();
    let mut twice = once.clone();
    twice.set_item_completed(0, 1, true).unwrap();
    assert_eq!(once, twice);
}

#[test]
fn save_after_load_reproduces_the_mapping() {
    let source = r#"{"a":false,"b":true,"c":false,"d":true}"#;
    let game = BingoGame::new(source, 2).unwrap();
    let saved = game.write_to_json();
    let reloaded = BingoGame::new(&saved, 2).unwrap();
    assert_eq!(collect_pairs(&game, 2), collect_pairs(&reloaded, 2));
    assert_eq!(collect_pairs(&game, 2), vec![
        ("a".to_string(), false),
        ("b".to_string(), true),
        ("c".to_string(), false),
        ("d".to_string(), true),
    ]);
}

#[test]
fn save_reflects_mutations() {
    let mut game = BingoGame::new(r#"{"a":false}"#, 1).unwrap();
    assert_eq!(game.write_to_json(), r#"{"a":false}"#);
    game.set_item_completed(0, 0, true).unwrap();
    assert_eq!(game.write_to_json(), r#"{"a":true}"#);
}

#[test]
fn load_single_item_carries_name_and_flag() {
    let game = BingoGame::new(r#"{"only entry":true}"#, 1).unwrap();
    let item = game.get_item(0, 0).unwrap();
    assert_eq!(item.name, "only entry");
    assert!(item.done);
    assert!(game.get_item(0, 1).is_none());
}

#[test]
fn example_two_entry_grid() {
    let game = BingoGame::new(r#"{"A":false,"B":true}"#, 2).unwrap();
    // The source format is an unordered mapping, so the two items land at
    // the first two cells in an arbitrary order.
    let first = game.get_item(0, 0).unwrap().clone();
    let second = game.get_item(0, 1).unwrap().clone();
    let mut pairs = vec![(first.name, first.done), (second.name, second.done)];
    pairs.sort();
    assert_eq!(pairs, vec![("A".to_string(), false), ("B".to_string(), true)]);
    assert!(game.get_item(1, 0).is_none());
    let mut game = game;
    assert_eq!(game.set_item_completed(1, 0, true), Err(NotFoundError { row: 1, col: 0 }));
}

#[test]
fn duplicate_source_keys_collapse_to_the_last() {
    let game = BingoGame::new(r#"{"a":false,"a":true}"#, 1).unwrap();
    let item = game.get_item(0, 0).unwrap();
    assert_eq!(item.name, "a");
    assert!(item.done);
    assert!(game.get_item(0, 1).is_none());
}

#[test]
fn escaped_name_survives_a_round_trip() {
    let game = BingoGame::new(r#"{"say \"hi\"\n":true}"#, 1).unwrap();
    assert_eq!(game.get_item(0, 0).unwrap().name, "say \"hi\"\n");
    let saved = game.write_to_json();
    let reloaded = BingoGame::new(&saved, 1).unwrap();
    let item = reloaded.get_item(0, 0).unwrap();
    assert_eq!(item.name, "say \"hi\"\n");
    assert!(item.done);
}

#[test]
fn large_grid_size_keeps_all_entries() {
    let game = BingoGame::new(r#"{"a":true,"b":false}"#, usize::MAX).unwrap();
    let mut pairs = Vec::new();
    for col in 0..2 {
        let item = game.get_item(0, col).unwrap();
        pairs.push((item.name.clone(), item.done));
    }
    pairs.sort();
    assert_eq!(pairs, vec![("a".to_string(), true), ("b".to_string(), false)]);
}
