use game_roster::aliases::AliasMap;
use game_roster::game::Game;
use game_roster::normalize::{convert_if_alias, create_alias_lookup, normalize_games, normalize_with_lookup};

fn game(a: &str, b: &str, x: &str, y: &str) -> Game {
    Game::new("2026-01-01".to_string(), 1, a.to_string(), b.to_string(), 21, x.to_string(), y.to_string(), 15)
}

#[test]
fn test_normalize_games() {
    let mut aliases = AliasMap::new();
    aliases.insert("Nikhil".to_string(), vec!["Nik".to_string()]);

    let games = vec![Game {
        player_a: "Nik".to_string(),
        player_b: "Alice".to_string(),
        player_x: "Bob".to_string(),
        player_y: "Charlie".to_string(),
        points_ab: 21,
        points_xy: 15,
        date: "08-04-2024".to_string(),
        game_no: 0,
    }];

    let normalized = normalize_games(games, &aliases).get(0).cloned().unwrap();

    assert_eq!(normalized.player_a, "Nikhil".to_string());
    assert_eq!(normalized.player_b, "Alice".to_string());
    assert_eq!(normalized.player_x, "Bob".to_string());
    assert_eq!(normalized.player_y, "Charlie".to_string());
}

fn sample_aliases() -> AliasMap {
    let mut aliases = AliasMap::new();
    aliases.insert(
        "Chetan".to_string(),
        vec!["Chet".to_string(), "Chet P".to_string(), "C. Pat".to_string()],
    );
    aliases.insert("Nikhil".to_string(), vec!["Nik".to_string(), "Nik P".to_string()]);
    aliases.insert("Empty".to_string(), vec![]);
    aliases
}

#[test]
fn index_maps_every_alias_to_its_name() {
    let index = create_alias_lookup(&sample_aliases());
    for (alias, name) in [("Chet", "Chetan"), ("Chet P", "Chetan"), ("C. Pat", "Chetan"), ("Nik", "Nikhil"), ("Nik P", "Nikhil")] {
        assert_eq!(index.get(&alias.to_string()).cloned(), Some(name.to_string()));
    }
    assert_eq!(index.get(&"Chetan".to_string()), None);
    assert_eq!(index.get(&"Empty".to_string()), None);
}

#[test]
fn later_name_wins_alias_collision() {
    let mut aliases = AliasMap::new();
    aliases.insert("First".to_string(), vec!["Shared".to_string()]);
    aliases.insert("Second".to_string(), vec!["Shared".to_string()]);
    let index = create_alias_lookup(&aliases);
    assert_eq!(index.get(&"Shared".to_string()).cloned(), Some("Second".to_string()));
}

#[test]
fn reinserting_a_name_replaces_its_aliases() {
    let mut aliases = AliasMap::new();
    aliases.insert("Nikhil".to_string(), vec!["Nik".to_string()]);
    aliases.insert("Nikhil".to_string(), vec!["N".to_string()]);
    assert_eq!(aliases.len(), 1);
    assert_eq!(aliases.get("Nikhil").cloned(), Some(vec!["N".to_string()]));
    let index = create_alias_lookup(&aliases);
    assert_eq!(index.get(&"Nik".to_string()), None);
}

#[test]
fn end_to_end_row_is_normalized() {
    let index = create_alias_lookup(&sample_aliases());
    let out = normalize_with_lookup(vec![game("Nik", "Chet", "Chan", "Bhavin")], &index);
    assert_eq!(out.len(), 1);
    assert_eq!(out[0].player_a, "Nikhil");
    assert_eq!(out[0].player_b, "Chetan");
    assert_eq!(out[0].player_x, "Chan");
    assert_eq!(out[0].player_y, "Bhavin");
    assert_eq!(out[0].points_ab, 21);
    assert_eq!(out[0].points_xy, 15);
}

#[test]
fn normalizing_twice_changes_nothing_more() {
    let index = create_alias_lookup(&sample_aliases());
    let games = vec![game("Nik", "Chet P", "Chan", "Nikhil"), game("C. Pat", "Bhavin", "Nik P", "Kishan")];
    let once = normalize_with_lookup(games, &index);
    let twice = normalize_with_lookup(once.clone(), &index);
    assert_eq!(once, twice);
}

#[test]
fn unknown_names_pass_through() {
    let index = create_alias_lookup(&sample_aliases());
    let g = game("Alice", "Bob", "Carol", "Dan");
    let out = normalize_with_lookup(vec![g.clone()], &index);
    assert_eq!(out, vec![g]);
    assert_eq!(convert_if_alias("Guest", &index), "Guest");
    assert_eq!(convert_if_alias("Chet", &index), "Chetan");
}
