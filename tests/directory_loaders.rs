use game_roster::loading::{
    collect_aliases, collect_games, AliasSource, AliasesLoadResult, GameSource, GamesLoadResult,
};

fn game_files() -> Vec<GameSource> {
    let header = "Date,GameNo,A,B,PtsAB,X,Y,PtsXY\n";
    vec![
        GameSource {
            path: "src/parsing/test_data/games/Week01.csv".to_string(),
            contents: Some(format!(
                "{}2026-01-01,1,Nikhil,Chet,21,Chan,Bhavin,15\n2026-01-01,2,Chan,Bhavin,21,Nikhil,Chet,18\n",
                header
            ).into_bytes()),
        },
        GameSource {
            path: "src/parsing/test_data/games/Invalid.csv".to_string(),
            contents: Some(format!("{}2026-01-15,1,Nikhil,Chet,not_a_number,Chan,Bhavin,15\n", header).into_bytes()),
        },
        GameSource {
            path: "src/parsing/test_data/games/Week02.csv".to_string(),
            contents: Some(format!("{}2026-01-08,1,Bhavin,Kishan,21,Nikhil,Chet,19\n", header).into_bytes()),
        },
    ]
}

fn alias_source(name: &str, text: &str) -> AliasSource {
    AliasSource {
        path: format!("src/parsing/test_data/aliases/{}", name),
        stem: Some(name.to_string()),
        contents: Some(text.to_string()),
    }
}

#[test]
fn test_load_all_games_happy_path() {
    let result = collect_games(&game_files());

    assert!(!result.games.is_empty(), "Should load some games");
    assert_eq!(result.games.len(), 3, "Should load 3 valid games");

    let week01_games: Vec<_> = result.games.iter().filter(|g| g.date == "2026-01-01").collect();
    assert_eq!(week01_games.len(), 2, "Week01 should have 2 games");

    let game1 = &week01_games[0];
    assert_eq!(game1.player_a, "Nikhil");
    assert_eq!(game1.player_b, "Chet");
    assert_eq!(game1.points_ab, 21);
    assert_eq!(game1.player_x, "Chan");
    assert_eq!(game1.player_y, "Bhavin");
    assert_eq!(game1.points_xy, 15);

    let week02_games: Vec<_> = result.games.iter().filter(|g| g.date == "2026-01-08").collect();
    assert_eq!(week02_games.len(), 1, "Week02 should have 1 game");
    let game2 = &week02_games[0];
    assert_eq!(game2.player_a, "Bhavin");
    assert_eq!(game2.player_b, "Kishan");
    assert_eq!(game2.points_ab, 21);
    assert_eq!(game2.player_x, "Nikhil");
    assert_eq!(game2.player_y, "Chet");
    assert_eq!(game2.points_xy, 19);
}

#[test]
fn test_load_all_games_invalid_data() {
    let result = collect_games(&game_files());
    assert!(
        result.failed_files.iter().any(|f| f.contains("Invalid.csv")),
        "Should record Invalid.csv as failed"
    );
    assert_eq!(result.games.len(), 3, "Should load valid games and skip invalid");
}

#[test]
fn test_load_all_games_nonexistent_directory() {
    let result = GamesLoadResult::unreadable_directory("nonexistent/games/directory");
    assert!(
        result.failed_files.contains(&"nonexistent/games/directory".to_string()),
        "Should record nonexistent directory as failed"
    );
    assert!(result.games.is_empty(), "Should have no games from failed directory");
}

#[test]
fn test_load_all_aliases_happy_path() {
    let result = collect_aliases(&vec![
        alias_source("Chetan", "Chet\nChet P\nC. Pat\n"),
        alias_source("Nikhil", "Nik\nNik P\n"),
        alias_source("Empty", ""),
    ]);

    assert!(!result.aliases.is_empty(), "Should load some aliases");

    assert!(result.aliases.contains_key("Chetan"), "Should have Chetan as a key");
    let chetan_aliases = result.aliases.get("Chetan").unwrap();
    assert_eq!(chetan_aliases.len(), 3, "Chetan should have 3 aliases");
    assert!(chetan_aliases.contains(&"Chet".to_string()));
    assert!(chetan_aliases.contains(&"Chet P".to_string()));
    assert!(chetan_aliases.contains(&"C. Pat".to_string()));

    assert!(result.aliases.contains_key("Nikhil"), "Should have Nikhil as a key");
    let nikhil_aliases = result.aliases.get("Nikhil").unwrap();
    assert_eq!(nikhil_aliases.len(), 2, "Nikhil should have 2 aliases");
    assert!(nikhil_aliases.contains(&"Nik".to_string()));
    assert!(nikhil_aliases.contains(&"Nik P".to_string()));

    assert!(result.aliases.contains_key("Empty"), "Should have Empty as a key");
    assert_eq!(result.aliases.get("Empty").unwrap().len(), 0, "Empty file should have 0 aliases");

    assert!(result.failed_files.is_empty(), "Should have no failed files");
}

#[test]
fn test_load_all_aliases_nonexistent_directory() {
    let result = AliasesLoadResult::unreadable_directory("nonexistent/directory");
    assert!(
        result.failed_files.contains(&"nonexistent/directory".to_string()),
        "Should record nonexistent directory as failed"
    );
    assert!(result.aliases.is_empty(), "Should have no aliases from failed directory");
}

#[test]
fn empty_base_name_is_a_failed_source() {
    let result = collect_aliases(&vec![alias_source("", "Ghost\n"), alias_source("Nikhil", "Nik")]);
    assert_eq!(result.failed_files, vec!["src/parsing/test_data/aliases/".to_string()]);
    assert!(!result.aliases.contains_key(""));
    assert_eq!(result.aliases.len(), 1);
}
