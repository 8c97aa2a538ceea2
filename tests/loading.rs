use game_roster::loading::{
    aliases_from_lines, collect_aliases, collect_games, load_alias_file, parse_alias_lines,
    remove_empty_lines, AliasSource, AliasesLoadResult, GameSource, GamesLoadResult,
};
use game_roster::normalize::{create_alias_lookup, normalize_with_lookup};

const HEADER: &str = "Date,GameNo,A,B,PtsAB,X,Y,PtsXY\n";

fn sheet(rows: &[&str]) -> Vec<u8> {
    let mut s = HEADER.to_string();
    for r in rows {
        s.push_str(r);
        s.push('\n');
    }
    s.into_bytes()
}

fn alias_file(name: &str, text: &str) -> AliasSource {
    AliasSource {
        path: format!("aliases/{}", name),
        stem: Some(name.to_string()),
        contents: Some(text.to_string()),
    }
}

#[test]
fn loads_valid_sheets_and_skips_invalid_one() {
    let files = vec![
        GameSource {
            path: "games/Week01.csv".to_string(),
            contents: Some(sheet(&[
                "2026-01-01,1,Nikhil,Chet,21,Chan,Bhavin,15",
                "2026-01-01,2,Chan,Bhavin,21,Nikhil,Chet,17",
            ])),
        },
        GameSource {
            path: "games/Invalid.csv".to_string(),
            contents: Some(sheet(&[
                "2026-01-15,1,Nikhil,Chet,21,Chan,Bhavin,15",
                "2026-01-15,2,Nikhil,Chet,abc,Chan,Bhavin,15",
            ])),
        },
        GameSource {
            path: "games/Week02.csv".to_string(),
            contents: Some(sheet(&["2026-01-08,1,Bhavin,Kishan,21,Nikhil,Chet,19"])),
        },
    ];
    let result = collect_games(&files);
    assert_eq!(result.games.len(), 3);
    assert_eq!(result.failed_files, vec!["games/Invalid.csv".to_string()]);
    assert!(result.games.iter().all(|g| g.date != "2026-01-15"));
    let g = &result.games[2];
    assert_eq!((g.player_a.as_str(), g.player_b.as_str()), ("Bhavin", "Kishan"));
    assert_eq!((g.points_ab, g.points_xy, g.game_no), (21, 19, 1));
}

#[test]
fn unreadable_game_file_is_failed() {
    let files = vec![GameSource { path: "games/locked.csv".to_string(), contents: None }];
    let result = collect_games(&files);
    assert!(result.games.is_empty());
    assert_eq!(result.failed_files, vec!["games/locked.csv".to_string()]);
}

#[test]
fn unreadable_directories_give_empty_results() {
    let games = GamesLoadResult::unreadable_directory("nonexistent/games/directory");
    assert!(games.games.is_empty());
    assert_eq!(games.failed_files, vec!["nonexistent/games/directory".to_string()]);
    let aliases = AliasesLoadResult::unreadable_directory("nonexistent/directory");
    assert!(aliases.aliases.is_empty());
    assert_eq!(aliases.failed_files, vec!["nonexistent/directory".to_string()]);
}

#[test]
fn alias_directory_end_to_end() {
    let files = vec![
        alias_file("Chetan", "Chet\n  Chet P  \n\nC. Pat\r\n"),
        alias_file("Nikhil", "Nik\nNik P\n"),
        alias_file("Empty", ""),
    ];
    let result = collect_aliases(&files);
    assert!(result.failed_files.is_empty());
    assert_eq!(result.aliases.len(), 3);
    let strings = |v: &[&str]| v.iter().map(|s| s.to_string()).collect::<Vec<_>>();
    assert_eq!(result.aliases.get("Chetan").cloned(), Some(strings(&["Chet", "Chet P", "C. Pat"])));
    assert_eq!(result.aliases.get("Nikhil").cloned(), Some(strings(&["Nik", "Nik P"])));
    assert_eq!(result.aliases.get("Empty").cloned(), Some(vec![]));
    let index = create_alias_lookup(&result.aliases);
    assert_eq!(index.get(&"C. Pat".to_string()).cloned(), Some("Chetan".to_string()));
    assert_eq!(index.get(&"Nik P".to_string()).cloned(), Some("Nikhil".to_string()));
}

#[test]
fn score_row_normalized_against_loaded_aliases() {
    let aliases = collect_aliases(&vec![alias_file("Chetan", "Chet\nChet P\nC. Pat"), alias_file("Nikhil", "Nik\nNik P")]);
    let games = collect_games(&vec![GameSource {
        path: "games/one.csv".to_string(),
        contents: Some(sheet(&["2026-01-01,1,Nik,Chet,21,Chan,Bhavin,15"])),
    }]);
    let out = normalize_with_lookup(games.games, &create_alias_lookup(&aliases.aliases));
    let names: Vec<&str> = vec![&out[0].player_a, &out[0].player_b, &out[0].player_x, &out[0].player_y]
        .into_iter().map(|s| s.as_str()).collect();
    assert_eq!(names, vec!["Nikhil", "Chetan", "Chan", "Bhavin"]);
}

#[test]
fn alias_file_without_name_or_text_fails() {
    let no_stem = AliasSource { path: "aliases/..".to_string(), stem: None, contents: Some("x".to_string()) };
    let no_text = AliasSource { path: "aliases/Gone".to_string(), stem: Some("Gone".to_string()), contents: None };
    assert_eq!(load_alias_file(&no_stem), Err("aliases/..".to_string()));
    assert_eq!(load_alias_file(&no_text), Err("aliases/Gone".to_string()));
    let result = collect_aliases(&vec![no_stem, alias_file("Ok", "O"), no_text]);
    assert_eq!(result.failed_files, vec!["aliases/..".to_string(), "aliases/Gone".to_string()]);
    assert_eq!(result.aliases.len(), 1);
}

#[test]
fn later_alias_file_of_same_name_replaces_earlier() {
    let result = collect_aliases(&vec![alias_file("Nikhil", "Nik"), alias_file("Nikhil", "N\nNik P")]);
    assert_eq!(result.aliases.len(), 1);
    assert_eq!(result.aliases.get("Nikhil").cloned(), Some(vec!["N".to_string(), "Nik P".to_string()]));
}

#[test]
fn blank_lines_are_dropped_and_lines_trimmed() {
    assert_eq!(remove_empty_lines("  Chet P \t"), Some("Chet P".to_string()));
    assert_eq!(remove_empty_lines(" \t "), None);
    assert_eq!(remove_empty_lines(""), None);
    assert_eq!(parse_alias_lines("a\n\n b \r\nb\n"), vec!["a".to_string(), "b".to_string(), "b".to_string()]);
    assert_eq!(parse_alias_lines(""), Vec::<String>::new());
    let lines = vec![" x ".to_string(), "   ".to_string(), "y".to_string()];
    assert_eq!(aliases_from_lines(&lines), vec!["x".to_string(), "y".to_string()]);
}
