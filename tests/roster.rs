use game_roster::game::Game;
use game_roster::player::{CreatePlayerResponse, Player};
use game_roster::requests::{CreateAgainstRequest, CreatePlayerRequest, CreateWithRequest, UtcInstant};
use game_roster::roster::collect_identities;

#[test]
fn identities_are_distinct_player_names() {
    let g = |a: &str, b: &str, x: &str, y: &str| {
        Game::new("d".to_string(), 1, a.to_string(), b.to_string(), 21, x.to_string(), y.to_string(), 19)
    };
    let names = collect_identities(&vec![g("A", "B", "C", "D"), g("C", "A", "E", "B")]);
    assert_eq!(names, vec!["A", "B", "C", "D", "E"]);
    assert!(collect_identities(&vec![]).is_empty());
    assert_eq!(collect_identities(&vec![g("A", "A", "A", "A")]), vec!["A"]);
}

#[test]
fn requests_carry_their_arguments() {
    let p = CreatePlayerRequest::new("Nikhil".to_string());
    assert_eq!(p.name, "Nikhil");
    assert!(p.aliases.is_empty());
    assert!(!p.is_sub);
    let t = UtcInstant::from_timestamp(1431648000, 0).unwrap();
    let w = CreateWithRequest::new("id1", "id2", &t, 3);
    assert_eq!((w.from.as_str(), w.to.as_str(), w.played_on.as_str(), w.order), ("id1", "id2", "2015-05-15T00:00:00+00:00", 3));
    let a = CreateAgainstRequest::new("id2", "id1", &t, 1, 19);
    assert_eq!(a.played_on, "2015-05-15T00:00:00+00:00");
    assert_eq!((a.from.as_str(), a.to.as_str(), a.order, a.points_scored), ("id2", "id1", 1, 19));
    let r = CreatePlayerResponse {
        player: Player { aliases: vec![], id: "x".to_string(), is_sub: false, label: "Player".to_string(), name: "A".to_string() },
    };
    assert_eq!(r.player.id, "x");
}

#[test]
fn instants_format_as_rfc3339() {
    let t = UtcInstant::from_timestamp(1431648000, 500_000_000).unwrap();
    assert_eq!(t.to_rfc3339(), "2015-05-15T00:00:00.500+00:00");
    assert!(UtcInstant::from_timestamp(0, 2_000_000_000).is_none());
    assert!(UtcInstant::from_timestamp(i64::MAX, 0).is_none());
}
