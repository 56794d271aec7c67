use ratecache::records::{Game, League};

#[test]
fn records_hold_their_fields() {
    let g = Game {
        game_key: "nfl.2024".to_string(),
        name: "NFL Football".to_string(),
        code: "nfl".to_string(),
        season: 2024,
    };
    let g2 = g.clone();
    assert_eq!(g2.game_key, "nfl.2024");
    assert_eq!(g2.code, "nfl");
    assert_eq!(g2.season, 2024);

    let l = League {
        league_key: "423.l.12345".to_string(),
        name: "My Test League".to_string(),
        num_teams: 12,
        current_week: 15,
    };
    assert_eq!(l.num_teams, 12);
    assert_eq!(l.current_week, 15);
}
