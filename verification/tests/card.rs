use lineup_cards::card::{
    assistants_line, available_players, bench_layout, bench_rows, find_player, head_coach_line, header_meta,
    is_defense, opponent_line, order_label, spot_player, team_initial, truncate_chars,
};
use lineup_cards::models::{Lineup, LineupSpot, Player, Team};

fn sample() -> (Team, Lineup, Vec<LineupSpot>, Vec<Player>) {
    let team = Team {
        id: 1,
        user_id: 1,
        name: "River Cats".into(),
        head_coach: "J. Smith".into(),
        assistant_coaches: "A. Lee".into(),
        logo_path: None,
        created_at: String::new(),
    };
    let lineup = Lineup {
        id: 1,
        team_id: 1,
        name: "Opener".into(),
        opponent: "Bulls".into(),
        game_date: "2026-07-10".into(),
        location: "City Park".into(),
        home_away: "home".into(),
        use_dh: 0,
        use_eh: 0,
        dh_mode: "traditional".into(),
        created_at: String::new(),
    };
    let players = vec![
        Player { id: 1, team_id: 1, number: "7".into(), name: "Rodriguez".into(), default_position: "DH".into(), sort_order: 1 },
        Player { id: 2, team_id: 1, number: "30".into(), name: "Miller".into(), default_position: "P".into(), sort_order: 2 },
        Player { id: 3, team_id: 1, number: "5".into(), name: "Available".into(), default_position: "".into(), sort_order: 3 },
    ];
    let spots = vec![
        LineupSpot { id: 1, lineup_id: 1, batting_order: 1, slot_kind: "BAT".into(), player_id: Some(1), position: "DH".into(), is_dh: 0 },
        LineupSpot { id: 2, lineup_id: 1, batting_order: 10, slot_kind: "DEF".into(), player_id: Some(2), position: "P".into(), is_dh: 0 },
    ];
    (team, lineup, spots, players)
}

#[test]
fn truncate_keeps_text_that_fits() {
    assert_eq!(truncate_chars("Rodriguez", Some(9)), "Rodriguez");
    assert_eq!(truncate_chars("", Some(0)), "");
}

#[test]
fn truncate_shortens_with_ellipsis() {
    assert_eq!(truncate_chars("Rodriguez", Some(5)), "Rodr\u{2026}");
    assert_eq!(truncate_chars("Rodriguez", Some(1)), "R\u{2026}");
    assert_eq!(truncate_chars("Rodriguez", Some(0)), "R\u{2026}");
    assert_eq!(truncate_chars("Rodriguez", None), "R\u{2026}");
    assert_eq!(truncate_chars("", None), " \u{2026}");
    assert!(truncate_chars("Rodriguez", Some(5)).chars().count() <= 5);
}

#[test]
fn bench_lists_unassigned_players() {
    let (_, _, spots, players) = sample();
    assert_eq!(available_players(&spots, &players), vec![2]);
    assert_eq!(available_players(&[], &players), vec![0, 1, 2]);
}

#[test]
fn bench_rows_fill_left_column_first() {
    assert_eq!(bench_rows(0), (0, 3));
    assert_eq!(bench_rows(1), (1, 3));
    assert_eq!(bench_rows(7), (4, 4));
    assert_eq!(bench_rows(8), (4, 4));
}

#[test]
fn order_labels() {
    let (_, _, mut spots, _) = sample();
    assert_eq!(order_label(&spots[0]), "1");
    assert!(!is_defense(&spots[0]));
    assert!(is_defense(&spots[1]));
    spots[0].slot_kind = "EH".into();
    assert_eq!(order_label(&spots[0]), "EH");
    spots[1].slot_kind = "BAT".into();
    spots[1].batting_order = -4;
    assert_eq!(order_label(&spots[1]), "-4");
}

#[test]
fn spot_players_by_id() {
    let (_, _, spots, mut players) = sample();
    assert_eq!(spot_player(&spots[1], &players), ("30".to_string(), "Miller".to_string()));
    let mut empty = spots[0].clone();
    empty.player_id = None;
    assert_eq!(spot_player(&empty, &players), (String::new(), String::new()));
    empty.player_id = Some(99);
    assert_eq!(spot_player(&empty, &players), (String::new(), String::new()));
    players.push(Player { id: 1, team_id: 1, number: "8".into(), name: "Later".into(), default_position: "".into(), sort_order: 4 });
    assert_eq!(find_player(&players, Some(1)), Some(3));
}

#[test]
fn header_lines() {
    let (team, lineup, _, _) = sample();
    assert_eq!(team_initial(&team.name), "R");
    assert_eq!(team_initial("ßeta"), "SS");
    assert_eq!(team_initial(""), "");
    assert_eq!(opponent_line(&lineup).unwrap(), "vs Bulls");
    assert_eq!(header_meta(&lineup), "2026-07-10  \u{2022}  HOME  \u{2022}  City Park");
    assert_eq!(head_coach_line(&team).unwrap(), "Head Coach: J. Smith");
    assert_eq!(assistants_line(&team).unwrap(), "Assistants: A. Lee");
    let mut bare = lineup.clone();
    bare.opponent = String::new();
    bare.game_date = String::new();
    bare.location = String::new();
    assert_eq!(opponent_line(&bare), None);
    assert_eq!(header_meta(&bare), "HOME");
    bare.home_away = String::new();
    assert_eq!(header_meta(&bare), "");
}

#[test]
fn bench_layout_shows_each_player_once() {
    assert_eq!(bench_layout(0), vec![(None, None); 3]);
    assert_eq!(bench_layout(1), vec![(Some(0), None), (None, None), (None, None)]);
    assert_eq!(
        bench_layout(5),
        vec![(Some(0), Some(3)), (Some(1), Some(4)), (Some(2), None)]
    );
    for n in 0..20usize {
        let rows = bench_layout(n);
        let mut shown: Vec<usize> = rows.iter().flat_map(|&(a, b)| a.into_iter().chain(b)).collect();
        shown.sort();
        assert_eq!(shown, (0..n).collect::<Vec<_>>());
        assert_eq!(rows.len(), bench_rows(n).1);
    }
}
