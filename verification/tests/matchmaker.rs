use poem_stars::gamematch::MatchController;
use poem_stars::gamematch::MatchRequest;
use poem_stars::petable::PERecord;
use poem_stars::petable::PETable;

fn sample_pet() -> PETable {
    let rows = vec![
        PERecord { dmin: 0, dmax: 49, ea_mill: 500, eb_mill: 500, group: 0 },
        PERecord { dmin: 50, dmax: 99, ea_mill: 570, eb_mill: 430, group: 1 },
        PERecord { dmin: 100, dmax: 199, ea_mill: 640, eb_mill: 360, group: 2 },
        PERecord { dmin: 200, dmax: 299, ea_mill: 760, eb_mill: 240, group: 3 },
        PERecord { dmin: 300, dmax: 499, ea_mill: 850, eb_mill: 150, group: 4 },
    ];
    PETable::new(rows)
}

fn req(id: &str, elo: u32, t: i64) -> MatchRequest {
    MatchRequest {
        endpoint_id: Some(format!("ep-{}", id)),
        player_id: id.to_string(),
        player_name: format!("name-{}", id),
        player_level: 5,
        player_elo_score: elo,
        player_correct_rate: 60,
        timestamp: t,
    }
}

#[test]
fn equal_elo_players_pair_at_once() {
    // two humans at 1000 Elo arrive 10 ms apart; the next update pairs them
    let mut ctrl = MatchController::new(sample_pet());
    ctrl.add_match(req("a", 1000, 100));
    ctrl.add_match(req("b", 1000, 110));
    let r = ctrl.update_matches(111);
    let (a, b) = r.expect("a pair should be emitted");
    assert_eq!(a.unwrap().player_id, "a");
    assert_eq!(b.unwrap().player_id, "b");
    assert_eq!(ctrl.match_vec.len(), 0);
}

#[test]
fn wide_elo_gap_waits_for_escalation() {
    // gap 400 sits in group 4: nothing until the wait passes 4500 ms
    let mut ctrl = MatchController::new(sample_pet());
    ctrl.add_match(req("a", 1000, 0));
    ctrl.add_match(req("b", 1400, 100));
    assert!(ctrl.update_matches(4500).is_none());
    let r = ctrl.update_matches(4501);
    let (a, b) = r.expect("the pair should be emitted after 4500 ms");
    assert_eq!(a.unwrap().player_id, "a");
    assert_eq!(b.unwrap().player_id, "b");
}

#[test]
fn lone_player_gets_a_bot_after_the_deadline() {
    let mut ctrl = MatchController::new(sample_pet());
    ctrl.add_match(req("a", 1200, 0));
    assert!(ctrl.update_matches(4500).is_none());
    let r = ctrl.update_matches(4501);
    let (a, b) = r.expect("a solo should be emitted after 4500 ms");
    assert_eq!(a.unwrap().player_id, "a");
    assert!(b.is_none());
    assert_eq!(ctrl.match_vec.len(), 0);
}

#[test]
fn equal_gaps_prefer_the_later_arrival() {
    // b and c both sit 0 Elo away from a; the later arrival wins the tie
    let mut ctrl = MatchController::new(sample_pet());
    ctrl.add_match(req("a", 1000, 0));
    ctrl.add_match(req("b", 1000, 1));
    ctrl.add_match(req("c", 1000, 2));
    let r = ctrl.update_matches(10);
    let (a, b) = r.expect("a pair should be emitted");
    assert_eq!(a.unwrap().player_id, "a");
    assert_eq!(b.unwrap().player_id, "c");
    assert_eq!(ctrl.match_vec.len(), 1);
    assert_eq!(ctrl.match_vec[0].player_id, "b");
}

#[test]
fn one_emission_per_update() {
    // four compatible players: each update emits exactly one pair
    let mut ctrl = MatchController::new(sample_pet());
    ctrl.add_match(req("a", 1000, 0));
    ctrl.add_match(req("b", 1000, 1));
    ctrl.add_match(req("c", 1000, 2));
    ctrl.add_match(req("d", 1000, 3));
    assert!(ctrl.update_matches(10).is_some());
    assert_eq!(ctrl.match_vec.len(), 2);
    assert!(ctrl.update_matches(11).is_some());
    assert_eq!(ctrl.match_vec.len(), 0);
    assert!(ctrl.update_matches(12).is_none());
}

#[test]
fn moderate_gap_admits_within_its_window() {
    // gap 250 is group 3, admitted while the wait stays within 4500 ms
    let mut ctrl = MatchController::new(sample_pet());
    ctrl.add_match(req("a", 1000, 0));
    ctrl.add_match(req("b", 1250, 10));
    let r = ctrl.update_matches(100);
    assert!(r.is_some());
}

#[test]
fn out_of_table_gap_never_pairs() {
    // gap 600 is past every row (sentinel group 9): no pairing, and both
    // players eventually fall back to bots one update at a time
    let mut ctrl = MatchController::new(sample_pet());
    ctrl.add_match(req("a", 1000, 0));
    ctrl.add_match(req("b", 1600, 0));
    assert!(ctrl.update_matches(4500).is_none());
    assert!(ctrl.update_matches(6000).is_none());
    assert_eq!(ctrl.match_vec.len(), 2);
}
