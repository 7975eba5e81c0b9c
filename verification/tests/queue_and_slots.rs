use poem_stars::models::MatchGame;
use poem_stars::models::MatchPlayer;
use poem_stars::models::MatchQueue;
use poem_stars::models::MatchingReq;
use poem_stars::proto::CGMatchGameOpt;
use poem_stars::proto::CGStartMatch;

fn queued(id: &str, t: i64) -> MatchingReq {
    MatchingReq {
        endpoint_id: format!("ep-{}", id),
        cg_match_info: CGStartMatch {
            id: id.to_string(),
            name: id.to_string(),
            level: 1,
            elo_score: 1000,
            correct_rate: 50,
        },
        start_match_timestamp: t,
    }
}

fn opt(id: &str, index: u32, result: u32) -> CGMatchGameOpt {
    CGMatchGameOpt {
        id: id.to_string(),
        game_id: "g".to_string(),
        opt_index: index,
        opt_result: result,
    }
}

#[test]
fn match_queue_is_fifo() {
    let mut q = MatchQueue::new();
    assert_eq!(q.match_count(), 0);
    assert_eq!(q.front_match_timestamp(), -1);
    assert!(q.get_front().is_none());
    q.add_match(queued("a", 5));
    q.add_match(queued("b", 9));
    assert_eq!(q.match_count(), 2);
    assert_eq!(q.front_match_timestamp(), 5);
    let first = q.get_front().unwrap();
    assert_eq!(first.cg_match_info.id, "a");
    assert_eq!(q.front_match_timestamp(), 9);
    assert_eq!(q.match_count(), 1);
}

#[test]
fn slot_records_in_order_answers_only() {
    let mut p = MatchPlayer::new("ep".to_string(), "a".to_string(), "A".to_string(), 0);
    assert_eq!(p.last_opt_index, -1);
    p.on_opt(opt("a", 0, 1), 10);
    assert_eq!(p.last_opt_index, 0);
    assert_eq!(p.opt_bitmap, 1);
    // an out-of-order answer leaves the progress alone
    p.on_opt(opt("a", 5, 0), 20);
    assert_eq!(p.last_opt_index, 0);
    assert_eq!(p.opt_bitmap, 1);
    p.on_opt(opt("a", 1, 0), 30);
    assert_eq!(p.last_opt_index, 1);
    assert_eq!(p.opt_bitmap, 1);
    assert!(p.is_dirty());
    assert!(!p.is_dirty());
}

#[test]
fn slot_timeouts_walk_the_round() {
    let mut p = MatchPlayer::new("ep".to_string(), "a".to_string(), "A".to_string(), 0);
    for k in 0..10 {
        assert!(!p.is_all_opt_end());
        p.update_opt_timeout_status(100 + k);
    }
    assert!(p.is_all_opt_end());
    assert_eq!(p.last_opt_index, 9);
    assert_eq!(p.opt_bitmap, 0b1111111111);
    // a finished slot stays where it is
    p.update_opt_timeout_status(5000);
    assert_eq!(p.last_opt_index, 9);
    assert_eq!(p.opt_bitmap, 0b1111111111);
}

#[test]
fn game_ends_when_both_slots_finish() {
    let p1 = MatchPlayer::new("e1".to_string(), "a".to_string(), "A".to_string(), 0);
    let p2 = MatchPlayer::new("e2".to_string(), "b".to_string(), "B".to_string(), 0);
    let mut game = MatchGame::new(p1, p2, 77);
    assert_eq!(game.id, "a_b_77");
    assert!(!game.is_game_end());
    for k in 0..10 {
        game.update_opt_timeout_status(100 + k);
        game.update_end_status();
    }
    assert!(game.is_game_end());
    assert!(game.is_dirty());
}

#[test]
fn game_routes_ops_by_player_id() {
    let p1 = MatchPlayer::new("e1".to_string(), "a".to_string(), "A".to_string(), 0);
    let p2 = MatchPlayer::new("e2".to_string(), "b".to_string(), "B".to_string(), 0);
    let mut game = MatchGame::new(p1, p2, 0);
    game.on_opt(opt("b", 0, 0), 5);
    assert_eq!(game.player1.last_opt_index, -1);
    assert_eq!(game.player2.last_opt_index, 0);
    game.on_opt(opt("nobody", 1, 0), 6);
    assert_eq!(game.player1.last_opt_index, -1);
    assert_eq!(game.player2.last_opt_index, 0);
}
