use poem_stars::common::RedisOpt;
use poem_stars::common::Signal;
use poem_stars::gamematch::MatchController;
use poem_stars::gamematch::MatchRequest;
use poem_stars::gameplay::create_player_from_match;
use poem_stars::gameplay::MatchGameController;
use poem_stars::petable::PERecord;
use poem_stars::petable::PETable;
use poem_stars::poemtable::PoemLineRecord;
use poem_stars::poemtable::PoemTable;
use poem_stars::proto::CGMatchGameOpt;
use poem_stars::proto::CGStartMatch;
use poem_stars::proto::GCEndGame;
use poem_stars::proto::GCStartMatch;
use poem_stars::proto::GCUpdateGame;
use poem_stars::proto::ProtoData;
use poem_stars::proto::PROTO_CGSTARTMATCH;
use poem_stars::proto::PROTO_GCENDGAME;
use poem_stars::proto::PROTO_GCSTARTMATCH;
use poem_stars::proto::PROTO_GCUPDATEGAME;
use poem_stars::robot::RobotController;
use poem_stars::robottable::RobotTable;
use poem_stars::rng::rng_from_seed;
use poem_stars::server::GameServer;

fn sample_pet() -> PETable {
    let rows = vec![
        PERecord { dmin: 0, dmax: 49, ea_mill: 500, eb_mill: 500, group: 0 },
        PERecord { dmin: 50, dmax: 99, ea_mill: 570, eb_mill: 430, group: 1 },
        PERecord { dmin: 100, dmax: 199, ea_mill: 640, eb_mill: 360, group: 2 },
        PERecord { dmin: 200, dmax: 299, ea_mill: 760, eb_mill: 240, group: 3 },
        PERecord { dmin: 300, dmax: 499, ea_mill: 850, eb_mill: 150, group: 4 },
    ];
    PETable::new(rows)
}

fn bank_records() -> Vec<PoemLineRecord> {
    let mut records = Vec::new();
    for level_id in 1..=20u32 {
        for q in 0..3u32 {
            records.push(PoemLineRecord {
                level_id,
                poem_id: level_id * 100 + q,
                q_sign: q,
                a_sign1: 1,
                a_sign2: 2,
                a_sign3: 3,
                a_sign4: 4,
            });
        }
    }
    records
}

fn controller() -> MatchGameController {
    let robot_ctrl = RobotController::new(RobotTable::new(Vec::new()));
    MatchGameController::new(PoemTable::new(bank_records()), sample_pet(), robot_ctrl, 8000, 10)
}

fn req(id: &str, elo: u32, t: i64) -> MatchRequest {
    MatchRequest {
        endpoint_id: Some(format!("ep-{}", id)),
        player_id: id.to_string(),
        player_name: format!("name-{}", id),
        player_level: 5,
        player_elo_score: elo,
        player_correct_rate: 60,
        timestamp: t,
    }
}

fn opt(id: &str, game_id: &str, index: u32, result: u32) -> CGMatchGameOpt {
    CGMatchGameOpt {
        id: id.to_string(),
        game_id: game_id.to_string(),
        opt_index: index,
        opt_result: result,
    }
}

#[test]
fn start_game_sets_slots_and_deadline() {
    let mut ctrl = controller();
    let mut rng = rng_from_seed(1);
    let p1 = create_player_from_match(req("a", 1000, 0), 0);
    let p2 = create_player_from_match(req("b", 1000, 0), 0);
    let sig = ctrl.start_new_game(&mut rng, p1, p2, 0).expect("game should start");
    match sig {
        Signal::Sync(e1, e2, _payload) => {
            assert_eq!(e1, Some("ep-a".to_string()));
            assert_eq!(e2, Some("ep-b".to_string()));
        },
        Signal::Send(_, _) => panic!("expected a pair sync"),
    }
    assert_eq!(ctrl.game_count(), 1);
    let game = &ctrl.game_map[0];
    assert_eq!(game.id, "a_b_0");
    assert_eq!(game.player1.next_opt_index, 0);
    assert_eq!(game.player1.next_opt_timeout_timestamp, 10500);
    assert_eq!(game.player2.next_opt_timeout_timestamp, 10500);
    assert!(game.is_gaming);
}

#[test]
fn correct_answer_scores_by_remaining_time() {
    let mut ctrl = controller();
    let mut rng = rng_from_seed(1);
    let p1 = create_player_from_match(req("a", 1000, 0), 0);
    let p2 = create_player_from_match(req("b", 1000, 0), 0);
    ctrl.start_new_game(&mut rng, p1, p2, 0).unwrap();
    let gid = ctrl.game_map[0].id.clone();
    // deadline is 10500; answering at 4000 leaves 6500 of the 8000 window:
    // floor(10 * 6500 / 8000) = 8
    ctrl.on_opt(opt("a", &gid, 0, 0), 4000);
    let game = &ctrl.game_map[0];
    assert_eq!(game.player1.game_score, 8);
    assert_eq!(game.player1.next_opt_index, 1);
    assert_eq!(game.player1.opt_bitmap, 0);
    assert_eq!(game.player1.next_opt_timeout_timestamp, 4000 + 8000 + 2500);
    // the other slot is untouched
    assert_eq!(game.player2.next_opt_index, 0);
}

#[test]
fn a_wrong_answer_sets_the_bit_and_scores_nothing() {
    let mut ctrl = controller();
    let mut rng = rng_from_seed(1);
    let p1 = create_player_from_match(req("a", 1000, 0), 0);
    let p2 = create_player_from_match(req("b", 1000, 0), 0);
    ctrl.start_new_game(&mut rng, p1, p2, 0).unwrap();
    let gid = ctrl.game_map[0].id.clone();
    ctrl.on_opt(opt("a", &gid, 0, 1), 4000);
    let game = &ctrl.game_map[0];
    assert_eq!(game.player1.game_score, 0);
    assert_eq!(game.player1.next_opt_index, 1);
    assert_eq!(game.player1.opt_bitmap, 1);
}

#[test]
fn out_of_order_op_changes_nothing() {
    let mut ctrl = controller();
    let mut rng = rng_from_seed(1);
    let p1 = create_player_from_match(req("a", 1000, 0), 0);
    let p2 = create_player_from_match(req("b", 1000, 0), 0);
    ctrl.start_new_game(&mut rng, p1, p2, 0).unwrap();
    let gid = ctrl.game_map[0].id.clone();
    // the slot awaits index 0; an op for index 5 is ignored
    ctrl.on_opt(opt("a", &gid, 5, 0), 4000);
    let game = &ctrl.game_map[0];
    assert_eq!(game.player1.next_opt_index, 0);
    assert_eq!(game.player1.opt_bitmap, 0);
    assert_eq!(game.player1.game_score, 0);
    assert_eq!(game.player1.next_opt_timeout_timestamp, 10500);
}

#[test]
fn a_missed_deadline_times_the_question_out() {
    let mut ctrl = controller();
    let mut rng = rng_from_seed(1);
    let p1 = create_player_from_match(req("a", 1000, 0), 0);
    let p2 = create_player_from_match(req("b", 1000, 0), 0);
    ctrl.start_new_game(&mut rng, p1, p2, 0).unwrap();
    // past the 10500 deadline both slots advance with bit 0 set
    let signals = ctrl.update_games(&mut rng, 10501).expect("a sync frame is due");
    assert_eq!(signals.len(), 1);
    let game = &ctrl.game_map[0];
    assert_eq!(game.player1.next_opt_index, 1);
    assert_eq!(game.player1.opt_bitmap, 1);
    assert_eq!(game.player2.next_opt_index, 1);
    assert_eq!(game.player2.opt_bitmap, 1);
    assert_eq!(game.player1.next_opt_timeout_timestamp, 10501 + 8000 + 2500);
    assert!(game.is_gaming);
}

#[test]
fn a_finished_game_emits_one_end_frame_and_leaves() {
    let mut ctrl = controller();
    let mut rng = rng_from_seed(1);
    let p1 = create_player_from_match(req("a", 1000, 0), 0);
    let p2 = create_player_from_match(req("b", 1000, 0), 0);
    ctrl.start_new_game(&mut rng, p1, p2, 0).unwrap();
    let gid = ctrl.game_map[0].id.clone();
    // answer question 0 correctly for player a at 4000 (8 points), then let
    // every later question time out for both players
    ctrl.on_opt(opt("a", &gid, 0, 0), 4000);
    let mut t: i64 = 0;
    let mut last_signals: Vec<Signal> = Vec::new();
    let mut rounds = 0;
    while ctrl.game_count() > 0 {
        t += 10501;
        if let Some(sigs) = ctrl.update_games(&mut rng, t) {
            last_signals = sigs;
        }
        rounds += 1;
        assert!(rounds < 30, "the game should end within the timeout budget");
    }
    // the final tick carried a sync frame and exactly one end frame
    assert_eq!(last_signals.len(), 2);
    // player a won with 8 points: level 5 -> 6, Elo 1000 -> 1016;
    // player b lost: level stays 5, Elo 1000 -> 984
    let expected_end = ProtoData::gc_to_json_string(
        PROTO_GCENDGAME,
        GCEndGame {
            game_id: gid.clone(),
            player1_id: "a".to_string(),
            player1_name: "name-a".to_string(),
            player1_opt_bitmap: 0b1111111110,
            player1_game_score: 8,
            player1_new_elo_score: 1016,
            player1_new_level: 6,
            player2_id: "b".to_string(),
            player2_name: "name-b".to_string(),
            player2_opt_bitmap: 0b1111111111,
            player2_game_score: 0,
            player2_new_elo_score: 984,
            player2_new_level: 5,
        },
    )
    .unwrap();
    match &last_signals[1] {
        Signal::Sync(e1, e2, payload) => {
            assert_eq!(e1, &Some("ep-a".to_string()));
            assert_eq!(e2, &Some("ep-b".to_string()));
            assert_eq!(payload, &expected_end);
        },
        Signal::Send(_, _) => panic!("expected a pair sync"),
    }
    // both progress rows were queued, in slot order, before the game count
    let events = ctrl.drain_redis_events();
    let progress: Vec<&RedisOpt> = events
        .iter()
        .filter(|e| matches!(e, RedisOpt::GamePlayerData(_, _)))
        .collect();
    assert_eq!(progress.len(), 2);
    match progress[0] {
        RedisOpt::GamePlayerData(key, level) => {
            assert_eq!(key, "a_name-a");
            assert_eq!(*level, 6);
        },
        _ => unreachable!(),
    }
    match progress[1] {
        RedisOpt::GamePlayerData(key, level) => {
            assert_eq!(key, "b_name-b");
            assert_eq!(*level, 5);
        },
        _ => unreachable!(),
    }
}

fn start_match_frame(id: &str, name: &str, level: u32, elo: u32, rate: u32) -> String {
    ProtoData::gc_to_json_string(
        PROTO_CGSTARTMATCH,
        CGStartMatch {
            id: id.to_string(),
            name: name.to_string(),
            level,
            elo_score: elo,
            correct_rate: rate,
        },
    )
    .unwrap()
}

fn server() -> GameServer {
    let match_controller = MatchController::new(sample_pet());
    GameServer::new(match_controller, controller(), 0)
}

#[test]
fn duplicate_match_request_is_refused() {
    let mut srv = server();
    let frame = start_match_frame("p9", "Nine", 5, 1000, 60);
    let r1 = srv.handle_message("ep-9".to_string(), frame.clone(), 10);
    assert_eq!(r1.len(), 1);
    let accept = ProtoData::gc_to_json_string(PROTO_GCSTARTMATCH, GCStartMatch { code: 0 })
        .unwrap();
    match &r1[0] {
        Signal::Send(ep, payload) => {
            assert_eq!(ep, "ep-9");
            assert_eq!(payload, &accept);
        },
        Signal::Sync(_, _, _) => panic!("expected a direct reply"),
    }
    // the same player again, before pairing: refused, pool unchanged
    let r2 = srv.handle_message("ep-9".to_string(), frame, 20);
    assert_eq!(r2.len(), 1);
    let refuse = ProtoData::gc_to_json_string(PROTO_GCSTARTMATCH, GCStartMatch { code: -1 })
        .unwrap();
    match &r2[0] {
        Signal::Send(ep, payload) => {
            assert_eq!(ep, "ep-9");
            assert_eq!(payload, &refuse);
        },
        Signal::Sync(_, _, _) => panic!("expected a direct reply"),
    }
    assert_eq!(srv.match_controller.match_vec.len(), 1);
}

#[test]
fn two_players_get_paired_by_a_tick() {
    let mut srv = server();
    let mut rng = rng_from_seed(3);
    srv.handle_message("ep-a".to_string(), start_match_frame("a", "A", 5, 1000, 60), 0);
    srv.handle_message("ep-b".to_string(), start_match_frame("b", "B", 5, 1000, 60), 10);
    // before the tick period nothing runs
    assert_eq!(srv.tick(&mut rng, 11).len(), 0);
    let sigs = srv.tick(&mut rng, 44);
    assert_eq!(sigs.len(), 1);
    match &sigs[0] {
        Signal::Sync(e1, e2, _payload) => {
            assert_eq!(e1, &Some("ep-a".to_string()));
            assert_eq!(e2, &Some("ep-b".to_string()));
        },
        Signal::Send(_, _) => panic!("expected a game start sync"),
    }
    assert_eq!(srv.match_game_controller.game_count(), 1);
}

#[test]
fn a_lone_player_gets_a_bot_and_the_game_runs_out() {
    let mut srv = server();
    let mut rng = rng_from_seed(8);
    srv.handle_message("ep-solo".to_string(), start_match_frame("solo", "Solo", 5, 1200, 60), 0);
    // nothing before the fallback deadline
    assert_eq!(srv.tick(&mut rng, 4500).len(), 0);
    assert_eq!(srv.match_game_controller.game_count(), 0);
    let sigs = srv.tick(&mut rng, 4534);
    assert_eq!(sigs.len(), 1);
    assert_eq!(srv.match_game_controller.game_count(), 1);
    // the bot opponent stays within ten Elo points
    {
        let game = &srv.match_game_controller.game_map[0];
        assert!(game.player2.endpoint_id.is_none());
        assert!((1190..=1210).contains(&game.player2.player_elo_score));
        assert!((40..=80).contains(&game.player2.player_correct_rate));
        assert!(game.player2.robot.is_some());
    }
    // run the game to its end; the bot answers and the human times out
    let mut t: i64 = 4534;
    let mut rounds = 0;
    while srv.match_game_controller.game_count() > 0 {
        t += 10501;
        srv.tick(&mut rng, t);
        rounds += 1;
        assert!(rounds < 40, "the bot game should end");
    }
    let events = srv.match_game_controller.drain_redis_events();
    let progress = events
        .iter()
        .filter(|e| matches!(e, RedisOpt::GamePlayerData(_, _)))
        .count();
    assert_eq!(progress, 2);
}

#[test]
fn update_frame_reports_both_slots_exactly() {
    let mut ctrl = controller();
    let mut rng = rng_from_seed(1);
    let p1 = create_player_from_match(req("a", 1000, 0), 0);
    let p2 = create_player_from_match(req("b", 1000, 0), 0);
    ctrl.start_new_game(&mut rng, p1, p2, 0).unwrap();
    let gid = ctrl.game_map[0].id.clone();
    ctrl.on_opt(opt("a", &gid, 0, 1), 4000);
    let signals = ctrl.update_games(&mut rng, 5000).expect("the dirty game syncs");
    assert_eq!(signals.len(), 1);
    let expected = ProtoData::gc_to_json_string(
        PROTO_GCUPDATEGAME,
        GCUpdateGame {
            game_id: gid,
            player1_id: "a".to_string(),
            player1_name: "name-a".to_string(),
            player1_next_opt_index: 1,
            player1_opt_bitmap: 1,
            player2_id: "b".to_string(),
            player2_name: "name-b".to_string(),
            player2_next_opt_index: 0,
            player2_opt_bitmap: 0,
        },
    )
    .unwrap();
    match &signals[0] {
        Signal::Sync(_, _, payload) => assert_eq!(payload, &expected),
        Signal::Send(_, _) => panic!("expected a pair sync"),
    }
}
