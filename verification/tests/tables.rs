use poem_stars::jsontext::chars_to_string;
use poem_stars::petable::PERecord;
use poem_stars::petable::PETable;
use poem_stars::poemtable::script_to_json;
use poem_stars::poemtable::shuffle_u32;
use poem_stars::poemtable::PoemLineRecord;
use poem_stars::poemtable::PoemTable;
use poem_stars::robot::opt_result_from_draw;
use poem_stars::robot::RobotController;
use poem_stars::robottable::RobotRecord;
use poem_stars::robottable::RobotTable;
use poem_stars::rng::rng_below;
use poem_stars::rng::rng_from_seed;

fn sample_pet() -> PETable {
    let rows = vec![
        PERecord { dmin: 0, dmax: 49, ea_mill: 500, eb_mill: 500, group: 0 },
        PERecord { dmin: 50, dmax: 99, ea_mill: 570, eb_mill: 430, group: 1 },
        PERecord { dmin: 100, dmax: 199, ea_mill: 640, eb_mill: 360, group: 2 },
        PERecord { dmin: 200, dmax: 299, ea_mill: 760, eb_mill: 240, group: 3 },
        PERecord { dmin: 300, dmax: 499, ea_mill: 850, eb_mill: 150, group: 4 },
    ];
    PETable::new(rows)
}

#[test]
fn pet_lookup_hits_the_covering_row() {
    let pet = sample_pet();
    assert_eq!(pet.get_ea_eb(1000, 1000), (500, 500, 0));
    assert_eq!(pet.get_ea_eb(1000, 1400), (850, 150, 4));
    assert_eq!(pet.get_ea_eb(1400, 1000), (850, 150, 4));
    assert_eq!(pet.get_ea_eb(1000, 1075), (570, 430, 1));
}

#[test]
fn pet_lookup_sentinel_outside_all_rows() {
    let pet = sample_pet();
    assert_eq!(pet.get_ea_eb(100, 1100), (1000, 0, 9));
}

#[test]
fn script_json_is_exact() {
    let rec = PoemLineRecord {
        level_id: 1,
        poem_id: 2,
        q_sign: 3,
        a_sign1: 4,
        a_sign2: 5,
        a_sign3: 6,
        a_sign4: 7,
    };
    let json = script_to_json(&vec![rec]);
    assert_eq!(
        json,
        "[{\"level_id\":1,\"poem_id\":2,\"q_sign\":3,\"a_sign1\":4,\"a_sign2\":5,\"a_sign3\":6,\"a_sign4\":7}]"
    );
}

#[test]
fn shuffle_keeps_the_values() {
    let mut v: Vec<u32> = (0..40).collect();
    let mut rng = rng_from_seed(11);
    shuffle_u32(&mut v, &mut rng);
    assert_eq!(v.len(), 40);
    let mut sorted = v.clone();
    sorted.sort();
    let expect: Vec<u32> = (0..40).collect();
    assert_eq!(sorted, expect);
}

fn bank_records() -> Vec<PoemLineRecord> {
    let mut records = Vec::new();
    for level_id in 1..=20u32 {
        for q in 0..3u32 {
            records.push(PoemLineRecord {
                level_id,
                poem_id: level_id * 100 + q,
                q_sign: q,
                a_sign1: 1,
                a_sign2: 2,
                a_sign3: 3,
                a_sign4: 4,
            });
        }
    }
    records
}

#[test]
fn question_bank_samples_a_full_script() {
    let mut table = PoemTable::new(bank_records());
    let mut rng = rng_from_seed(5);
    let script = table.get_random_game_data(&mut rng, 3, 10).unwrap();
    assert_eq!(script.len(), 10);
    for rec in &script {
        assert!(rec.level_id >= 1 && rec.level_id <= 20);
    }
}

#[test]
fn question_bank_fails_on_an_empty_band() {
    // levels 21..=30 draw from level ids 200..=400, none of which exist here
    let mut table = PoemTable::new(bank_records());
    let mut rng = rng_from_seed(5);
    assert!(table.get_random_game_data(&mut rng, 25, 10).is_none());
}

#[test]
fn robot_pool_hands_out_and_takes_back() {
    let records = vec![
        RobotRecord { id: "r1".to_string(), name: "BotOne".to_string() },
        RobotRecord { id: "r2".to_string(), name: "BotTwo".to_string() },
    ];
    let mut table = RobotTable::new(records);
    let mut rng = rng_from_seed(1);
    let (id, name) = table.get_id_name(&mut rng);
    assert_eq!(id, "r1");
    assert_eq!(name, "BotOne");
    table.back_id_name(id, name);
    // r1 went back to the front of queue 0, and the next take reads queue 1
    let (id2, name2) = table.get_id_name(&mut rng);
    assert_eq!(id2, "r2");
    assert_eq!(name2, "BotTwo");
}

#[test]
fn empty_robot_pool_synthesizes_identities() {
    let mut table = RobotTable::new(Vec::new());
    let mut rng = rng_from_seed(9);
    let (id, name) = table.get_id_name(&mut rng);
    assert_eq!(id.chars().count(), 32);
    assert!(name.starts_with("Player"));
    let tail: String = name.chars().skip(6).collect();
    let num: u64 = tail.parse().unwrap();
    assert!((100000..999990).contains(&num));
}

#[test]
fn bot_answer_decision_follows_the_draw() {
    // rate 40: draws 0..=59 answer wrong, 60..=99 answer right
    assert_eq!(opt_result_from_draw(40, 59), 1);
    assert_eq!(opt_result_from_draw(40, 60), 0);
    assert_eq!(opt_result_from_draw(80, 19), 1);
    assert_eq!(opt_result_from_draw(80, 20), 0);
}

#[test]
fn seeded_rng_is_reproducible() {
    let mut a = rng_from_seed(42);
    let mut b = rng_from_seed(42);
    for _ in 0..20 {
        assert_eq!(rng_below(&mut a, 1000), rng_below(&mut b, 1000));
    }
}

#[test]
fn bot_factory_is_reproducible_under_a_seed() {
    let make = || {
        let table = RobotTable::new(vec![RobotRecord {
            id: "b1".to_string(),
            name: "First".to_string(),
        }]);
        let mut ctrl = RobotController::new(table);
        let mut rng = rng_from_seed(7);
        ctrl.get_robot(&mut rng, 4, 1200, 70, 8000)
    };
    let r1 = make();
    let r2 = make();
    assert_eq!(r1.id, r2.id);
    assert_eq!(r1.level, r2.level);
    assert_eq!(r1.elo_score, r2.elo_score);
    assert_eq!(r1.correct_rate, r2.correct_rate);
    assert_eq!(r1.next_early_opt_time, r2.next_early_opt_time);
    assert!(r1.level == 4);
    assert!((1190..=1210).contains(&r1.elo_score));
    assert!((40..=80).contains(&r1.correct_rate));
    assert!((1..=4000).contains(&r1.next_early_opt_time));
}
