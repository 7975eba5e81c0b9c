use poem_stars::b64::b64_decode;
use poem_stars::b64::b64_encode;
use poem_stars::jsontext::chars_to_string;
use poem_stars::jsontext::parse_int;
use poem_stars::jsontext::parse_uint;
use poem_stars::jsontext::str_to_chars;
use poem_stars::proto::CGMatchGameOpt;
use poem_stars::proto::CGStartMatch;
use poem_stars::proto::GCStartMatch;
use poem_stars::proto::GCProtoBase64;
use poem_stars::proto::ProtoData;
use poem_stars::proto::PROTO_CGSTARTMATCH;
use poem_stars::proto::PROTO_GCSTARTMATCH;

#[test]
fn base64_encode_exact() {
    assert_eq!(b64_encode("a"), "YQ==");
    assert_eq!(b64_encode(""), "");
    assert_eq!(b64_encode("Man"), "TWFu");
}

#[test]
fn base64_decode_inverts_encode() {
    assert_eq!(b64_decode("YQ=="), Some("a".to_string()));
    let text = "hello, \"world\" \\ with strange chars \n\t";
    let enc = b64_encode(text);
    assert_eq!(b64_decode(&enc), Some(text.to_string()));
}

#[test]
fn chars_to_string_builds_text() {
    let v = vec!['a', 'b', 'c'];
    assert_eq!(chars_to_string(&v), "abc");
    assert_eq!(chars_to_string(&str_to_chars("xyz")), "xyz");
}

#[test]
fn frame_text_is_canonical() {
    let pd = ProtoData::new(7, "abc".to_string());
    assert_eq!(pd.frame_to_json(), "{\"proto_id\":7,\"proto_json_str\":\"abc\"}");
}

#[test]
fn gc_start_match_json_text() {
    let rec = GCStartMatch { code: -1 };
    let chars = rec.to_json_chars();
    assert_eq!(chars_to_string(&chars), "{\"code\":-1}");
    let rec0 = GCStartMatch { code: 0 };
    assert_eq!(chars_to_string(&rec0.to_json_chars()), "{\"code\":0}");
}

#[test]
fn cg_start_match_json_text_with_escapes() {
    let rec = CGStartMatch {
        id: "p\"1".to_string(),
        name: "a\\b\nc".to_string(),
        level: 3,
        elo_score: 128,
        correct_rate: 78,
    };
    let text = chars_to_string(&rec.to_json_chars());
    assert_eq!(
        text,
        "{\"id\":\"p\\\"1\",\"name\":\"a\\\\b\\nc\",\"level\":3,\"elo_score\":128,\"correct_rate\":78}"
    );
}

#[test]
fn envelope_roundtrip_start_match() {
    let rec = CGStartMatch {
        id: "player-1".to_string(),
        name: "Li \"Bai\"\t\\poet\r\n".to_string(),
        level: 12,
        elo_score: 1490,
        correct_rate: 66,
    };
    let wire = ProtoData::gc_to_json_string(
        PROTO_CGSTARTMATCH,
        CGStartMatch {
            id: rec.id.clone(),
            name: rec.name.clone(),
            level: rec.level,
            elo_score: rec.elo_score,
            correct_rate: rec.correct_rate,
        },
    )
    .unwrap();
    let (proto_id, payload) = ProtoData::cg_to_proto_json_str(wire).unwrap();
    assert_eq!(proto_id, PROTO_CGSTARTMATCH);
    let back = ProtoData::deserialize_start_match(payload).unwrap();
    assert_eq!(back.id, rec.id);
    assert_eq!(back.name, rec.name);
    assert_eq!(back.level, rec.level);
    assert_eq!(back.elo_score, rec.elo_score);
    assert_eq!(back.correct_rate, rec.correct_rate);
}

#[test]
fn envelope_roundtrip_reply() {
    let wire = ProtoData::gc_to_json_string(PROTO_GCSTARTMATCH, GCStartMatch { code: -1 })
        .unwrap();
    let (proto_id, payload) = ProtoData::cg_to_proto_json_str(wire).unwrap();
    assert_eq!(proto_id, PROTO_GCSTARTMATCH);
    assert_eq!(b64_decode(&payload), Some("{\"code\":-1}".to_string()));
}

#[test]
fn deserialize_game_opt_from_canonical_text() {
    let inner = "{\"id\":\"p1\",\"game_id\":\"g7\",\"opt_index\":3,\"opt_result\":0}";
    let payload = b64_encode(inner);
    let opt: CGMatchGameOpt = ProtoData::deserialize_game_opt(payload).unwrap();
    assert_eq!(opt.id, "p1");
    assert_eq!(opt.game_id, "g7");
    assert_eq!(opt.opt_index, 3);
    assert_eq!(opt.opt_result, 0);
}

#[test]
fn malformed_frames_are_dropped() {
    assert!(ProtoData::cg_to_proto_json_str("not json".to_string()).is_none());
    assert!(ProtoData::cg_to_proto_json_str("{\"proto_id\":-2,\"proto_json_str\":\"x\"}".to_string())
        .is_none());
    assert!(ProtoData::deserialize_start_match("!!!not base64!!!".to_string()).is_none());
    let wrong_shape = b64_encode("{\"id\":3}");
    assert!(ProtoData::deserialize_start_match(wrong_shape).is_none());
}

#[test]
fn parse_numbers() {
    let s = str_to_chars("123x");
    assert_eq!(parse_uint(&s, 0), Some((123, 3)));
    let neg = str_to_chars("-45,");
    assert_eq!(parse_int(&neg, 0), Some((-45, 3)));
    let too_long = str_to_chars("1234567890123456789012345");
    assert_eq!(parse_uint(&too_long, 0), None);
    let empty = str_to_chars("x");
    assert_eq!(parse_uint(&empty, 0), None);
}

#[test]
fn control_characters_escape_and_return() {
    let rec = CGStartMatch {
        id: "p".to_string(),
        name: "a\u{01}b\u{1f}c".to_string(),
        level: 1,
        elo_score: 2,
        correct_rate: 3,
    };
    let text = chars_to_string(&rec.to_json_chars());
    assert!(text.contains("\\u0001"));
    assert!(text.contains("\\u001f"));
    let payload = b64_encode(&text);
    let back = ProtoData::deserialize_start_match(payload).unwrap();
    assert_eq!(back.name, "a\u{01}b\u{1f}c");
}

#[test]
fn fractional_wire_numbers_truncate() {
    let inner =
        "{\"id\":\"p\",\"name\":\"n\",\"level\":3,\"elo_score\":128.75,\"correct_rate\":78.0}";
    let payload = b64_encode(inner);
    let rec = ProtoData::deserialize_start_match(payload).unwrap();
    assert_eq!(rec.elo_score, 128);
    assert_eq!(rec.correct_rate, 78);
    let s = str_to_chars("7.25x");
    assert_eq!(parse_int(&s, 0), Some((7, 4)));
}
