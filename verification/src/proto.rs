//! The wire protocol: typed records, their canonical JSON text, and the
//! envelope `{"proto_id":…,"proto_json_str":…}` whose payload is the base64
//! of the inner record's JSON. Encoding is exact and decoding is proved to
//! invert it (see the `*_roundtrip` lemmas).

use vstd::prelude::*;

verus! {

use crate::b64::b64_decode;
use crate::b64::b64_encode;
use crate::b64::b64_of;
use crate::jsontext::AtomModel;
use crate::jsontext::FieldKind;
use crate::jsontext::JsonAtom;
use crate::jsontext::atoms_of;
use crate::jsontext::cfg_u32_max;
use crate::jsontext::chars_to_string;
use crate::jsontext::dec_obj;
use crate::jsontext::efields_view;
use crate::jsontext::enc_obj;
use crate::jsontext::encode_obj;
use crate::jsontext::fields_wf;
use crate::jsontext::int_magnitude_bound;
use crate::jsontext::kinds_of;
use crate::jsontext::kinds_view;
use crate::jsontext::lemma_dec_obj_of_enc;
use crate::jsontext::lemma_pow10_18;
use crate::jsontext::parse_obj;
use crate::jsontext::plain_key;
use crate::jsontext::plain_key_char;
use crate::jsontext::str_to_chars;

pub const PROTO_CGSTARTMATCH: u64 = 1001;

pub const PROTO_GCSTARTMATCH: u64 = 2001;

pub const PROTO_CGMATCHGAMEOPT: u64 = 1002;

pub const PROTO_GCSTARTGAME: u64 = 2002;

pub const PROTO_GCUPDATEGAME: u64 = 2003;

pub const PROTO_GCENDGAME: u64 = 2004;

/// A record that can frame itself as base64-encoded canonical JSON.
pub trait GCProtoBase64 {
    /// The record's canonical JSON text.
    spec fn json_view(&self) -> Seq<char>;

    fn to_base64_json_str(&self) -> (r: Option<String>)
        ensures
            r matches Some(s) && s@ == b64_of(self.json_view()),
    ;
}

// ---------------------------------------------------------------------------
// CGStartMatch
// ---------------------------------------------------------------------------
/// Client request to enter matchmaking. `correct_rate` is a percentage.
pub struct CGStartMatch {
    pub id: String,
    pub name: String,
    pub level: u32,
    pub elo_score: u32,
    pub correct_rate: u32,
}

pub struct CGStartMatchV {
    pub id: Seq<char>,
    pub name: Seq<char>,
    pub level: u32,
    pub elo_score: u32,
    pub correct_rate: u32,
}

impl View for CGStartMatch {
    type V = CGStartMatchV;

    open spec fn view(&self) -> CGStartMatchV {
        CGStartMatchV {
            id: self.id@,
            name: self.name@,
            level: self.level,
            elo_score: self.elo_score,
            correct_rate: self.correct_rate,
        }
    }
}

pub open spec fn cg_start_match_fields(v: CGStartMatchV) -> Seq<(Seq<char>, AtomModel)> {
    seq![
        ("id"@, AtomModel::S(v.id)),
        ("name"@, AtomModel::S(v.name)),
        ("level"@, AtomModel::I(v.level as int)),
        ("elo_score"@, AtomModel::I(v.elo_score as int)),
        ("correct_rate"@, AtomModel::I(v.correct_rate as int)),
    ]
}

pub open spec fn cg_start_match_kinds() -> Seq<FieldKind> {
    seq![
        FieldKind { key: "id"@, is_string: true },
        FieldKind { key: "name"@, is_string: true },
        FieldKind { key: "level"@, is_string: false },
        FieldKind { key: "elo_score"@, is_string: false },
        FieldKind { key: "correct_rate"@, is_string: false },
    ]
}

pub proof fn lemma_cg_start_match_fields_wf(v: CGStartMatchV)
    ensures
        fields_wf(cg_start_match_fields(v)),
        kinds_of(cg_start_match_fields(v)) == cg_start_match_kinds(),
{
    reveal_strlit("id");
    reveal_strlit("name");
    reveal_strlit("level");
    reveal_strlit("elo_score");
    reveal_strlit("correct_rate");
    lemma_pow10_18();
    assert(plain_key("id"@)) by {
        assert forall|i: int| 0 <= i < "id"@.len() implies plain_key_char(#[trigger] "id"@[i]) by {}
    }
    assert(plain_key("name"@)) by {
        assert forall|i: int| 0 <= i < "name"@.len() implies plain_key_char(
            #[trigger] "name"@[i],
        ) by {}
    }
    assert(plain_key("level"@)) by {
        assert forall|i: int| 0 <= i < "level"@.len() implies plain_key_char(
            #[trigger] "level"@[i],
        ) by {}
    }
    assert(plain_key("elo_score"@)) by {
        assert forall|i: int| 0 <= i < "elo_score"@.len() implies plain_key_char(
            #[trigger] "elo_score"@[i],
        ) by {}
    }
    assert(plain_key("correct_rate"@)) by {
        assert forall|i: int| 0 <= i < "correct_rate"@.len() implies plain_key_char(
            #[trigger] "correct_rate"@[i],
        ) by {}
    }
    assert(kinds_of(cg_start_match_fields(v)) =~~= cg_start_match_kinds());
}

pub open spec fn spec_dec_cg_start_match(t: Seq<char>) -> Option<CGStartMatchV> {
    match dec_obj(t, cg_start_match_kinds()) {
        Some(vs) => {
            if vs.len() == 5 {
                match (vs[0], vs[1], vs[2], vs[3], vs[4]) {
                    (
                        AtomModel::S(id),
                        AtomModel::S(name),
                        AtomModel::I(level),
                        AtomModel::I(elo),
                        AtomModel::I(rate),
                    ) => {
                        if 0 <= level <= cfg_u32_max() && 0 <= elo <= cfg_u32_max() && 0 <= rate
                            <= cfg_u32_max() {
                            Some(
                                CGStartMatchV {
                                    id,
                                    name,
                                    level: level as u32,
                                    elo_score: elo as u32,
                                    correct_rate: rate as u32,
                                },
                            )
                        } else {
                            None
                        }
                    },
                    _ => None,
                }
            } else {
                None
            }
        },
        None => None,
    }
}

/// Decoding inverts encoding for `CGStartMatch`.
pub proof fn lemma_cg_start_match_roundtrip(v: CGStartMatchV)
    ensures
        spec_dec_cg_start_match(enc_obj(cg_start_match_fields(v))) == Some(v),
{
    lemma_cg_start_match_fields_wf(v);
    lemma_dec_obj_of_enc(cg_start_match_fields(v));
    let vs = atoms_of(cg_start_match_fields(v));
    assert(vs[0] == AtomModel::S(v.id));
    assert(vs[1] == AtomModel::S(v.name));
    assert(vs[2] == AtomModel::I(v.level as int));
    assert(vs[3] == AtomModel::I(v.elo_score as int));
    assert(vs[4] == AtomModel::I(v.correct_rate as int));
}

impl CGStartMatch {
    /// The canonical JSON text of this record.
    pub fn to_json_chars(&self) -> (r: Vec<char>)
        ensures
            r@ == enc_obj(cg_start_match_fields(self@)),
    {
        let mut fields: Vec<(Vec<char>, JsonAtom)> = Vec::new();
        fields.push((str_to_chars("id"), JsonAtom::S(self.id.clone())));
        fields.push((str_to_chars("name"), JsonAtom::S(self.name.clone())));
        fields.push((str_to_chars("level"), JsonAtom::I(self.level as i64)));
        fields.push((str_to_chars("elo_score"), JsonAtom::I(self.elo_score as i64)));
        fields.push((str_to_chars("correct_rate"), JsonAtom::I(self.correct_rate as i64)));
        proof {
            lemma_cg_start_match_fields_wf(self@);
            assert(efields_view(fields@) =~~= cg_start_match_fields(self@));
        }
        encode_obj(&fields)
    }

    /// Decode the canonical JSON text of such a record.
    pub fn from_json_chars(t: &Vec<char>) -> (r: Option<CGStartMatch>)
        ensures
            match r {
                Some(rec) => spec_dec_cg_start_match(t@) == Some(rec@),
                None => spec_dec_cg_start_match(t@) is None,
            },
    {
        let mut kinds: Vec<(Vec<char>, bool)> = Vec::new();
        kinds.push((str_to_chars("id"), true));
        kinds.push((str_to_chars("name"), true));
        kinds.push((str_to_chars("level"), false));
        kinds.push((str_to_chars("elo_score"), false));
        kinds.push((str_to_chars("correct_rate"), false));
        assert(kinds_view(kinds@) =~~= cg_start_match_kinds());
        let vs = match parse_obj(t, &kinds) {
            Some(vs) => vs,
            None => {
                return None;
            },
        };
        if vs.len() != 5 {
            return None;
        }
        let id = match &vs[0] {
            JsonAtom::S(s) => s.clone(),
            JsonAtom::I(_) => {
                return None;
            },
        };
        let name = match &vs[1] {
            JsonAtom::S(s) => s.clone(),
            JsonAtom::I(_) => {
                return None;
            },
        };
        let level = match &vs[2] {
            JsonAtom::I(x) => {
                if 0 <= *x && *x <= 4294967295i64 {
                    *x as u32
                } else {
                    return None;
                }
            },
            JsonAtom::S(_) => {
                return None;
            },
        };
        let elo_score = match &vs[3] {
            JsonAtom::I(x) => {
                if 0 <= *x && *x <= 4294967295i64 {
                    *x as u32
                } else {
                    return None;
                }
            },
            JsonAtom::S(_) => {
                return None;
            },
        };
        let correct_rate = match &vs[4] {
            JsonAtom::I(x) => {
                if 0 <= *x && *x <= 4294967295i64 {
                    *x as u32
                } else {
                    return None;
                }
            },
            JsonAtom::S(_) => {
                return None;
            },
        };
        Some(CGStartMatch { id, name, level, elo_score, correct_rate })
    }
}

impl GCProtoBase64 for CGStartMatch {
    open spec fn json_view(&self) -> Seq<char> {
        enc_obj(cg_start_match_fields(self@))
    }

    fn to_base64_json_str(&self) -> (r: Option<String>)
        ensures
            r matches Some(s) && s@ == b64_of(self.json_view()),
    {
        let chars = self.to_json_chars();
        let text = chars_to_string(&chars);
        Some(b64_encode(text.as_str()))
    }
}

// ---------------------------------------------------------------------------
// GCStartMatch
// ---------------------------------------------------------------------------
/// Server reply to a match request: 0 accepted, -1 already active.
pub struct GCStartMatch {
    pub code: i32,
}

pub struct GCStartMatchV {
    pub code: i32,
}

impl View for GCStartMatch {
    type V = GCStartMatchV;

    open spec fn view(&self) -> GCStartMatchV {
        GCStartMatchV { code: self.code }
    }
}

pub open spec fn gc_start_match_fields(v: GCStartMatchV) -> Seq<(Seq<char>, AtomModel)> {
    seq![("code"@, AtomModel::I(v.code as int))]
}

pub open spec fn gc_start_match_kinds() -> Seq<FieldKind> {
    seq![FieldKind { key: "code"@, is_string: false }]
}

pub proof fn lemma_gc_start_match_fields_wf(v: GCStartMatchV)
    ensures
        fields_wf(gc_start_match_fields(v)),
        kinds_of(gc_start_match_fields(v)) == gc_start_match_kinds(),
{
    reveal_strlit("code");
    lemma_pow10_18();
    assert(plain_key("code"@)) by {
        assert forall|i: int| 0 <= i < "code"@.len() implies plain_key_char(
            #[trigger] "code"@[i],
        ) by {}
    }
    assert(kinds_of(gc_start_match_fields(v)) =~~= gc_start_match_kinds());
}

pub open spec fn spec_dec_gc_start_match(t: Seq<char>) -> Option<GCStartMatchV> {
    match dec_obj(t, gc_start_match_kinds()) {
        Some(vs) => {
            if vs.len() == 1 {
                match vs[0] {
                    AtomModel::I(code) => {
                        if -2147483648 <= code <= 2147483647 {
                            Some(GCStartMatchV { code: code as i32 })
                        } else {
                            None
                        }
                    },
                    _ => None,
                }
            } else {
                None
            }
        },
        None => None,
    }
}

/// Decoding inverts encoding for `GCStartMatch`.
pub proof fn lemma_gc_start_match_roundtrip(v: GCStartMatchV)
    ensures
        spec_dec_gc_start_match(enc_obj(gc_start_match_fields(v))) == Some(v),
{
    lemma_gc_start_match_fields_wf(v);
    lemma_dec_obj_of_enc(gc_start_match_fields(v));
    let vs = atoms_of(gc_start_match_fields(v));
    assert(vs[0] == AtomModel::I(v.code as int));
}

impl GCStartMatch {
    pub fn to_json_chars(&self) -> (r: Vec<char>)
        ensures
            r@ == enc_obj(gc_start_match_fields(self@)),
    {
        let mut fields: Vec<(Vec<char>, JsonAtom)> = Vec::new();
        fields.push((str_to_chars("code"), JsonAtom::I(self.code as i64)));
        proof {
            lemma_gc_start_match_fields_wf(self@);
            assert(efields_view(fields@) =~~= gc_start_match_fields(self@));
        }
        encode_obj(&fields)
    }
}

impl GCProtoBase64 for GCStartMatch {
    open spec fn json_view(&self) -> Seq<char> {
        enc_obj(gc_start_match_fields(self@))
    }

    fn to_base64_json_str(&self) -> (r: Option<String>)
        ensures
            r matches Some(s) && s@ == b64_of(self.json_view()),
    {
        let chars = self.to_json_chars();
        let text = chars_to_string(&chars);
        Some(b64_encode(text.as_str()))
    }
}

// ---------------------------------------------------------------------------
// GCStartGame
// ---------------------------------------------------------------------------
/// Server notice that a game starts; `poem_data_str` carries the round's
/// question script as embedded JSON text.
pub struct GCStartGame {
    pub game_id: String,
    pub player1_id: String,
    pub player1_name: String,
    pub player2_id: String,
    pub player2_name: String,
    pub poem_data_str: String,
}

pub struct GCStartGameV {
    pub game_id: Seq<char>,
    pub player1_id: Seq<char>,
    pub player1_name: Seq<char>,
    pub player2_id: Seq<char>,
    pub player2_name: Seq<char>,
    pub poem_data_str: Seq<char>,
}

impl View for GCStartGame {
    type V = GCStartGameV;

    open spec fn view(&self) -> GCStartGameV {
        GCStartGameV {
            game_id: self.game_id@,
            player1_id: self.player1_id@,
            player1_name: self.player1_name@,
            player2_id: self.player2_id@,
            player2_name: self.player2_name@,
            poem_data_str: self.poem_data_str@,
        }
    }
}

pub open spec fn gc_start_game_fields(v: GCStartGameV) -> Seq<(Seq<char>, AtomModel)> {
    seq![
        ("game_id"@, AtomModel::S(v.game_id)),
        ("player1_id"@, AtomModel::S(v.player1_id)),
        ("player1_name"@, AtomModel::S(v.player1_name)),
        ("player2_id"@, AtomModel::S(v.player2_id)),
        ("player2_name"@, AtomModel::S(v.player2_name)),
        ("poem_data_str"@, AtomModel::S(v.poem_data_str)),
    ]
}

pub open spec fn gc_start_game_kinds() -> Seq<FieldKind> {
    seq![
        FieldKind { key: "game_id"@, is_string: true },
        FieldKind { key: "player1_id"@, is_string: true },
        FieldKind { key: "player1_name"@, is_string: true },
        FieldKind { key: "player2_id"@, is_string: true },
        FieldKind { key: "player2_name"@, is_string: true },
        FieldKind { key: "poem_data_str"@, is_string: true },
    ]
}

pub proof fn lemma_gc_start_game_fields_wf(v: GCStartGameV)
    ensures
        fields_wf(gc_start_game_fields(v)),
        kinds_of(gc_start_game_fields(v)) == gc_start_game_kinds(),
{
    reveal_strlit("game_id");
    reveal_strlit("player1_id");
    reveal_strlit("player1_name");
    reveal_strlit("player2_id");
    reveal_strlit("player2_name");
    reveal_strlit("poem_data_str");
    assert(plain_key("game_id"@)) by {
        assert forall|i: int| 0 <= i < "game_id"@.len() implies plain_key_char(
            #[trigger] "game_id"@[i],
        ) by {}
    }
    assert(plain_key("player1_id"@)) by {
        assert forall|i: int| 0 <= i < "player1_id"@.len() implies plain_key_char(
            #[trigger] "player1_id"@[i],
        ) by {}
    }
    assert(plain_key("player1_name"@)) by {
        assert forall|i: int| 0 <= i < "player1_name"@.len() implies plain_key_char(
            #[trigger] "player1_name"@[i],
        ) by {}
    }
    assert(plain_key("player2_id"@)) by {
        assert forall|i: int| 0 <= i < "player2_id"@.len() implies plain_key_char(
            #[trigger] "player2_id"@[i],
        ) by {}
    }
    assert(plain_key("player2_name"@)) by {
        assert forall|i: int| 0 <= i < "player2_name"@.len() implies plain_key_char(
            #[trigger] "player2_name"@[i],
        ) by {}
    }
    assert(plain_key("poem_data_str"@)) by {
        assert forall|i: int| 0 <= i < "poem_data_str"@.len() implies plain_key_char(
            #[trigger] "poem_data_str"@[i],
        ) by {}
    }
    assert(kinds_of(gc_start_game_fields(v)) =~~= gc_start_game_kinds());
}

pub open spec fn spec_dec_gc_start_game(t: Seq<char>) -> Option<GCStartGameV> {
    match dec_obj(t, gc_start_game_kinds()) {
        Some(vs) => {
            if vs.len() == 6 {
                match (vs[0], vs[1], vs[2], vs[3], vs[4], vs[5]) {
                    (
                        AtomModel::S(game_id),
                        AtomModel::S(p1id),
                        AtomModel::S(p1name),
                        AtomModel::S(p2id),
                        AtomModel::S(p2name),
                        AtomModel::S(poem),
                    ) => Some(
                        GCStartGameV {
                            game_id,
                            player1_id: p1id,
                            player1_name: p1name,
                            player2_id: p2id,
                            player2_name: p2name,
                            poem_data_str: poem,
                        },
                    ),
                    _ => None,
                }
            } else {
                None
            }
        },
        None => None,
    }
}

/// Decoding inverts encoding for `GCStartGame`.
pub proof fn lemma_gc_start_game_roundtrip(v: GCStartGameV)
    ensures
        spec_dec_gc_start_game(enc_obj(gc_start_game_fields(v))) == Some(v),
{
    lemma_gc_start_game_fields_wf(v);
    lemma_dec_obj_of_enc(gc_start_game_fields(v));
    let vs = atoms_of(gc_start_game_fields(v));
    assert(vs[0] == AtomModel::S(v.game_id));
    assert(vs[1] == AtomModel::S(v.player1_id));
    assert(vs[2] == AtomModel::S(v.player1_name));
    assert(vs[3] == AtomModel::S(v.player2_id));
    assert(vs[4] == AtomModel::S(v.player2_name));
    assert(vs[5] == AtomModel::S(v.poem_data_str));
}

impl GCStartGame {
    pub fn to_json_chars(&self) -> (r: Vec<char>)
        ensures
            r@ == enc_obj(gc_start_game_fields(self@)),
    {
        let mut fields: Vec<(Vec<char>, JsonAtom)> = Vec::new();
        fields.push((str_to_chars("game_id"), JsonAtom::S(self.game_id.clone())));
        fields.push((str_to_chars("player1_id"), JsonAtom::S(self.player1_id.clone())));
        fields.push((str_to_chars("player1_name"), JsonAtom::S(self.player1_name.clone())));
        fields.push((str_to_chars("player2_id"), JsonAtom::S(self.player2_id.clone())));
        fields.push((str_to_chars("player2_name"), JsonAtom::S(self.player2_name.clone())));
        fields.push((str_to_chars("poem_data_str"), JsonAtom::S(self.poem_data_str.clone())));
        proof {
            lemma_gc_start_game_fields_wf(self@);
            assert(efields_view(fields@) =~~= gc_start_game_fields(self@));
        }
        encode_obj(&fields)
    }
}

impl GCProtoBase64 for GCStartGame {
    open spec fn json_view(&self) -> Seq<char> {
        enc_obj(gc_start_game_fields(self@))
    }

    fn to_base64_json_str(&self) -> (r: Option<String>)
        ensures
            r matches Some(s) && s@ == b64_of(self.json_view()),
    {
        let chars = self.to_json_chars();
        let text = chars_to_string(&chars);
        Some(b64_encode(text.as_str()))
    }
}

// ---------------------------------------------------------------------------
// CGMatchGameOpt
// ---------------------------------------------------------------------------
/// Client answer to one question: which index it answered and how
/// (`opt_result`: 0 correct, 1 incorrect).
pub struct CGMatchGameOpt {
    pub id: String,
    pub game_id: String,
    pub opt_index: u32,
    pub opt_result: u32,
}

pub struct CGMatchGameOptV {
    pub id: Seq<char>,
    pub game_id: Seq<char>,
    pub opt_index: u32,
    pub opt_result: u32,
}

impl View for CGMatchGameOpt {
    type V = CGMatchGameOptV;

    open spec fn view(&self) -> CGMatchGameOptV {
        CGMatchGameOptV {
            id: self.id@,
            game_id: self.game_id@,
            opt_index: self.opt_index,
            opt_result: self.opt_result,
        }
    }
}

pub open spec fn cg_match_game_opt_fields(v: CGMatchGameOptV) -> Seq<(Seq<char>, AtomModel)> {
    seq![
        ("id"@, AtomModel::S(v.id)),
        ("game_id"@, AtomModel::S(v.game_id)),
        ("opt_index"@, AtomModel::I(v.opt_index as int)),
        ("opt_result"@, AtomModel::I(v.opt_result as int)),
    ]
}

pub open spec fn cg_match_game_opt_kinds() -> Seq<FieldKind> {
    seq![
        FieldKind { key: "id"@, is_string: true },
        FieldKind { key: "game_id"@, is_string: true },
        FieldKind { key: "opt_index"@, is_string: false },
        FieldKind { key: "opt_result"@, is_string: false },
    ]
}

pub proof fn lemma_cg_match_game_opt_fields_wf(v: CGMatchGameOptV)
    ensures
        fields_wf(cg_match_game_opt_fields(v)),
        kinds_of(cg_match_game_opt_fields(v)) == cg_match_game_opt_kinds(),
{
    reveal_strlit("id");
    reveal_strlit("game_id");
    reveal_strlit("opt_index");
    reveal_strlit("opt_result");
    lemma_pow10_18();
    assert(plain_key("id"@)) by {
        assert forall|i: int| 0 <= i < "id"@.len() implies plain_key_char(#[trigger] "id"@[i]) by {}
    }
    assert(plain_key("game_id"@)) by {
        assert forall|i: int| 0 <= i < "game_id"@.len() implies plain_key_char(
            #[trigger] "game_id"@[i],
        ) by {}
    }
    assert(plain_key("opt_index"@)) by {
        assert forall|i: int| 0 <= i < "opt_index"@.len() implies plain_key_char(
            #[trigger] "opt_index"@[i],
        ) by {}
    }
    assert(plain_key("opt_result"@)) by {
        assert forall|i: int| 0 <= i < "opt_result"@.len() implies plain_key_char(
            #[trigger] "opt_result"@[i],
        ) by {}
    }
    assert(kinds_of(cg_match_game_opt_fields(v)) =~~= cg_match_game_opt_kinds());
}

pub open spec fn spec_dec_cg_match_game_opt(t: Seq<char>) -> Option<CGMatchGameOptV> {
    match dec_obj(t, cg_match_game_opt_kinds()) {
        Some(vs) => {
            if vs.len() == 4 {
                match (vs[0], vs[1], vs[2], vs[3]) {
                    (
                        AtomModel::S(id),
                        AtomModel::S(game_id),
                        AtomModel::I(idx),
                        AtomModel::I(res),
                    ) => {
                        if 0 <= idx <= cfg_u32_max() && 0 <= res <= cfg_u32_max() {
                            Some(
                                CGMatchGameOptV {
                                    id,
                                    game_id,
                                    opt_index: idx as u32,
                                    opt_result: res as u32,
                                },
                            )
                        } else {
                            None
                        }
                    },
                    _ => None,
                }
            } else {
                None
            }
        },
        None => None,
    }
}

/// Decoding inverts encoding for `CGMatchGameOpt`.
pub proof fn lemma_cg_match_game_opt_roundtrip(v: CGMatchGameOptV)
    ensures
        spec_dec_cg_match_game_opt(enc_obj(cg_match_game_opt_fields(v))) == Some(v),
{
    lemma_cg_match_game_opt_fields_wf(v);
    lemma_dec_obj_of_enc(cg_match_game_opt_fields(v));
    let vs = atoms_of(cg_match_game_opt_fields(v));
    assert(vs[0] == AtomModel::S(v.id));
    assert(vs[1] == AtomModel::S(v.game_id));
    assert(vs[2] == AtomModel::I(v.opt_index as int));
    assert(vs[3] == AtomModel::I(v.opt_result as int));
}

impl CGMatchGameOpt {
    /// Decode the canonical JSON text of such a record.
    pub fn from_json_chars(t: &Vec<char>) -> (r: Option<CGMatchGameOpt>)
        ensures
            match r {
                Some(rec) => spec_dec_cg_match_game_opt(t@) == Some(rec@),
                None => spec_dec_cg_match_game_opt(t@) is None,
            },
    {
        let mut kinds: Vec<(Vec<char>, bool)> = Vec::new();
        kinds.push((str_to_chars("id"), true));
        kinds.push((str_to_chars("game_id"), true));
        kinds.push((str_to_chars("opt_index"), false));
        kinds.push((str_to_chars("opt_result"), false));
        assert(kinds_view(kinds@) =~~= cg_match_game_opt_kinds());
        let vs = match parse_obj(t, &kinds) {
            Some(vs) => vs,
            None => {
                return None;
            },
        };
        if vs.len() != 4 {
            return None;
        }
        let id = match &vs[0] {
            JsonAtom::S(s) => s.clone(),
            JsonAtom::I(_) => {
                return None;
            },
        };
        let game_id = match &vs[1] {
            JsonAtom::S(s) => s.clone(),
            JsonAtom::I(_) => {
                return None;
            },
        };
        let opt_index = match &vs[2] {
            JsonAtom::I(x) => {
                if 0 <= *x && *x <= 4294967295i64 {
                    *x as u32
                } else {
                    return None;
                }
            },
            JsonAtom::S(_) => {
                return None;
            },
        };
        let opt_result = match &vs[3] {
            JsonAtom::I(x) => {
                if 0 <= *x && *x <= 4294967295i64 {
                    *x as u32
                } else {
                    return None;
                }
            },
            JsonAtom::S(_) => {
                return None;
            },
        };
        Some(CGMatchGameOpt { id, game_id, opt_index, opt_result })
    }
}

// ---------------------------------------------------------------------------
// GCUpdateGame
// ---------------------------------------------------------------------------
/// Mid-round sync of both players' progress.
pub struct GCUpdateGame {
    pub game_id: String,
    pub player1_id: String,
    pub player1_name: String,
    pub player1_next_opt_index: i32,
    pub player1_opt_bitmap: u32,
    pub player2_id: String,
    pub player2_name: String,
    pub player2_next_opt_index: i32,
    pub player2_opt_bitmap: u32,
}

pub struct GCUpdateGameV {
    pub game_id: Seq<char>,
    pub player1_id: Seq<char>,
    pub player1_name: Seq<char>,
    pub player1_next_opt_index: i32,
    pub player1_opt_bitmap: u32,
    pub player2_id: Seq<char>,
    pub player2_name: Seq<char>,
    pub player2_next_opt_index: i32,
    pub player2_opt_bitmap: u32,
}

impl View for GCUpdateGame {
    type V = GCUpdateGameV;

    open spec fn view(&self) -> GCUpdateGameV {
        GCUpdateGameV {
            game_id: self.game_id@,
            player1_id: self.player1_id@,
            player1_name: self.player1_name@,
            player1_next_opt_index: self.player1_next_opt_index,
            player1_opt_bitmap: self.player1_opt_bitmap,
            player2_id: self.player2_id@,
            player2_name: self.player2_name@,
            player2_next_opt_index: self.player2_next_opt_index,
            player2_opt_bitmap: self.player2_opt_bitmap,
        }
    }
}

pub open spec fn gc_update_game_fields(v: GCUpdateGameV) -> Seq<(Seq<char>, AtomModel)> {
    seq![
        ("game_id"@, AtomModel::S(v.game_id)),
        ("player1_id"@, AtomModel::S(v.player1_id)),
        ("player1_name"@, AtomModel::S(v.player1_name)),
        ("player1_next_opt_index"@, AtomModel::I(v.player1_next_opt_index as int)),
        ("player1_opt_bitmap"@, AtomModel::I(v.player1_opt_bitmap as int)),
        ("player2_id"@, AtomModel::S(v.player2_id)),
        ("player2_name"@, AtomModel::S(v.player2_name)),
        ("player2_next_opt_index"@, AtomModel::I(v.player2_next_opt_index as int)),
        ("player2_opt_bitmap"@, AtomModel::I(v.player2_opt_bitmap as int)),
    ]
}

pub open spec fn gc_update_game_kinds() -> Seq<FieldKind> {
    seq![
        FieldKind { key: "game_id"@, is_string: true },
        FieldKind { key: "player1_id"@, is_string: true },
        FieldKind { key: "player1_name"@, is_string: true },
        FieldKind { key: "player1_next_opt_index"@, is_string: false },
        FieldKind { key: "player1_opt_bitmap"@, is_string: false },
        FieldKind { key: "player2_id"@, is_string: true },
        FieldKind { key: "player2_name"@, is_string: true },
        FieldKind { key: "player2_next_opt_index"@, is_string: false },
        FieldKind { key: "player2_opt_bitmap"@, is_string: false },
    ]
}

pub proof fn lemma_gc_update_game_fields_wf(v: GCUpdateGameV)
    ensures
        fields_wf(gc_update_game_fields(v)),
        kinds_of(gc_update_game_fields(v)) == gc_update_game_kinds(),
{
    reveal_strlit("game_id");
    reveal_strlit("player1_id");
    reveal_strlit("player1_name");
    reveal_strlit("player1_next_opt_index");
    reveal_strlit("player1_opt_bitmap");
    reveal_strlit("player2_id");
    reveal_strlit("player2_name");
    reveal_strlit("player2_next_opt_index");
    reveal_strlit("player2_opt_bitmap");
    lemma_pow10_18();
    assert(plain_key("game_id"@)) by {
        assert forall|i: int| 0 <= i < "game_id"@.len() implies plain_key_char(
            #[trigger] "game_id"@[i],
        ) by {}
    }
    assert(plain_key("player1_id"@)) by {
        assert forall|i: int| 0 <= i < "player1_id"@.len() implies plain_key_char(
            #[trigger] "player1_id"@[i],
        ) by {}
    }
    assert(plain_key("player1_name"@)) by {
        assert forall|i: int| 0 <= i < "player1_name"@.len() implies plain_key_char(
            #[trigger] "player1_name"@[i],
        ) by {}
    }
    assert(plain_key("player1_next_opt_index"@)) by {
        assert forall|i: int| 0 <= i < "player1_next_opt_index"@.len() implies plain_key_char(
            #[trigger] "player1_next_opt_index"@[i],
        ) by {}
    }
    assert(plain_key("player1_opt_bitmap"@)) by {
        assert forall|i: int| 0 <= i < "player1_opt_bitmap"@.len() implies plain_key_char(
            #[trigger] "player1_opt_bitmap"@[i],
        ) by {}
    }
    assert(plain_key("player2_id"@)) by {
        assert forall|i: int| 0 <= i < "player2_id"@.len() implies plain_key_char(
            #[trigger] "player2_id"@[i],
        ) by {}
    }
    assert(plain_key("player2_name"@)) by {
        assert forall|i: int| 0 <= i < "player2_name"@.len() implies plain_key_char(
            #[trigger] "player2_name"@[i],
        ) by {}
    }
    assert(plain_key("player2_next_opt_index"@)) by {
        assert forall|i: int| 0 <= i < "player2_next_opt_index"@.len() implies plain_key_char(
            #[trigger] "player2_next_opt_index"@[i],
        ) by {}
    }
    assert(plain_key("player2_opt_bitmap"@)) by {
        assert forall|i: int| 0 <= i < "player2_opt_bitmap"@.len() implies plain_key_char(
            #[trigger] "player2_opt_bitmap"@[i],
        ) by {}
    }
    assert(kinds_of(gc_update_game_fields(v)) =~~= gc_update_game_kinds());
}

pub open spec fn spec_dec_gc_update_game(t: Seq<char>) -> Option<GCUpdateGameV> {
    match dec_obj(t, gc_update_game_kinds()) {
        Some(vs) => {
            if vs.len() == 9 {
                match (vs[0], vs[1], vs[2], vs[3], vs[4], vs[5], vs[6], vs[7], vs[8]) {
                    (
                        AtomModel::S(game_id),
                        AtomModel::S(p1id),
                        AtomModel::S(p1name),
                        AtomModel::I(p1next),
                        AtomModel::I(p1bm),
                        AtomModel::S(p2id),
                        AtomModel::S(p2name),
                        AtomModel::I(p2next),
                        AtomModel::I(p2bm),
                    ) => {
                        if -2147483648 <= p1next <= 2147483647 && 0 <= p1bm <= cfg_u32_max()
                            && -2147483648 <= p2next <= 2147483647 && 0 <= p2bm <= cfg_u32_max() {
                            Some(
                                GCUpdateGameV {
                                    game_id,
                                    player1_id: p1id,
                                    player1_name: p1name,
                                    player1_next_opt_index: p1next as i32,
                                    player1_opt_bitmap: p1bm as u32,
                                    player2_id: p2id,
                                    player2_name: p2name,
                                    player2_next_opt_index: p2next as i32,
                                    player2_opt_bitmap: p2bm as u32,
                                },
                            )
                        } else {
                            None
                        }
                    },
                    _ => None,
                }
            } else {
                None
            }
        },
        None => None,
    }
}

/// Decoding inverts encoding for `GCUpdateGame`.
pub proof fn lemma_gc_update_game_roundtrip(v: GCUpdateGameV)
    ensures
        spec_dec_gc_update_game(enc_obj(gc_update_game_fields(v))) == Some(v),
{
    lemma_gc_update_game_fields_wf(v);
    lemma_dec_obj_of_enc(gc_update_game_fields(v));
    let vs = atoms_of(gc_update_game_fields(v));
    assert(vs[0] == AtomModel::S(v.game_id));
    assert(vs[1] == AtomModel::S(v.player1_id));
    assert(vs[2] == AtomModel::S(v.player1_name));
    assert(vs[3] == AtomModel::I(v.player1_next_opt_index as int));
    assert(vs[4] == AtomModel::I(v.player1_opt_bitmap as int));
    assert(vs[5] == AtomModel::S(v.player2_id));
    assert(vs[6] == AtomModel::S(v.player2_name));
    assert(vs[7] == AtomModel::I(v.player2_next_opt_index as int));
    assert(vs[8] == AtomModel::I(v.player2_opt_bitmap as int));
}

impl GCUpdateGame {
    pub fn to_json_chars(&self) -> (r: Vec<char>)
        ensures
            r@ == enc_obj(gc_update_game_fields(self@)),
    {
        let mut fields: Vec<(Vec<char>, JsonAtom)> = Vec::new();
        fields.push((str_to_chars("game_id"), JsonAtom::S(self.game_id.clone())));
        fields.push((str_to_chars("player1_id"), JsonAtom::S(self.player1_id.clone())));
        fields.push((str_to_chars("player1_name"), JsonAtom::S(self.player1_name.clone())));
        fields.push(
            (
                str_to_chars("player1_next_opt_index"),
                JsonAtom::I(self.player1_next_opt_index as i64),
            ),
        );
        fields.push(
            (str_to_chars("player1_opt_bitmap"), JsonAtom::I(self.player1_opt_bitmap as i64)),
        );
        fields.push((str_to_chars("player2_id"), JsonAtom::S(self.player2_id.clone())));
        fields.push((str_to_chars("player2_name"), JsonAtom::S(self.player2_name.clone())));
        fields.push(
            (
                str_to_chars("player2_next_opt_index"),
                JsonAtom::I(self.player2_next_opt_index as i64),
            ),
        );
        fields.push(
            (str_to_chars("player2_opt_bitmap"), JsonAtom::I(self.player2_opt_bitmap as i64)),
        );
        proof {
            lemma_gc_update_game_fields_wf(self@);
            assert(efields_view(fields@) =~~= gc_update_game_fields(self@));
        }
        encode_obj(&fields)
    }
}

impl GCProtoBase64 for GCUpdateGame {
    open spec fn json_view(&self) -> Seq<char> {
        enc_obj(gc_update_game_fields(self@))
    }

    fn to_base64_json_str(&self) -> (r: Option<String>)
        ensures
            r matches Some(s) && s@ == b64_of(self.json_view()),
    {
        let chars = self.to_json_chars();
        let text = chars_to_string(&chars);
        Some(b64_encode(text.as_str()))
    }
}

// ---------------------------------------------------------------------------
// GCEndGame
// ---------------------------------------------------------------------------
/// End-of-game report: final bitmaps, scores, new Elo ratings and levels.
pub struct GCEndGame {
    pub game_id: String,
    pub player1_id: String,
    pub player1_name: String,
    pub player1_opt_bitmap: u32,
    pub player1_game_score: u32,
    pub player1_new_elo_score: u32,
    pub player1_new_level: u32,
    pub player2_id: String,
    pub player2_name: String,
    pub player2_opt_bitmap: u32,
    pub player2_game_score: u32,
    pub player2_new_elo_score: u32,
    pub player2_new_level: u32,
}

pub struct GCEndGameV {
    pub game_id: Seq<char>,
    pub player1_id: Seq<char>,
    pub player1_name: Seq<char>,
    pub player1_opt_bitmap: u32,
    pub player1_game_score: u32,
    pub player1_new_elo_score: u32,
    pub player1_new_level: u32,
    pub player2_id: Seq<char>,
    pub player2_name: Seq<char>,
    pub player2_opt_bitmap: u32,
    pub player2_game_score: u32,
    pub player2_new_elo_score: u32,
    pub player2_new_level: u32,
}

impl View for GCEndGame {
    type V = GCEndGameV;

    open spec fn view(&self) -> GCEndGameV {
        GCEndGameV {
            game_id: self.game_id@,
            player1_id: self.player1_id@,
            player1_name: self.player1_name@,
            player1_opt_bitmap: self.player1_opt_bitmap,
            player1_game_score: self.player1_game_score,
            player1_new_elo_score: self.player1_new_elo_score,
            player1_new_level: self.player1_new_level,
            player2_id: self.player2_id@,
            player2_name: self.player2_name@,
            player2_opt_bitmap: self.player2_opt_bitmap,
            player2_game_score: self.player2_game_score,
            player2_new_elo_score: self.player2_new_elo_score,
            player2_new_level: self.player2_new_level,
        }
    }
}

pub open spec fn gc_end_game_fields(v: GCEndGameV) -> Seq<(Seq<char>, AtomModel)> {
    seq![
        ("game_id"@, AtomModel::S(v.game_id)),
        ("player1_id"@, AtomModel::S(v.player1_id)),
        ("player1_name"@, AtomModel::S(v.player1_name)),
        ("player1_opt_bitmap"@, AtomModel::I(v.player1_opt_bitmap as int)),
        ("player1_game_score"@, AtomModel::I(v.player1_game_score as int)),
        ("player1_new_elo_score"@, AtomModel::I(v.player1_new_elo_score as int)),
        ("player1_new_level"@, AtomModel::I(v.player1_new_level as int)),
        ("player2_id"@, AtomModel::S(v.player2_id)),
        ("player2_name"@, AtomModel::S(v.player2_name)),
        ("player2_opt_bitmap"@, AtomModel::I(v.player2_opt_bitmap as int)),
        ("player2_game_score"@, AtomModel::I(v.player2_game_score as int)),
        ("player2_new_elo_score"@, AtomModel::I(v.player2_new_elo_score as int)),
        ("player2_new_level"@, AtomModel::I(v.player2_new_level as int)),
    ]
}

pub open spec fn gc_end_game_kinds() -> Seq<FieldKind> {
    seq![
        FieldKind { key: "game_id"@, is_string: true },
        FieldKind { key: "player1_id"@, is_string: true },
        FieldKind { key: "player1_name"@, is_string: true },
        FieldKind { key: "player1_opt_bitmap"@, is_string: false },
        FieldKind { key: "player1_game_score"@, is_string: false },
        FieldKind { key: "player1_new_elo_score"@, is_string: false },
        FieldKind { key: "player1_new_level"@, is_string: false },
        FieldKind { key: "player2_id"@, is_string: true },
        FieldKind { key: "player2_name"@, is_string: true },
        FieldKind { key: "player2_opt_bitmap"@, is_string: false },
        FieldKind { key: "player2_game_score"@, is_string: false },
        FieldKind { key: "player2_new_elo_score"@, is_string: false },
        FieldKind { key: "player2_new_level"@, is_string: false },
    ]
}

pub proof fn lemma_gc_end_game_fields_wf(v: GCEndGameV)
    ensures
        fields_wf(gc_end_game_fields(v)),
        kinds_of(gc_end_game_fields(v)) == gc_end_game_kinds(),
{
    reveal_strlit("game_id");
    reveal_strlit("player1_id");
    reveal_strlit("player1_name");
    reveal_strlit("player1_opt_bitmap");
    reveal_strlit("player1_game_score");
    reveal_strlit("player1_new_elo_score");
    reveal_strlit("player1_new_level");
    reveal_strlit("player2_id");
    reveal_strlit("player2_name");
    reveal_strlit("player2_opt_bitmap");
    reveal_strlit("player2_game_score");
    reveal_strlit("player2_new_elo_score");
    reveal_strlit("player2_new_level");
    lemma_pow10_18();
    assert(plain_key("game_id"@)) by {
        assert forall|i: int| 0 <= i < "game_id"@.len() implies plain_key_char(
            #[trigger] "game_id"@[i],
        ) by {}
    }
    assert(plain_key("player1_id"@)) by {
        assert forall|i: int| 0 <= i < "player1_id"@.len() implies plain_key_char(
            #[trigger] "player1_id"@[i],
        ) by {}
    }
    assert(plain_key("player1_name"@)) by {
        assert forall|i: int| 0 <= i < "player1_name"@.len() implies plain_key_char(
            #[trigger] "player1_name"@[i],
        ) by {}
    }
    assert(plain_key("player1_opt_bitmap"@)) by {
        assert forall|i: int| 0 <= i < "player1_opt_bitmap"@.len() implies plain_key_char(
            #[trigger] "player1_opt_bitmap"@[i],
        ) by {}
    }
    assert(plain_key("player1_game_score"@)) by {
        assert forall|i: int| 0 <= i < "player1_game_score"@.len() implies plain_key_char(
            #[trigger] "player1_game_score"@[i],
        ) by {}
    }
    assert(plain_key("player1_new_elo_score"@)) by {
        assert forall|i: int| 0 <= i < "player1_new_elo_score"@.len() implies plain_key_char(
            #[trigger] "player1_new_elo_score"@[i],
        ) by {}
    }
    assert(plain_key("player1_new_level"@)) by {
        assert forall|i: int| 0 <= i < "player1_new_level"@.len() implies plain_key_char(
            #[trigger] "player1_new_level"@[i],
        ) by {}
    }
    assert(plain_key("player2_id"@)) by {
        assert forall|i: int| 0 <= i < "player2_id"@.len() implies plain_key_char(
            #[trigger] "player2_id"@[i],
        ) by {}
    }
    assert(plain_key("player2_name"@)) by {
        assert forall|i: int| 0 <= i < "player2_name"@.len() implies plain_key_char(
            #[trigger] "player2_name"@[i],
        ) by {}
    }
    assert(plain_key("player2_opt_bitmap"@)) by {
        assert forall|i: int| 0 <= i < "player2_opt_bitmap"@.len() implies plain_key_char(
            #[trigger] "player2_opt_bitmap"@[i],
        ) by {}
    }
    assert(plain_key("player2_game_score"@)) by {
        assert forall|i: int| 0 <= i < "player2_game_score"@.len() implies plain_key_char(
            #[trigger] "player2_game_score"@[i],
        ) by {}
    }
    assert(plain_key("player2_new_elo_score"@)) by {
        assert forall|i: int| 0 <= i < "player2_new_elo_score"@.len() implies plain_key_char(
            #[trigger] "player2_new_elo_score"@[i],
        ) by {}
    }
    assert(plain_key("player2_new_level"@)) by {
        assert forall|i: int| 0 <= i < "player2_new_level"@.len() implies plain_key_char(
            #[trigger] "player2_new_level"@[i],
        ) by {}
    }
    assert(kinds_of(gc_end_game_fields(v)) =~~= gc_end_game_kinds());
}

pub open spec fn spec_dec_gc_end_game(t: Seq<char>) -> Option<GCEndGameV> {
    match dec_obj(t, gc_end_game_kinds()) {
        Some(vs) => {
            if vs.len() == 13 {
                match (vs[0], vs[1], vs[2], vs[7], vs[8]) {
                    (
                        AtomModel::S(game_id),
                        AtomModel::S(p1id),
                        AtomModel::S(p1name),
                        AtomModel::S(p2id),
                        AtomModel::S(p2name),
                    ) => {
                        match (vs[3], vs[4], vs[5], vs[6], vs[9], vs[10], vs[11], vs[12]) {
                            (
                                AtomModel::I(p1bm),
                                AtomModel::I(p1sc),
                                AtomModel::I(p1elo),
                                AtomModel::I(p1lv),
                                AtomModel::I(p2bm),
                                AtomModel::I(p2sc),
                                AtomModel::I(p2elo),
                                AtomModel::I(p2lv),
                            ) => {
                                if 0 <= p1bm <= cfg_u32_max() && 0 <= p1sc <= cfg_u32_max() && 0
                                    <= p1elo <= cfg_u32_max() && 0 <= p1lv <= cfg_u32_max() && 0
                                    <= p2bm <= cfg_u32_max() && 0 <= p2sc <= cfg_u32_max() && 0
                                    <= p2elo <= cfg_u32_max() && 0 <= p2lv <= cfg_u32_max() {
                                    Some(
                                        GCEndGameV {
                                            game_id,
                                            player1_id: p1id,
                                            player1_name: p1name,
                                            player1_opt_bitmap: p1bm as u32,
                                            player1_game_score: p1sc as u32,
                                            player1_new_elo_score: p1elo as u32,
                                            player1_new_level: p1lv as u32,
                                            player2_id: p2id,
                                            player2_name: p2name,
                                            player2_opt_bitmap: p2bm as u32,
                                            player2_game_score: p2sc as u32,
                                            player2_new_elo_score: p2elo as u32,
                                            player2_new_level: p2lv as u32,
                                        },
                                    )
                                } else {
                                    None
                                }
                            },
                            _ => None,
                        }
                    },
                    _ => None,
                }
            } else {
                None
            }
        },
        None => None,
    }
}

/// Decoding inverts encoding for `GCEndGame`.
pub proof fn lemma_gc_end_game_roundtrip(v: GCEndGameV)
    ensures
        spec_dec_gc_end_game(enc_obj(gc_end_game_fields(v))) == Some(v),
{
    lemma_gc_end_game_fields_wf(v);
    lemma_dec_obj_of_enc(gc_end_game_fields(v));
    let vs = atoms_of(gc_end_game_fields(v));
    assert(vs[0] == AtomModel::S(v.game_id));
    assert(vs[1] == AtomModel::S(v.player1_id));
    assert(vs[2] == AtomModel::S(v.player1_name));
    assert(vs[3] == AtomModel::I(v.player1_opt_bitmap as int));
    assert(vs[4] == AtomModel::I(v.player1_game_score as int));
    assert(vs[5] == AtomModel::I(v.player1_new_elo_score as int));
    assert(vs[6] == AtomModel::I(v.player1_new_level as int));
    assert(vs[7] == AtomModel::S(v.player2_id));
    assert(vs[8] == AtomModel::S(v.player2_name));
    assert(vs[9] == AtomModel::I(v.player2_opt_bitmap as int));
    assert(vs[10] == AtomModel::I(v.player2_game_score as int));
    assert(vs[11] == AtomModel::I(v.player2_new_elo_score as int));
    assert(vs[12] == AtomModel::I(v.player2_new_level as int));
}

impl GCEndGame {
    pub fn to_json_chars(&self) -> (r: Vec<char>)
        ensures
            r@ == enc_obj(gc_end_game_fields(self@)),
    {
        let mut fields: Vec<(Vec<char>, JsonAtom)> = Vec::new();
        fields.push((str_to_chars("game_id"), JsonAtom::S(self.game_id.clone())));
        fields.push((str_to_chars("player1_id"), JsonAtom::S(self.player1_id.clone())));
        fields.push((str_to_chars("player1_name"), JsonAtom::S(self.player1_name.clone())));
        fields.push(
            (str_to_chars("player1_opt_bitmap"), JsonAtom::I(self.player1_opt_bitmap as i64)),
        );
        fields.push(
            (str_to_chars("player1_game_score"), JsonAtom::I(self.player1_game_score as i64)),
        );
        fields.push(
            (
                str_to_chars("player1_new_elo_score"),
                JsonAtom::I(self.player1_new_elo_score as i64),
            ),
        );
        fields.push(
            (str_to_chars("player1_new_level"), JsonAtom::I(self.player1_new_level as i64)),
        );
        fields.push((str_to_chars("player2_id"), JsonAtom::S(self.player2_id.clone())));
        fields.push((str_to_chars("player2_name"), JsonAtom::S(self.player2_name.clone())));
        fields.push(
            (str_to_chars("player2_opt_bitmap"), JsonAtom::I(self.player2_opt_bitmap as i64)),
        );
        fields.push(
            (str_to_chars("player2_game_score"), JsonAtom::I(self.player2_game_score as i64)),
        );
        fields.push(
            (
                str_to_chars("player2_new_elo_score"),
                JsonAtom::I(self.player2_new_elo_score as i64),
            ),
        );
        fields.push(
            (str_to_chars("player2_new_level"), JsonAtom::I(self.player2_new_level as i64)),
        );
        proof {
            lemma_gc_end_game_fields_wf(self@);
            assert(efields_view(fields@) =~~= gc_end_game_fields(self@));
        }
        encode_obj(&fields)
    }
}

impl GCProtoBase64 for GCEndGame {
    open spec fn json_view(&self) -> Seq<char> {
        enc_obj(gc_end_game_fields(self@))
    }

    fn to_base64_json_str(&self) -> (r: Option<String>)
        ensures
            r matches Some(s) && s@ == b64_of(self.json_view()),
    {
        let chars = self.to_json_chars();
        let text = chars_to_string(&chars);
        Some(b64_encode(text.as_str()))
    }
}

// ---------------------------------------------------------------------------
// the envelope
// ---------------------------------------------------------------------------
/// The outer frame of every wire payload.
pub struct ProtoData {
    pub proto_id: u64,
    pub proto_json_str: String,
}

pub struct ProtoDataV {
    pub proto_id: u64,
    pub proto_json_str: Seq<char>,
}

impl View for ProtoData {
    type V = ProtoDataV;

    open spec fn view(&self) -> ProtoDataV {
        ProtoDataV { proto_id: self.proto_id, proto_json_str: self.proto_json_str@ }
    }
}

pub open spec fn frame_fields(proto_id: int, payload: Seq<char>) -> Seq<(Seq<char>, AtomModel)> {
    seq![("proto_id"@, AtomModel::I(proto_id)), ("proto_json_str"@, AtomModel::S(payload))]
}

pub open spec fn frame_kinds() -> Seq<FieldKind> {
    seq![
        FieldKind { key: "proto_id"@, is_string: false },
        FieldKind { key: "proto_json_str"@, is_string: true },
    ]
}

/// The full wire text of a frame.
pub open spec fn spec_frame(proto_id: int, payload: Seq<char>) -> Seq<char> {
    enc_obj(frame_fields(proto_id, payload))
}

pub proof fn lemma_frame_fields_wf(proto_id: int, payload: Seq<char>)
    requires
        0 <= proto_id < int_magnitude_bound(),
    ensures
        fields_wf(frame_fields(proto_id, payload)),
        kinds_of(frame_fields(proto_id, payload)) == frame_kinds(),
{
    reveal_strlit("proto_id");
    reveal_strlit("proto_json_str");
    lemma_pow10_18();
    assert(plain_key("proto_id"@)) by {
        assert forall|i: int| 0 <= i < "proto_id"@.len() implies plain_key_char(
            #[trigger] "proto_id"@[i],
        ) by {}
    }
    assert(plain_key("proto_json_str"@)) by {
        assert forall|i: int| 0 <= i < "proto_json_str"@.len() implies plain_key_char(
            #[trigger] "proto_json_str"@[i],
        ) by {}
    }
    assert(kinds_of(frame_fields(proto_id, payload)) =~~= frame_kinds());
}

pub open spec fn spec_dec_frame(t: Seq<char>) -> Option<(int, Seq<char>)> {
    match dec_obj(t, frame_kinds()) {
        Some(vs) => {
            if vs.len() == 2 {
                match (vs[0], vs[1]) {
                    (AtomModel::I(id), AtomModel::S(payload)) => {
                        if 0 <= id {
                            Some((id, payload))
                        } else {
                            None
                        }
                    },
                    _ => None,
                }
            } else {
                None
            }
        },
        None => None,
    }
}

/// Decoding inverts encoding for the envelope.
pub proof fn lemma_frame_roundtrip(proto_id: int, payload: Seq<char>)
    requires
        0 <= proto_id < int_magnitude_bound(),
    ensures
        spec_dec_frame(spec_frame(proto_id, payload)) == Some((proto_id, payload)),
{
    lemma_frame_fields_wf(proto_id, payload);
    lemma_dec_obj_of_enc(frame_fields(proto_id, payload));
    let vs = atoms_of(frame_fields(proto_id, payload));
    assert(vs[0] == AtomModel::I(proto_id));
    assert(vs[1] == AtomModel::S(payload));
}

impl ProtoData {
    pub fn new(proto_id: u64, proto_json_str: String) -> (r: ProtoData)
        ensures
            r.proto_id == proto_id,
            r.proto_json_str@ == proto_json_str@,
    {
        ProtoData { proto_id, proto_json_str }
    }

    /// The wire text of this frame.
    pub fn frame_to_json(&self) -> (r: String)
        requires
            self.proto_id < 1_000_000_000_000_000_000,
        ensures
            r@ == spec_frame(self.proto_id as int, self.proto_json_str@),
    {
        let mut fields: Vec<(Vec<char>, JsonAtom)> = Vec::new();
        fields.push((str_to_chars("proto_id"), JsonAtom::I(self.proto_id as i64)));
        fields.push((str_to_chars("proto_json_str"), JsonAtom::S(self.proto_json_str.clone())));
        proof {
            lemma_pow10_18();
            lemma_frame_fields_wf(self.proto_id as int, self.proto_json_str@);
            assert(efields_view(fields@) =~~= frame_fields(
                self.proto_id as int,
                self.proto_json_str@,
            ));
        }
        let chars = encode_obj(&fields);
        chars_to_string(&chars)
    }

    /// Frame a record for the wire: base64 its canonical JSON, then wrap it
    /// in the envelope under `proto_id`.
    pub fn gc_to_json_string(proto_id: u64, proto: impl GCProtoBase64) -> (r: Option<String>)
        requires
            proto_id < 1_000_000_000_000_000_000,
        ensures
            r matches Some(s) && s@ == spec_frame(proto_id as int, b64_of(proto.json_view())),
    {
        match proto.to_base64_json_str() {
            Some(payload) => {
                let pd = ProtoData { proto_id, proto_json_str: payload };
                Some(pd.frame_to_json())
            },
            None => None,
        }
    }

    /// Split an inbound wire frame into its protocol id and base64 payload.
    pub fn cg_to_proto_json_str(json_str: String) -> (r: Option<(u64, String)>)
        ensures
            match r {
                Some(p) => spec_dec_frame(json_str@) == Some((p.0 as int, p.1@)),
                None => spec_dec_frame(json_str@) is None,
            },
    {
        let chars = str_to_chars(json_str.as_str());
        let mut kinds: Vec<(Vec<char>, bool)> = Vec::new();
        kinds.push((str_to_chars("proto_id"), false));
        kinds.push((str_to_chars("proto_json_str"), true));
        assert(kinds_view(kinds@) =~~= frame_kinds());
        let vs = match parse_obj(&chars, &kinds) {
            Some(vs) => vs,
            None => {
                return None;
            },
        };
        if vs.len() != 2 {
            return None;
        }
        let id = match &vs[0] {
            JsonAtom::I(x) => {
                if 0 <= *x {
                    *x as u64
                } else {
                    return None;
                }
            },
            JsonAtom::S(_) => {
                return None;
            },
        };
        let payload = match &vs[1] {
            JsonAtom::S(s) => s.clone(),
            JsonAtom::I(_) => {
                return None;
            },
        };
        Some((id, payload))
    }

    /// Decode a base64 payload as a `CGStartMatch` record. Every payload
    /// that is the encoding of such a record decodes to exactly that
    /// record, so `None` comes back only for payloads that encode no
    /// record: text that is not the base64 of a canonical record, which
    /// includes bad base64, non-UTF-8 bytes and ill-shaped JSON.
    pub fn deserialize_start_match(base64_json_str: String) -> (r: Option<CGStartMatch>)
        ensures
            forall|v: CGStartMatchV|
                base64_json_str@ == b64_of(#[trigger] enc_obj(cg_start_match_fields(v))) ==> (
                r matches Some(rec) && rec@ == v),
            r is None ==> (forall|v: CGStartMatchV|
                base64_json_str@ != b64_of(#[trigger] enc_obj(cg_start_match_fields(v)))),
    {
        match b64_decode(base64_json_str.as_str()) {
            Some(t) => {
                let chars = str_to_chars(t.as_str());
                let res = CGStartMatch::from_json_chars(&chars);
                proof {
                    assert forall|v: CGStartMatchV|
                        base64_json_str@ == b64_of(
                            #[trigger] enc_obj(cg_start_match_fields(v)),
                        ) implies (res matches Some(rec) && rec@ == v) by {
                        assert(t@ == enc_obj(cg_start_match_fields(v)));
                        lemma_cg_start_match_roundtrip(v);
                    }
                }
                res
            },
            None => None,
        }
    }

    /// Decode a base64 payload as a `CGMatchGameOpt` record. Every payload
    /// that is the encoding of such a record decodes to exactly that
    /// record, so `None` comes back only for payloads that encode no
    /// record: text that is not the base64 of a canonical record, which
    /// includes bad base64, non-UTF-8 bytes and ill-shaped JSON.
    pub fn deserialize_game_opt(base64_json_str: String) -> (r: Option<CGMatchGameOpt>)
        ensures
            forall|v: CGMatchGameOptV|
                base64_json_str@ == b64_of(#[trigger] enc_obj(cg_match_game_opt_fields(v))) ==> (
                r matches Some(rec) && rec@ == v),
            r is None ==> (forall|v: CGMatchGameOptV|
                base64_json_str@ != b64_of(#[trigger] enc_obj(cg_match_game_opt_fields(v)))),
    {
        match b64_decode(base64_json_str.as_str()) {
            Some(t) => {
                let chars = str_to_chars(t.as_str());
                let res = CGMatchGameOpt::from_json_chars(&chars);
                proof {
                    assert forall|v: CGMatchGameOptV|
                        base64_json_str@ == b64_of(
                            #[trigger] enc_obj(cg_match_game_opt_fields(v)),
                        ) implies (res matches Some(rec) && rec@ == v) by {
                        assert(t@ == enc_obj(cg_match_game_opt_fields(v)));
                        lemma_cg_match_game_opt_roundtrip(v);
                    }
                }
                res
            },
            None => None,
        }
    }
}

} // verus!
