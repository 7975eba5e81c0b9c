//! The question bank: poem line records grouped by level id and, within a
//! level, by question sign. A round's script is sampled from the bank and
//! serialized as a JSON array for the `GCStartGame` frame.

use vstd::prelude::*;

verus! {

use vstd::multiset::Multiset;
use vstd::seq_lib::group_to_multiset_ensures;

use crate::jsontext::AtomModel;
use crate::jsontext::JsonAtom;
use crate::jsontext::chars_to_string;
use crate::jsontext::efields_view;
use crate::jsontext::enc_obj;
use crate::jsontext::encode_obj;
use crate::jsontext::fields_wf;
use crate::jsontext::lemma_pow10_18;
use crate::jsontext::plain_key;
use crate::jsontext::plain_key_char;
use crate::jsontext::str_to_chars;
use crate::rng::rng_below;

/// One question: a level, a poem, the question sign and four answer signs.
#[derive(Clone, Copy)]
pub struct PoemLineRecord {
    pub level_id: u32,
    pub poem_id: u32,
    pub q_sign: u32,
    pub a_sign1: u32,
    pub a_sign2: u32,
    pub a_sign3: u32,
    pub a_sign4: u32,
}

pub open spec fn poem_line_fields(r: PoemLineRecord) -> Seq<(Seq<char>, AtomModel)> {
    seq![
        ("level_id"@, AtomModel::I(r.level_id as int)),
        ("poem_id"@, AtomModel::I(r.poem_id as int)),
        ("q_sign"@, AtomModel::I(r.q_sign as int)),
        ("a_sign1"@, AtomModel::I(r.a_sign1 as int)),
        ("a_sign2"@, AtomModel::I(r.a_sign2 as int)),
        ("a_sign3"@, AtomModel::I(r.a_sign3 as int)),
        ("a_sign4"@, AtomModel::I(r.a_sign4 as int)),
    ]
}

pub proof fn lemma_poem_line_fields_wf(r: PoemLineRecord)
    ensures
        fields_wf(poem_line_fields(r)),
{
    reveal_strlit("level_id");
    reveal_strlit("poem_id");
    reveal_strlit("q_sign");
    reveal_strlit("a_sign1");
    reveal_strlit("a_sign2");
    reveal_strlit("a_sign3");
    reveal_strlit("a_sign4");
    lemma_pow10_18();
    assert(plain_key("level_id"@)) by {
        assert forall|i: int| 0 <= i < "level_id"@.len() implies plain_key_char(
            #[trigger] "level_id"@[i],
        ) by {}
    }
    assert(plain_key("poem_id"@)) by {
        assert forall|i: int| 0 <= i < "poem_id"@.len() implies plain_key_char(
            #[trigger] "poem_id"@[i],
        ) by {}
    }
    assert(plain_key("q_sign"@)) by {
        assert forall|i: int| 0 <= i < "q_sign"@.len() implies plain_key_char(
            #[trigger] "q_sign"@[i],
        ) by {}
    }
    assert(plain_key("a_sign1"@)) by {
        assert forall|i: int| 0 <= i < "a_sign1"@.len() implies plain_key_char(
            #[trigger] "a_sign1"@[i],
        ) by {}
    }
    assert(plain_key("a_sign2"@)) by {
        assert forall|i: int| 0 <= i < "a_sign2"@.len() implies plain_key_char(
            #[trigger] "a_sign2"@[i],
        ) by {}
    }
    assert(plain_key("a_sign3"@)) by {
        assert forall|i: int| 0 <= i < "a_sign3"@.len() implies plain_key_char(
            #[trigger] "a_sign3"@[i],
        ) by {}
    }
    assert(plain_key("a_sign4"@)) by {
        assert forall|i: int| 0 <= i < "a_sign4"@.len() implies plain_key_char(
            #[trigger] "a_sign4"@[i],
        ) by {}
    }
}

/// The JSON array items of a script, comma separated.
pub open spec fn enc_script_items(rs: Seq<PoemLineRecord>) -> Seq<char>
    decreases rs.len(),
{
    if rs.len() == 0 {
        Seq::empty()
    } else if rs.len() == 1 {
        enc_obj(poem_line_fields(rs[0]))
    } else {
        enc_obj(poem_line_fields(rs[0])) + seq![','] + enc_script_items(rs.drop_first())
    }
}

/// The JSON array text of a whole script.
pub open spec fn enc_script(rs: Seq<PoemLineRecord>) -> Seq<char> {
    seq!['['] + enc_script_items(rs) + seq![']']
}

fn encode_script_items_into(out: &mut Vec<char>, rs: &Vec<PoemLineRecord>, start: usize)
    requires
        start <= rs@.len(),
    ensures
        final(out)@ == old(out)@ + enc_script_items(rs@.skip(start as int)),
    decreases rs@.len() - start,
{
    let ghost tail = rs@.skip(start as int);
    if start >= rs.len() {
        assert(tail =~= Seq::<PoemLineRecord>::empty());
        assert(final(out)@ =~= old(out)@ + enc_script_items(tail));
    } else {
        assert(tail[0] == rs@[start as int]);
        let r = &rs[start];
        let mut fields: Vec<(Vec<char>, JsonAtom)> = Vec::new();
        fields.push((str_to_chars("level_id"), JsonAtom::I(r.level_id as i64)));
        fields.push((str_to_chars("poem_id"), JsonAtom::I(r.poem_id as i64)));
        fields.push((str_to_chars("q_sign"), JsonAtom::I(r.q_sign as i64)));
        fields.push((str_to_chars("a_sign1"), JsonAtom::I(r.a_sign1 as i64)));
        fields.push((str_to_chars("a_sign2"), JsonAtom::I(r.a_sign2 as i64)));
        fields.push((str_to_chars("a_sign3"), JsonAtom::I(r.a_sign3 as i64)));
        fields.push((str_to_chars("a_sign4"), JsonAtom::I(r.a_sign4 as i64)));
        proof {
            lemma_poem_line_fields_wf(*r);
            assert(efields_view(fields@) =~~= poem_line_fields(*r));
        }
        let obj = encode_obj(&fields);
        let mut i: usize = 0;
        while i < obj.len()
            invariant
                0 <= i <= obj@.len(),
                out@ == old(out)@ + enc_script_items(rs@.skip(start as int)).subrange(
                    0,
                    0,
                ) + obj@.subrange(0, i as int),
            decreases obj@.len() - i,
        {
            out.push(obj[i]);
            i = i + 1;
            assert(out@ =~= old(out)@ + enc_script_items(rs@.skip(start as int)).subrange(0, 0)
                + obj@.subrange(0, i as int));
        }
        assert(obj@.subrange(0, obj@.len() as int) =~= obj@);
        if start + 1 < rs.len() {
            out.push(',');
            encode_script_items_into(out, rs, start + 1);
            assert(tail.drop_first() =~= rs@.skip(start + 1));
            assert(final(out)@ =~= old(out)@ + enc_script_items(tail));
        } else {
            assert(tail.len() == 1);
            assert(final(out)@ =~= old(out)@ + enc_script_items(tail));
        }
    }
}

/// The script's wire text.
pub fn script_to_json(rs: &Vec<PoemLineRecord>) -> (r: String)
    ensures
        r@ == enc_script(rs@),
{
    let mut out: Vec<char> = Vec::new();
    out.push('[');
    encode_script_items_into(&mut out, rs, 0);
    assert(rs@.skip(0) =~= rs@);
    out.push(']');
    assert(out@ =~= enc_script(rs@));
    chars_to_string(&out)
}

/// Shuffle in place: the result holds exactly the old values.
#[verifier::loop_isolation(false)]
pub fn shuffle_u32(v: &mut Vec<u32>, rng: &mut rand::rngs::StdRng)
    ensures
        final(v)@.to_multiset() == old(v)@.to_multiset(),
        final(v)@.len() == old(v)@.len(),
{
    broadcast use group_to_multiset_ensures;

    let mut out: Vec<u32> = Vec::new();
    let ghost orig = v@;
    while v.len() > 0
        invariant
            out@.to_multiset().add(v@.to_multiset()) == orig.to_multiset(),
            out@.len() + v@.len() == orig.len(),
        decreases v@.len(),
    {
        let j = rng_below(rng, v.len() as u64) as usize;
        let ghost pre_v = v@;
        let ghost pre_out = out@;
        let x = v.remove(j);
        out.push(x);
        proof {
            assert(v@.to_multiset() =~= pre_v.to_multiset().remove(x));
            assert(out@.to_multiset() =~= pre_out.to_multiset().insert(x));
            assert(pre_v.to_multiset().count(x) > 0) by {
                assert(pre_v.contains(x));
            }
            assert(out@.to_multiset().add(v@.to_multiset()) =~= orig.to_multiset());
        }
    }
    assert(v@.to_multiset() =~= Multiset::<u32>::empty()) by {
        assert(v@ =~= Seq::<u32>::empty());
    }
    assert(out@.to_multiset() =~= orig.to_multiset());
    *v = out;
}

/// One level's questions, grouped by question sign. `line_sign_vec` lists
/// the signs in first-appearance order; `line_sign_map` keeps one non-empty
/// bucket per listed sign.
pub struct PoemRecord {
    pub line_sign_map: Vec<(u32, Vec<PoemLineRecord>)>,
    pub line_sign_vec: Vec<u32>,
}

/// First index holding `key`, or -1.
pub open spec fn find_sign(m: Seq<(u32, Vec<PoemLineRecord>)>, key: u32) -> int
    decreases m.len(),
{
    if m.len() == 0 {
        -1
    } else if m[0].0 == key {
        0
    } else {
        let rest = find_sign(m.drop_first(), key);
        if rest < 0 {
            -1
        } else {
            rest + 1
        }
    }
}

/// The sign of each bucket, in bucket order.
pub open spec fn map_signs(m: Seq<(u32, Vec<PoemLineRecord>)>) -> Seq<u32> {
    m.map_values(|p: (u32, Vec<PoemLineRecord>)| p.0)
}

/// Does some bucket of this level's bank hold the record?
pub open spec fn pr_has(pr: PoemRecord, rec: PoemLineRecord) -> bool {
    exists|i: int, j: int|
        0 <= i < pr.line_sign_map@.len() && 0 <= j < pr.line_sign_map@[i].1@.len() && rec
            == #[trigger] pr.line_sign_map@[i].1@[j]
}

/// Every record a bucket list holds, with multiplicity.
pub open spec fn pr_records(m: Seq<(u32, Vec<PoemLineRecord>)>) -> Multiset<PoemLineRecord>
    decreases m.len(),
{
    if m.len() == 0 {
        Multiset::empty()
    } else {
        pr_records(m.drop_last()).add(m.last().1@.to_multiset())
    }
}

proof fn lemma_pr_records_update_push(
    m0: Seq<(u32, Vec<PoemLineRecord>)>,
    m1: Seq<(u32, Vec<PoemLineRecord>)>,
    k: int,
    rec: PoemLineRecord,
)
    requires
        0 <= k < m0.len(),
        m1.len() == m0.len(),
        forall|j: int| 0 <= j < m0.len() && j != k ==> m1[j] == m0[j],
        m1[k].1@ == m0[k].1@.push(rec),
    ensures
        pr_records(m1) == pr_records(m0).insert(rec),
    decreases m0.len(),
{
    broadcast use group_to_multiset_ensures;
    broadcast use vstd::multiset::group_multiset_axioms;

    if k == m0.len() - 1 {
        assert(m1.drop_last() =~= m0.drop_last());
        assert(m1.last().1@.to_multiset() =~= m0.last().1@.to_multiset().insert(rec));
        assert(pr_records(m0.drop_last()).add(m0.last().1@.to_multiset().insert(rec))
            =~= pr_records(m0.drop_last()).add(m0.last().1@.to_multiset()).insert(rec));
    } else {
        assert(m1.last() == m0.last());
        assert(forall|j: int|
            0 <= j < m0.drop_last().len() && j != k ==> m1.drop_last()[j] == m0.drop_last()[j]);
        assert(m1.drop_last()[k] == m1[k] && m0.drop_last()[k] == m0[k]);
        lemma_pr_records_update_push(m0.drop_last(), m1.drop_last(), k, rec);
        assert(pr_records(m0.drop_last()).insert(rec).add(m0.last().1@.to_multiset())
            =~= pr_records(m0.drop_last()).add(m0.last().1@.to_multiset()).insert(rec));
    }
}

proof fn lemma_pr_records_push_single(
    m0: Seq<(u32, Vec<PoemLineRecord>)>,
    e: (u32, Vec<PoemLineRecord>),
    rec: PoemLineRecord,
)
    requires
        e.1@ == seq![rec],
    ensures
        pr_records(m0.push(e)) == pr_records(m0).insert(rec),
{
    broadcast use group_to_multiset_ensures;
    broadcast use vstd::multiset::group_multiset_axioms;

    assert(m0.push(e).drop_last() =~= m0);
    assert(m0.push(e).last() == e);
    assert(seq![rec] =~= Seq::<PoemLineRecord>::empty().push(rec));
    assert(e.1@.to_multiset() =~= Multiset::<PoemLineRecord>::empty().insert(rec));
    assert(pr_records(m0).add(Multiset::<PoemLineRecord>::empty().insert(rec)) =~= pr_records(
        m0,
    ).insert(rec));
}

/// Filing one record adds it to the bank and nothing else.
proof fn lemma_pr_has_after_add(pr0: PoemRecord, pr1: PoemRecord, k: int, rec: PoemLineRecord)
    requires
        ({
            let m0 = pr0.line_sign_map@;
            let m1 = pr1.line_sign_map@;
            if k >= 0 {
                &&& 0 <= k < m0.len()
                &&& m1.len() == m0.len()
                &&& (forall|j: int| 0 <= j < m0.len() && j != k ==> m1[j] == m0[j])
                &&& m1[k].1@ == m0[k].1@.push(rec)
            } else {
                &&& m1.len() == m0.len() + 1
                &&& (forall|j: int| 0 <= j < m0.len() ==> m1[j] == m0[j])
                &&& m1.last().1@ == seq![rec]
            }
        }),
    ensures
        forall|x: PoemLineRecord| pr_has(pr1, x) <==> (pr_has(pr0, x) || x == rec),
{
    let m0 = pr0.line_sign_map@;
    let m1 = pr1.line_sign_map@;
    assert forall|x: PoemLineRecord| pr_has(pr1, x) implies (pr_has(pr0, x) || x == rec) by {
        let (i, j) = choose|i: int, j: int|
            0 <= i < m1.len() && 0 <= j < m1[i].1@.len() && x == #[trigger] m1[i].1@[j];
        if k >= 0 {
            if i == k {
                if j < m0[k].1@.len() {
                    assert(x == m0[k].1@[j]);
                }
            } else {
                assert(m1[i] == m0[i]);
            }
        } else {
            if i < m0.len() {
                assert(m1[i] == m0[i]);
            }
        }
    }
    assert forall|x: PoemLineRecord| (pr_has(pr0, x) || x == rec) implies pr_has(pr1, x) by {
        if pr_has(pr0, x) {
            let (i, j) = choose|i: int, j: int|
                0 <= i < m0.len() && 0 <= j < m0[i].1@.len() && x == #[trigger] m0[i].1@[j];
            if k >= 0 && i == k {
                assert(x == m1[k].1@[j]);
            } else {
                assert(m1[i] == m0[i]);
                assert(x == m1[i].1@[j]);
            }
        } else {
            if k >= 0 {
                assert(x == m1[k].1@[m0[k].1@.len() as int]);
            } else {
                assert(x == m1[m0.len() as int].1@[0]);
            }
        }
    }
}

proof fn lemma_find_sign_prefix(m: Seq<(u32, Vec<PoemLineRecord>)>, key: u32, i: int)
    requires
        0 <= i <= m.len(),
        forall|k: int| 0 <= k < i ==> (#[trigger] m[k]).0 != key,
    ensures
        i == m.len() ==> find_sign(m, key) == -1,
        i < m.len() && m[i].0 == key ==> find_sign(m, key) == i,
    decreases m.len(),
{
    if m.len() > 0 && i > 0 {
        assert(forall|k: int| 0 <= k < i - 1 ==> (#[trigger] m.drop_first()[k]).0 != key);
        lemma_find_sign_prefix(m.drop_first(), key, i - 1);
    }
}

impl PoemRecord {
    /// The sign list holds exactly the buckets' signs (in some order, as
    /// the list is shuffled on every draw), the signs are pairwise
    /// distinct, no bucket is empty, and every bucket holds only records
    /// of its own sign.
    pub open spec fn wf(&self) -> bool {
        &&& self.line_sign_vec@.to_multiset() == map_signs(self.line_sign_map@).to_multiset()
        &&& forall|i: int|
            0 <= i < self.line_sign_map@.len() ==> (#[trigger] self.line_sign_map@[i]).1@.len() > 0
        &&& forall|i: int, j: int|
            #![trigger self.line_sign_map@[i].0, self.line_sign_map@[j].0]
            0 <= i < j < self.line_sign_map@.len() ==> self.line_sign_map@[i].0
                != self.line_sign_map@[j].0
        &&& forall|i: int, j: int|
            #![trigger self.line_sign_map@[i].1@[j]]
            0 <= i < self.line_sign_map@.len() && 0 <= j < self.line_sign_map@[i].1@.len()
                ==> self.line_sign_map@[i].1@[j].q_sign == self.line_sign_map@[i].0
    }

    pub fn new() -> (r: Self)
        ensures
            r.wf(),
            r.line_sign_map@.len() == 0,
    {
        let r = Self { line_sign_map: Vec::new(), line_sign_vec: Vec::new() };
        proof {
            assert(map_signs(r.line_sign_map@) =~= Seq::<u32>::empty());
            assert(r.line_sign_vec@ =~= Seq::<u32>::empty());
        }
        r
    }

    /// File one question under its sign: into the sign's bucket when the
    /// sign is known, else under a fresh sign at the end. Exactly the new
    /// record is added; no other bucket changes.
    #[verifier::loop_isolation(false)]
    pub fn add_line_record(&mut self, line_record: PoemLineRecord)
        requires
            old(self).wf(),
        ensures
            final(self).wf(),
            final(self).line_sign_map@.len() >= old(self).line_sign_map@.len(),
            final(self).line_sign_map@.len() >= 1,
            pr_records(final(self).line_sign_map@) == pr_records(old(self).line_sign_map@).insert(
                line_record,
            ),
            forall|x: PoemLineRecord|
                pr_has(*final(self), x) <==> (pr_has(*old(self), x) || x == line_record),
            ({
                let m0 = old(self).line_sign_map@;
                let m1 = final(self).line_sign_map@;
                let k = find_sign(m0, line_record.q_sign);
                if k >= 0 {
                    &&& m1.len() == m0.len()
                    &&& (forall|j: int| 0 <= j < m0.len() && j != k ==> m1[j] == m0[j])
                    &&& m1[k].0 == m0[k].0
                    &&& m1[k].1@ == m0[k].1@.push(line_record)
                    &&& final(self).line_sign_vec@ == old(self).line_sign_vec@
                } else {
                    &&& m1.len() == m0.len() + 1
                    &&& (forall|j: int| 0 <= j < m0.len() ==> m1[j] == m0[j])
                    &&& m1.last().0 == line_record.q_sign
                    &&& m1.last().1@ == seq![line_record]
                    &&& final(self).line_sign_vec@ == old(self).line_sign_vec@.push(
                        line_record.q_sign,
                    )
                }
            }),
    {
        let key = line_record.q_sign;
        let n = self.line_sign_map.len();
        let mut i: usize = 0;
        while i < n && self.line_sign_map[i].0 != key
            invariant
                0 <= i <= n,
                n == self.line_sign_map@.len(),
                self == old(self),
                forall|k: int| 0 <= k < i ==> (#[trigger] self.line_sign_map@[k]).0 != key,
            decreases n - i,
        {
            i = i + 1;
        }
        proof {
            lemma_find_sign_prefix(self.line_sign_map@, key, i as int);
        }
        if i < n {
            self.line_sign_map[i].1.push(line_record);
            proof {
                assert(forall|k: int|
                    0 <= k < self.line_sign_map@.len() && k != i ==> self.line_sign_map@[k] == old(
                        self,
                    ).line_sign_map@[k]);
                assert(map_signs(self.line_sign_map@) =~= map_signs(old(self).line_sign_map@));
                lemma_pr_records_update_push(
                    old(self).line_sign_map@,
                    self.line_sign_map@,
                    i as int,
                    line_record,
                );
                lemma_pr_has_after_add(*old(self), *self, i as int, line_record);
            }
        } else {
            let mut bucket: Vec<PoemLineRecord> = Vec::new();
            bucket.push(line_record);
            self.line_sign_map.push((key, bucket));
            self.line_sign_vec.push(key);
            proof {
                broadcast use group_to_multiset_ensures;

                assert(map_signs(self.line_sign_map@) =~= map_signs(old(self).line_sign_map@).push(
                    key,
                ));
                assert(self.line_sign_map@.drop_last() =~= old(self).line_sign_map@);
                lemma_pr_records_push_single(
                    old(self).line_sign_map@,
                    self.line_sign_map@.last(),
                    line_record,
                );
                assert(self.line_sign_map@ =~= old(self).line_sign_map@.push(
                    self.line_sign_map@.last(),
                ));
                lemma_pr_has_after_add(*old(self), *self, -1, line_record);
            }
        }
    }

    /// Draw one question: a uniformly shuffled sign, then a uniform record
    /// of that sign's bucket. The record comes from this level's bank.
    #[verifier::loop_isolation(false)]
    pub fn get_random_line_record(&mut self, rng: &mut rand::rngs::StdRng) -> (r: Option<
        PoemLineRecord,
    >)
        requires
            old(self).wf(),
            old(self).line_sign_map@.len() > 0,
        ensures
            final(self).wf(),
            final(self).line_sign_map@ == old(self).line_sign_map@,
            ({
                let m = final(self).line_sign_map@;
                r matches Some(rec) && exists|i: int, j: int|
                    0 <= i < m.len() && 0 <= j < m[i].1@.len() && rec == #[trigger] m[i].1@[j]
            }),
    {
        proof {
            broadcast use group_to_multiset_ensures;

            assert(map_signs(old(self).line_sign_map@).len() > 0);
        }
        shuffle_u32(&mut self.line_sign_vec, rng);
        assert(self.line_sign_vec@.len() > 0) by {
            broadcast use group_to_multiset_ensures;

            let signs = map_signs(old(self).line_sign_map@);
            assert(old(self).line_sign_vec@.to_multiset().len() == old(self).line_sign_vec@.len());
            assert(signs.to_multiset().len() == signs.len());
        }
        let selected = self.line_sign_vec[0];
        let n = self.line_sign_map.len();
        let mut i: usize = 0;
        let ghost m = self.line_sign_map@;
        while i < n
            invariant
                0 <= i <= n,
                n == m.len(),
                self.line_sign_map@ == m,
                forall|k: int| 0 <= k < i ==> (#[trigger] m[k]).0 != selected,
            decreases n - i,
        {
            if self.line_sign_map[i].0 == selected {
                let bucket_len = self.line_sign_map[i].1.len();
                assert(bucket_len > 0);
                let j = rng_below(rng, bucket_len as u64) as usize;
                let rec = self.line_sign_map[i].1[j];
                proof {
                    assert(0 <= i < m.len() && 0 <= j < m[i as int].1@.len() && rec == m[i as int
                        ].1@[j as int]);
                }
                return Some(rec);
            }
            i = i + 1;
        }
        // unreachable: the first shuffled sign is among the buckets' signs
        proof {
            broadcast use group_to_multiset_ensures;

            let signs = map_signs(m);
            assert(self.line_sign_vec@.contains(selected)) by {
                assert(self.line_sign_vec@[0] == selected);
            }
            assert(signs.to_multiset().count(selected) > 0);
            assert(signs.contains(selected));
            let k = choose|k: int| 0 <= k < signs.len() && signs[k] == selected;
            assert(m[k].0 == selected);
            assert(false);
        }
        None
    }
}

/// The whole bank: one `PoemRecord` per level id, the distinct-level count,
/// and the fixed level-band table saying which level ids a player of a
/// given level band may draw from.
pub struct PoemTable {
    pub level_map: Vec<(u32, PoemRecord)>,
    pub count: u32,
    pub level_vec_map: Vec<(u32, Vec<u32>)>,
}

/// Every record the whole bank holds, with multiplicity.
pub open spec fn table_records(m: Seq<(u32, PoemRecord)>) -> Multiset<PoemLineRecord>
    decreases m.len(),
{
    if m.len() == 0 {
        Multiset::empty()
    } else {
        table_records(m.drop_last()).add(pr_records(m.last().1.line_sign_map@))
    }
}

/// Does the bank have an entry for this level id?
pub open spec fn bank_has_level(m: Seq<(u32, PoemRecord)>, id: u32) -> bool {
    exists|i: int| 0 <= i < m.len() && (#[trigger] m[i]).0 == id
}

/// Does some level's bank hold the record?
pub open spec fn in_bank(m: Seq<(u32, PoemRecord)>, rec: PoemLineRecord) -> bool {
    exists|i: int| 0 <= i < m.len() && pr_has((#[trigger] m[i]).1, rec)
}

/// The fixed id range `lo..=hi`, in order (empty when `hi < lo`).
pub open spec fn id_range(lo: u32, hi: u32) -> Seq<u32> {
    Seq::new(
        if hi >= lo {
            (hi - lo + 1) as nat
        } else {
            0
        },
        |k: int| (lo + k) as u32,
    )
}

/// First band entry holding `key`, or -1.
pub open spec fn find_band(m: Seq<(u32, Vec<u32>)>, key: u32) -> int
    decreases m.len(),
{
    if m.len() == 0 {
        -1
    } else if m[0].0 == key {
        0
    } else {
        let rest = find_band(m.drop_first(), key);
        if rest < 0 {
            -1
        } else {
            rest + 1
        }
    }
}

proof fn lemma_find_band_prefix(m: Seq<(u32, Vec<u32>)>, key: u32, i: int)
    requires
        0 <= i <= m.len(),
        forall|k: int| 0 <= k < i ==> (#[trigger] m[k]).0 != key,
    ensures
        i == m.len() ==> find_band(m, key) == -1,
        i < m.len() && m[i].0 == key ==> find_band(m, key) == i,
    decreases m.len(),
{
    if m.len() > 0 && i > 0 {
        assert(forall|k: int| 0 <= k < i - 1 ==> (#[trigger] m.drop_first()[k]).0 != key);
        lemma_find_band_prefix(m.drop_first(), key, i - 1);
    }
}

proof fn lemma_table_records_update(
    m0: Seq<(u32, PoemRecord)>,
    m1: Seq<(u32, PoemRecord)>,
    k: int,
    rec: PoemLineRecord,
)
    requires
        0 <= k < m0.len(),
        m1.len() == m0.len(),
        forall|j: int| 0 <= j < m0.len() && j != k ==> m1[j] == m0[j],
        pr_records(m1[k].1.line_sign_map@) == pr_records(m0[k].1.line_sign_map@).insert(rec),
    ensures
        table_records(m1) == table_records(m0).insert(rec),
    decreases m0.len(),
{
    broadcast use vstd::multiset::group_multiset_axioms;

    if k == m0.len() - 1 {
        assert(m1.drop_last() =~= m0.drop_last());
        assert(table_records(m0.drop_last()).add(
            pr_records(m0.last().1.line_sign_map@).insert(rec),
        ) =~= table_records(m0.drop_last()).add(pr_records(m0.last().1.line_sign_map@)).insert(
            rec,
        ));
    } else {
        assert(m1.last() == m0.last());
        assert(forall|j: int|
            0 <= j < m0.drop_last().len() && j != k ==> m1.drop_last()[j] == m0.drop_last()[j]);
        assert(m1.drop_last()[k] == m1[k] && m0.drop_last()[k] == m0[k]);
        lemma_table_records_update(m0.drop_last(), m1.drop_last(), k, rec);
        assert(table_records(m0.drop_last()).insert(rec).add(
            pr_records(m0.last().1.line_sign_map@),
        ) =~= table_records(m0.drop_last()).add(pr_records(m0.last().1.line_sign_map@)).insert(
            rec,
        ));
    }
}

proof fn lemma_table_records_push(
    m0: Seq<(u32, PoemRecord)>,
    e: (u32, PoemRecord),
    rec: PoemLineRecord,
)
    requires
        pr_records(e.1.line_sign_map@) == Multiset::<PoemLineRecord>::empty().insert(rec),
    ensures
        table_records(m0.push(e)) == table_records(m0).insert(rec),
{
    broadcast use vstd::multiset::group_multiset_axioms;

    assert(m0.push(e).drop_last() =~= m0);
    assert(m0.push(e).last() == e);
    assert(table_records(m0).add(Multiset::<PoemLineRecord>::empty().insert(rec))
        =~= table_records(m0).insert(rec));
}

proof fn lemma_id_range_no_dup(lo: u32, hi: u32)
    requires
        hi < u32::MAX,
    ensures
        id_range(lo, hi).no_duplicates(),
{
    let s = id_range(lo, hi);
    assert forall|i: int, j: int|
        0 <= i < s.len() && 0 <= j < s.len() && i != j implies s[i] != s[j] by {
        assert(s[i] == (lo + i) as u32 && s[j] == (lo + j) as u32);
    }
}

/// The level ids `lo..=hi`, in order (empty when `hi < lo`).
fn range_vec(lo: u32, hi: u32) -> (r: Vec<u32>)
    requires
        hi < u32::MAX,
    ensures
        r@ == id_range(lo, hi),
        hi >= lo ==> r@.len() == hi - lo + 1,
        hi < lo ==> r@.len() == 0,
        forall|k: int| 0 <= k < r@.len() ==> r@[k] == lo + k,
{
    let mut r: Vec<u32> = Vec::new();
    if hi < lo {
        assert(r@ =~= id_range(lo, hi));
        return r;
    }
    let mut x = lo;
    while x <= hi
        invariant
            lo <= x <= hi + 1,
            hi < u32::MAX,
            r@.len() == x - lo,
            forall|k: int| 0 <= k < r@.len() ==> r@[k] == lo + k,
        decreases hi + 1 - x,
    {
        r.push(x);
        x = x + 1;
    }
    assert(r@ =~= id_range(lo, hi));
    r
}

impl PoemTable {
    /// Every level entry is a well-formed, non-empty per-level bank filed
    /// under a distinct level id and holding only records of that level;
    /// every band's id list is duplicate-free.
    pub open spec fn wf(&self) -> bool {
        &&& forall|i: int|
            0 <= i < self.level_map@.len() ==> (#[trigger] self.level_map@[i]).1.wf() && self
                .level_map@[i].1.line_sign_map@.len() > 0
        &&& forall|i: int, j: int|
            #![trigger self.level_map@[i].0, self.level_map@[j].0]
            0 <= i < j < self.level_map@.len() ==> self.level_map@[i].0 != self.level_map@[j].0
        &&& forall|i: int, rec: PoemLineRecord|
            #![trigger pr_has(self.level_map@[i].1, rec)]
            0 <= i < self.level_map@.len() && pr_has(self.level_map@[i].1, rec) ==> rec.level_id
                == self.level_map@[i].0
        &&& forall|b: int|
            0 <= b < self.level_vec_map@.len() ==> (#[trigger] self.level_vec_map@[b]).1@.no_duplicates()
    }

    /// Build the bank from the question records read at startup, and set
    /// up the fixed level-band table: the bank holds exactly the given
    /// records, grouped by level id (and by question sign within one), the
    /// count is the number of distinct level ids seen, and the band table
    /// is the fixed one.
    #[verifier::loop_isolation(false)]
    pub fn new(records: Vec<PoemLineRecord>) -> (r: Self)
        requires
            records@.len() < 4294967295,
        ensures
            r.wf(),
            table_records(r.level_map@) == records@.to_multiset(),
            r.count == r.level_map@.len(),
            forall|i: int|
                0 <= i < r.level_map@.len() ==> (exists|j: int|
                    0 <= j < records@.len() && records@[j].level_id == (
                    #[trigger] r.level_map@[i]).0),
            forall|j: int|
                0 <= j < records@.len() ==> bank_has_level(
                    r.level_map@,
                    (#[trigger] records@[j]).level_id,
                ),
            r.level_vec_map@.len() == 8,
            r.level_vec_map@[0].0 == 1 && r.level_vec_map@[0].1@ == id_range(1, 20),
            r.level_vec_map@[1].0 == 11 && r.level_vec_map@[1].1@ == id_range(100, 300),
            r.level_vec_map@[2].0 == 21 && r.level_vec_map@[2].1@ == id_range(200, 400),
            r.level_vec_map@[3].0 == 31 && r.level_vec_map@[3].1@ == id_range(300, 500),
            r.level_vec_map@[4].0 == 41 && r.level_vec_map@[4].1@ == id_range(400, 600),
            r.level_vec_map@[5].0 == 51 && r.level_vec_map@[5].1@ == id_range(500, 700),
            r.level_vec_map@[6].0 == 61 && r.level_vec_map@[6].1@ == id_range(600, 800),
            r.level_vec_map@[7].0 == 71 && r.level_vec_map@[7].1@ == id_range(300, r.count),
    {
        broadcast use group_to_multiset_ensures;

        let mut level_map: Vec<(u32, PoemRecord)> = Vec::new();
        let mut records = records;
        let mut sum: u32 = 0;
        let ghost orig = records@;
        let ghost n0 = records@.len();
        proof {
            assert(orig.skip(0) =~= orig);
            assert(orig.take(0) =~= Seq::<PoemLineRecord>::empty());
            assert(orig.take(0).to_multiset() =~= Multiset::<PoemLineRecord>::empty());
        }
        loop
            invariant
                n0 < 4294967295,
                records@ == orig.skip(n0 - records@.len()),
                sum == level_map@.len(),
                level_map@.len() <= n0 - records@.len(),
                table_records(level_map@) == orig.take(n0 - records@.len()).to_multiset(),
                forall|i: int|
                    0 <= i < level_map@.len() ==> (#[trigger] level_map@[i]).1.wf()
                        && level_map@[i].1.line_sign_map@.len() > 0,
                forall|i: int, j: int|
                    #![trigger level_map@[i].0, level_map@[j].0]
                    0 <= i < j < level_map@.len() ==> level_map@[i].0 != level_map@[j].0,
                forall|i: int, rec: PoemLineRecord|
                    #![trigger pr_has(level_map@[i].1, rec)]
                    0 <= i < level_map@.len() && pr_has(level_map@[i].1, rec) ==> rec.level_id
                        == level_map@[i].0,
                forall|i: int|
                    0 <= i < level_map@.len() ==> (exists|j: int|
                        0 <= j < n0 - records@.len() && orig[j].level_id == (
                        #[trigger] level_map@[i]).0),
                forall|j: int|
                    0 <= j < n0 - records@.len() ==> bank_has_level(
                        level_map@,
                        (#[trigger] orig[j]).level_id,
                    ),
            decreases records@.len(),
        {
            if records.len() == 0 {
                break ;
            }
            let ghost done = n0 - records@.len();
            proof {
                assert(orig.skip(done)[0] == orig[done]);
                assert(orig.take(done + 1).drop_last() =~= orig.take(done));
                assert(orig.take(done + 1).last() == orig[done]);
                assert(orig.take(done + 1).to_multiset() =~= orig.take(done).to_multiset().insert(
                    orig[done],
                )) by {
                    assert(orig.take(done + 1) =~= orig.take(done).push(orig[done]));
                }
            }
            let line_record = records.remove(0);
            proof {
                assert(records@ =~= orig.skip(done + 1));
            }
            let level_id = line_record.level_id;
            let n = level_map.len();
            let mut i: usize = 0;
            while i < n && level_map[i].0 != level_id
                invariant
                    0 <= i <= n,
                    n == level_map@.len(),
                    forall|k: int| 0 <= k < i ==> (#[trigger] level_map@[k]).0 != level_id,
                decreases n - i,
            {
                i = i + 1;
            }
            if i < n {
                let ghost lm_pre = level_map@;
                level_map[i].1.add_line_record(line_record);
                proof {
                    assert(forall|k: int|
                        0 <= k < level_map@.len() && k != i ==> (#[trigger] level_map@[k])
                            == lm_pre[k]);
                    assert(level_map@[i as int].0 == lm_pre[i as int].0);
                    lemma_table_records_update(lm_pre, level_map@, i as int, line_record);
                    assert forall|ii: int, rec: PoemLineRecord|
                        0 <= ii < level_map@.len() && #[trigger] pr_has(
                            level_map@[ii].1,
                            rec,
                        ) implies rec.level_id == level_map@[ii].0 by {
                        if ii == i {
                            assert(pr_has(lm_pre[ii].1, rec) || rec == line_record);
                        } else {
                            assert(pr_has(lm_pre[ii].1, rec));
                        }
                    }
                    assert forall|j: int| 0 <= j < done + 1 implies bank_has_level(
                        level_map@,
                        (#[trigger] orig[j]).level_id,
                    ) by {
                        if j < done {
                            let w = choose|w: int|
                                0 <= w < lm_pre.len() && (#[trigger] lm_pre[w]).0
                                    == orig[j].level_id;
                            assert(level_map@[w].0 == orig[j].level_id);
                        } else {
                            assert(level_map@[i as int].0 == orig[done].level_id);
                        }
                    }
                }
            } else {
                let mut poem_record = PoemRecord::new();
                proof {
                    assert(poem_record.line_sign_map@ =~= Seq::<(
                        u32,
                        Vec<PoemLineRecord>,
                    )>::empty());
                }
                let ghost pr0 = poem_record;
                poem_record.add_line_record(line_record);
                let ghost lm_pre = level_map@;
                level_map.push((level_id, poem_record));
                sum = sum + 1;
                proof {
                    assert(pr_records(poem_record.line_sign_map@)
                        =~= Multiset::<PoemLineRecord>::empty().insert(line_record));
                    assert(level_map@ =~= lm_pre.push((level_id, poem_record)));
                    lemma_table_records_push(lm_pre, (level_id, poem_record), line_record);
                    assert forall|ii: int, rec: PoemLineRecord|
                        0 <= ii < level_map@.len() && #[trigger] pr_has(
                            level_map@[ii].1,
                            rec,
                        ) implies rec.level_id == level_map@[ii].0 by {
                        if ii < lm_pre.len() {
                            assert(level_map@[ii] == lm_pre[ii]);
                        } else {
                            assert(!pr_has(pr0, rec));
                            assert(pr_has(pr0, rec) || rec == line_record);
                        }
                    }
                    assert forall|j: int| 0 <= j < done + 1 implies bank_has_level(
                        level_map@,
                        (#[trigger] orig[j]).level_id,
                    ) by {
                        if j < done {
                            let w = choose|w: int|
                                0 <= w < lm_pre.len() && (#[trigger] lm_pre[w]).0
                                    == orig[j].level_id;
                            assert(level_map@[w].0 == orig[j].level_id);
                        } else {
                            assert(level_map@[lm_pre.len() as int].0 == orig[done].level_id);
                        }
                    }
                }
            }
        }
        proof {
            assert(orig.take(n0 as int) =~= orig);
        }
        let mut level_vec_map: Vec<(u32, Vec<u32>)> = Vec::new();
        level_vec_map.push((1, range_vec(1, 20)));
        level_vec_map.push((11, range_vec(100, 300)));
        level_vec_map.push((21, range_vec(200, 400)));
        level_vec_map.push((31, range_vec(300, 500)));
        level_vec_map.push((41, range_vec(400, 600)));
        level_vec_map.push((51, range_vec(500, 700)));
        level_vec_map.push((61, range_vec(600, 800)));
        level_vec_map.push((71, range_vec(300, sum)));
        proof {
            lemma_id_range_no_dup(1, 20);
            lemma_id_range_no_dup(100, 300);
            lemma_id_range_no_dup(200, 400);
            lemma_id_range_no_dup(300, 500);
            lemma_id_range_no_dup(400, 600);
            lemma_id_range_no_dup(500, 700);
            lemma_id_range_no_dup(600, 800);
            lemma_id_range_no_dup(300, sum);
        }
        Self { level_map, count: sum, level_vec_map }
    }

    /// Which band key a player level falls in.
    pub open spec fn band_key_of(level: u32) -> u32 {
        if level <= 10 {
            1u32
        } else if level <= 20 {
            11u32
        } else if level <= 30 {
            21u32
        } else if level <= 40 {
            31u32
        } else if level <= 50 {
            41u32
        } else if level <= 60 {
            51u32
        } else if level <= 70 {
            61u32
        } else {
            71u32
        }
    }

    /// Which band key a player level falls in.
    pub fn band_key(level: u32) -> (r: u32)
        ensures
            r == Self::band_key_of(level),
    {
        if level <= 10 {
            1
        } else if level <= 20 {
            11
        } else if level <= 30 {
            21
        } else if level <= 40 {
            31
        } else if level <= 50 {
            41
        } else if level <= 60 {
            51
        } else if level <= 70 {
            61
        } else {
            71
        }
    }

    /// Sample a round script: shuffle the band's level ids, then draw one
    /// question from each of the first `count` shuffled ids. A script is
    /// complete or refused: on success it has exactly `count` records, one
    /// from each of `count` pairwise-distinct level ids of the band. The
    /// draw is refused when the band is unknown, asked for nothing, longer
    /// than the band's id list, or when a drawn id has no questions; when
    /// every id of the band is in the bank, no draw can fail, so success
    /// is owed.
    #[verifier::loop_isolation(false)]
    pub fn get_random_game_data(
        &mut self,
        rng: &mut rand::rngs::StdRng,
        level: u32,
        count: u32,
    ) -> (r: Option<Vec<PoemLineRecord>>)
        requires
            old(self).wf(),
        ensures
            final(self).wf(),
            final(self).count == old(self).count,
            // the bank keeps its records; only per-level draw orders change
            final(self).level_map@.len() == old(self).level_map@.len(),
            forall|i: int|
                0 <= i < old(self).level_map@.len() ==> (#[trigger] final(self).level_map@[i]).0
                    == old(self).level_map@[i].0 && final(self).level_map@[i].1.line_sign_map@
                    == old(self).level_map@[i].1.line_sign_map@,
            // the bands keep their keys and id sets; one may be reordered
            final(self).level_vec_map@.len() == old(self).level_vec_map@.len(),
            forall|b: int|
                0 <= b < old(self).level_vec_map@.len() ==> (
                #[trigger] final(self).level_vec_map@[b]).0 == old(self).level_vec_map@[b].0
                    && final(self).level_vec_map@[b].1@.to_multiset() == old(
                    self,
                ).level_vec_map@[b].1@.to_multiset(),
            ({
                let bands = old(self).level_vec_map@;
                let bank = old(self).level_map@;
                let bk = find_band(bands, Self::band_key_of(level));
                &&& (bk < 0 ==> r is None)
                &&& (bk >= 0 && (count == 0 || count > bands[bk].1@.len()) ==> r is None)
                &&& (bk >= 0 && 1 <= count <= bands[bk].1@.len() && (forall|k: int|
                    0 <= k < bands[bk].1@.len() ==> bank_has_level(
                        bank,
                        #[trigger] bands[bk].1@[k],
                    )) ==> r is Some)
                &&& (r matches Some(v) ==> v@.len() == count && (exists|ids: Seq<u32>|
                    #![trigger ids.no_duplicates()]
                    {
                        &&& ids.no_duplicates()
                        &&& ids.len() == count
                        &&& (forall|k: int|
                            0 <= k < count ==> bands[bk].1@.to_multiset().count(
                                #[trigger] ids[k],
                            ) > 0)
                        &&& (forall|k: int|
                            0 <= k < count ==> (#[trigger] v@[k]).level_id == ids[k] && in_bank(
                                bank,
                                v@[k],
                            ))
                    }))
            }),
    {
        broadcast use group_to_multiset_ensures;

        let key = Self::band_key(level);
        let nb = self.level_vec_map.len();
        let mut bi: usize = 0;
        while bi < nb && self.level_vec_map[bi].0 != key
            invariant
                0 <= bi <= nb,
                nb == self.level_vec_map@.len(),
                self == old(self),
                forall|k: int| 0 <= k < bi ==> (#[trigger] self.level_vec_map@[k]).0 != key,
            decreases nb - bi,
        {
            bi = bi + 1;
        }
        proof {
            lemma_find_band_prefix(self.level_vec_map@, key, bi as int);
        }
        if bi >= nb {
            return None;
        }
        if count == 0 {
            return None;
        }
        let ghost band0 = old(self).level_vec_map@[bi as int].1@;
        shuffle_u32(&mut self.level_vec_map[bi].1, rng);
        proof {
            assert(forall|i: int|
                0 <= i < self.level_map@.len() ==> self.level_map@[i] == old(self).level_map@[i]);
            assert(forall|b: int|
                0 <= b < self.level_vec_map@.len() && b != bi ==> (
                #[trigger] self.level_vec_map@[b]) == old(self).level_vec_map@[b]);
            assert(self.level_vec_map@[bi as int].1@.no_duplicates()) by {
                band0.lemma_multiset_has_no_duplicates();
                self.level_vec_map@[bi as int].1@.lemma_multiset_has_no_duplicates_conv();
            }
            assert(self.wf());
        }
        if (count as usize) > self.level_vec_map[bi].1.len() {
            return None;
        }
        let ghost shuffled = self.level_vec_map@[bi as int].1@;
        let ghost bank0 = old(self).level_map@;
        let mut selected: Vec<PoemLineRecord> = Vec::new();
        let mut i: usize = 0;
        while i < count as usize
            invariant
                0 <= i <= count,
                bi < self.level_vec_map@.len(),
                count <= shuffled.len(),
                self.wf(),
                self.level_vec_map@[bi as int].1@ == shuffled,
                forall|b: int|
                    0 <= b < self.level_vec_map@.len() && b != bi ==> (
                    #[trigger] self.level_vec_map@[b]) == old(self).level_vec_map@[b],
                self.level_vec_map@[bi as int].0 == old(self).level_vec_map@[bi as int].0,
                self.level_vec_map@.len() == old(self).level_vec_map@.len(),
                self.count == old(self).count,
                self.level_map@.len() == bank0.len(),
                forall|k: int|
                    0 <= k < bank0.len() ==> (#[trigger] self.level_map@[k]).0 == bank0[k].0
                        && self.level_map@[k].1.line_sign_map@ == bank0[k].1.line_sign_map@,
                selected@.len() == i,
                forall|k: int|
                    0 <= k < i ==> (#[trigger] selected@[k]).level_id == shuffled[k] && in_bank(
                        bank0,
                        selected@[k],
                    ),
            decreases count - i,
        {
            let level_id = self.level_vec_map[bi].1[i];
            let nl = self.level_map.len();
            let mut li: usize = 0;
            let ghost pre = *self;
            while li < nl && self.level_map[li].0 != level_id
                invariant
                    0 <= li <= nl,
                    nl == self.level_map@.len(),
                    *self == pre,
                    forall|k: int| 0 <= k < li ==> (#[trigger] self.level_map@[k]).0 != level_id,
                decreases nl - li,
            {
                li = li + 1;
            }
            if li >= nl {
                // the drawn id has no questions: the band was not fully
                // covered by the bank, so no success was owed
                proof {
                    assert(!bank_has_level(bank0, level_id)) by {
                        if bank_has_level(bank0, level_id) {
                            let w = choose|w: int|
                                0 <= w < bank0.len() && (#[trigger] bank0[w]).0 == level_id;
                            assert(self.level_map@[w].0 == level_id);
                        }
                    }
                    assert(band0.to_multiset().count(level_id) > 0) by {
                        assert(shuffled.contains(level_id)) by {
                            assert(shuffled[i as int] == level_id);
                        }
                    }
                    assert(band0.contains(level_id));
                }
                return None;
            }
            let rec_opt = self.level_map[li].1.get_random_line_record(rng);
            proof {
                assert(forall|k: int|
                    0 <= k < self.level_map@.len() && k != li ==> (#[trigger] self.level_map@[k])
                        == pre.level_map@[k]);
                assert(self.level_map@[li as int].0 == pre.level_map@[li as int].0);
                assert(self.level_map@[li as int].1.line_sign_map@ == pre.level_map@[li
                    as int].1.line_sign_map@);
                assert forall|ii: int, rec: PoemLineRecord|
                    0 <= ii < self.level_map@.len() && #[trigger] pr_has(
                        self.level_map@[ii].1,
                        rec,
                    ) implies rec.level_id == self.level_map@[ii].0 by {
                    if ii == li {
                        let (a, b) = choose|a: int, b: int|
                            0 <= a < self.level_map@[ii].1.line_sign_map@.len() && 0 <= b
                                < self.level_map@[ii].1.line_sign_map@[a].1@.len() && rec == #[trigger] self.level_map@[ii].1.line_sign_map@[a].1@[b];
                        assert(rec == pre.level_map@[ii].1.line_sign_map@[a].1@[b]);
                        assert(pr_has(pre.level_map@[ii].1, rec));
                    } else {
                        assert(pr_has(pre.level_map@[ii].1, rec));
                    }
                }
                assert(self.wf());
            }
            let random_line_record = match rec_opt {
                Some(rec) => rec,
                None => vstd::pervasive::unreached(),
            };
            proof {
                assert(pr_has(self.level_map@[li as int].1, random_line_record));
                assert(random_line_record.level_id == self.level_map@[li as int].0);
                assert(in_bank(bank0, random_line_record)) by {
                    assert(pr_has(bank0[li as int].1, random_line_record));
                }
            }
            selected.push(random_line_record);
            i = i + 1;
        }
        proof {
            let ghost ids = shuffled.subrange(0, count as int);
            assert(ids.no_duplicates()) by {
                assert(shuffled.no_duplicates()) by {
                    band0.lemma_multiset_has_no_duplicates();
                    shuffled.lemma_multiset_has_no_duplicates_conv();
                }
            }
            assert forall|k: int| 0 <= k < count implies band0.to_multiset().count(
                #[trigger] ids[k],
            ) > 0 by {
                assert(shuffled.contains(shuffled[k])) by {
                    assert(0 <= k < shuffled.len());
                }
            }
            assert(forall|k: int|
                0 <= k < count ==> (#[trigger] selected@[k]).level_id == ids[k] && in_bank(
                    bank0,
                    selected@[k],
                ));
        }
        return Some(selected);
    }
}

} // verus!
