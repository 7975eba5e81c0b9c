//! The bot identity pool: four queues of pre-named identities handed out
//! round-robin and returned when a game ends. When the pool runs dry a
//! fresh identity is synthesized from a UUID and a random player number.

use vstd::prelude::*;

verus! {

use std::collections::VecDeque;

use crate::jsontext::chars_to_string;
use crate::jsontext::dec_digits;
use crate::jsontext::encode_u64_into;
use crate::jsontext::str_to_chars;
use crate::rng::rng_below;

/// One pooled bot identity.
pub struct RobotRecord {
    pub id: String,
    pub name: String,
}

/// Relies on `Uuid::new_v4` and its simple formatting: a fresh identifier
/// of exactly 32 hexadecimal digits. Nothing else is assumed of the value.
#[verifier::external_body]
fn uuid_simple_id() -> (r: String)
    ensures
        r@.len() == 32,
{
    uuid::Uuid::new_v4().simple().to_string()
}

/// The identities that round-robin dealing sends to queue `k`: those at
/// positions congruent to `k` modulo 4, in their original order.
pub open spec fn dealt_queue(records: Seq<RobotRecord>, k: int) -> Seq<RobotRecord>
    decreases records.len(),
{
    if records.len() == 0 {
        Seq::empty()
    } else {
        let prev = dealt_queue(records.drop_last(), k);
        if (records.len() - 1) % 4 == k {
            prev.push(records.last())
        } else {
            prev
        }
    }
}

/// One dealing step: position `i` goes to queue `i % 4`, the rest stay.
proof fn lemma_dealt_step(orig: Seq<RobotRecord>, i: int)
    requires
        0 <= i < orig.len(),
    ensures
        forall|k: int|
            0 <= k < 4 ==> #[trigger] dealt_queue(orig.take(i + 1), k) == (if i % 4 == k {
                dealt_queue(orig.take(i), k).push(orig[i])
            } else {
                dealt_queue(orig.take(i), k)
            }),
{
    assert(orig.take(i + 1).drop_last() =~= orig.take(i));
    assert(orig.take(i + 1).last() == orig[i]);
    assert(orig.take(i + 1).len() == i + 1);
}

pub struct RobotTable {
    pub q0: VecDeque<RobotRecord>,
    pub q1: VecDeque<RobotRecord>,
    pub q2: VecDeque<RobotRecord>,
    pub q3: VecDeque<RobotRecord>,
    pub get_index: usize,
    pub back_index: usize,
}

impl RobotTable {
    /// The queue that slot `k` of the round-robin addresses.
    pub open spec fn queue(&self, k: int) -> Seq<RobotRecord> {
        if k == 0 {
            self.q0@
        } else if k == 1 {
            self.q1@
        } else if k == 2 {
            self.q2@
        } else {
            self.q3@
        }
    }

    /// The queues other than slot `k` are unchanged.
    pub open spec fn queues_same_but(&self, other: &Self, k: int) -> bool {
        forall|m: int| 0 <= m < 4 && m != k ==> self.queue(m) == other.queue(m)
    }

    /// Build the pool from identities read at startup, dealt round-robin
    /// across the four queues in order.
    #[verifier::loop_isolation(false)]
    pub fn new(records: Vec<RobotRecord>) -> (r: Self)
        ensures
            r.get_index == 0,
            r.back_index == 0,
            forall|k: int| 0 <= k < 4 ==> #[trigger] r.queue(k) == dealt_queue(records@, k),
    {
        let mut q0: VecDeque<RobotRecord> = VecDeque::new();
        let mut q1: VecDeque<RobotRecord> = VecDeque::new();
        let mut q2: VecDeque<RobotRecord> = VecDeque::new();
        let mut q3: VecDeque<RobotRecord> = VecDeque::new();
        let mut records = records;
        let rlen = records.len();
        let ghost orig = records@;
        let ghost n0 = records@.len();
        assert(n0 == rlen);
        proof {
            assert(orig.skip(0) =~= orig);
            assert(orig.take(0) =~= Seq::<RobotRecord>::empty());
        }
        let mut record_index: usize = 0;
        loop
            invariant
                record_index + records@.len() == n0,
                n0 <= usize::MAX,
                records@ == orig.skip(record_index as int),
                q0@ == dealt_queue(orig.take(record_index as int), 0),
                q1@ == dealt_queue(orig.take(record_index as int), 1),
                q2@ == dealt_queue(orig.take(record_index as int), 2),
                q3@ == dealt_queue(orig.take(record_index as int), 3),
            decreases records@.len(),
        {
            if records.len() == 0 {
                break ;
            }
            proof {
                assert(orig.skip(record_index as int)[0] == orig[record_index as int]);
                lemma_dealt_step(orig, record_index as int);
            }
            let rec = records.remove(0);
            proof {
                assert(records@ =~= orig.skip(record_index + 1));
            }
            let k = record_index % 4;
            if k == 0 {
                q0.push_back(rec);
            } else if k == 1 {
                q1.push_back(rec);
            } else if k == 2 {
                q2.push_back(rec);
            } else {
                q3.push_back(rec);
            }
            record_index = record_index + 1;
        }
        proof {
            assert(orig.take(n0 as int) =~= orig);
        }
        Self { q0, q1, q2, q3, get_index: 0, back_index: 0 }
    }

    /// Take the next identity in round-robin order; when the addressed
    /// queue is empty, synthesize one: a 32-digit id and a name
    /// `Player` followed by a random number in [100000, 999990).
    pub fn get_id_name(&mut self, rng: &mut rand::rngs::StdRng) -> (r: (String, String))
        ensures
            final(self).get_index == (old(self).get_index + 1) % 4,
            final(self).back_index == old(self).back_index,
            final(self).queues_same_but(old(self), old(self).get_index as int % 4),
            ({
                let k = old(self).get_index as int % 4;
                let q = old(self).queue(k);
                if q.len() > 0 {
                    final(self).queue(k) == q.drop_first() && r.0@ == q[0].id@ && r.1@ == q[0].name@
                } else {
                    final(self).queue(k) == q && r.0@.len() == 32 && (exists|n: int|
                        100000 <= n < 999990 && r.1@ == "Player"@ + dec_digits(n))
                }
            }),
    {
        let k = self.get_index % 4;
        let popped: Option<RobotRecord> = if k == 0 {
            self.q0.pop_front()
        } else if k == 1 {
            self.q1.pop_front()
        } else if k == 2 {
            self.q2.pop_front()
        } else {
            self.q3.pop_front()
        };
        self.get_index = if k >= 3 {
            0
        } else {
            k + 1
        };
        proof {
            assert(self.get_index as int == (old(self).get_index + 1) % 4) by {
                assert(k as int == old(self).get_index as int % 4);
            }
        }
        match popped {
            Some(rec) => (rec.id, rec.name),
            None => {
                let num: u64 = 100000 + rng_below(rng, 899990);
                let id = uuid_simple_id();
                let mut name_chars = str_to_chars("Player");
                encode_u64_into(&mut name_chars, num);
                let name = chars_to_string(&name_chars);
                (id, name)
            },
        }
    }

    /// Return an identity to the pool, round-robin over the four queues.
    pub fn back_id_name(&mut self, id: String, name: String)
        ensures
            final(self).back_index == (old(self).back_index + 1) % 4,
            final(self).get_index == old(self).get_index,
            final(self).queues_same_but(old(self), old(self).back_index as int % 4),
            ({
                let k = old(self).back_index as int % 4;
                final(self).queue(k).len() == old(self).queue(k).len() + 1 && final(self).queue(
                    k,
                )[0].id@ == id@ && final(self).queue(k)[0].name@ == name@ && final(self).queue(
                    k,
                ).drop_first() == old(self).queue(k)
            }),
    {
        let robot = RobotRecord { id, name };
        let k = self.back_index % 4;
        if k == 0 {
            self.q0.push_front(robot);
        } else if k == 1 {
            self.q1.push_front(robot);
        } else if k == 2 {
            self.q2.push_front(robot);
        } else {
            self.q3.push_front(robot);
        }
        self.back_index = if k >= 3 {
            0
        } else {
            k + 1
        };
        proof {
            assert(self.back_index as int == (old(self).back_index + 1) % 4) by {
                assert(k as int == old(self).back_index as int % 4);
            }
            assert(self.queue(k as int).drop_first() =~= old(self).queue(k as int));
        }
    }
}

} // verus!
