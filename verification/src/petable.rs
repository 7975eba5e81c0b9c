//! The Elo expectation table: disjoint Elo-gap bands, each carrying the
//! expected-score fractions of both players (in thousandths) and a coarse
//! tolerance group used by the matchmaker.

use vstd::prelude::*;

verus! {

/// One band of the table. `ea_mill` and `eb_mill` are expected-score
/// fractions in thousandths (760 stands for 0.76).
#[derive(Clone)]
pub struct PERecord {
    pub dmin: u32,
    pub dmax: u32,
    pub ea_mill: u32,
    pub eb_mill: u32,
    pub group: u32,
}

/// The absolute Elo difference of two ratings.
pub open spec fn elo_gap(a: u32, b: u32) -> int {
    if a >= b {
        a - b
    } else {
        b - a
    }
}

/// The first band covering gap `d`, or the out-of-range sentinel
/// (certain win for the stronger player, group 9).
pub open spec fn pet_lookup(rows: Seq<PERecord>, d: int) -> (u32, u32, u32)
    decreases rows.len(),
{
    if rows.len() == 0 {
        (1000u32, 0u32, 9u32)
    } else if rows[0].dmin <= d <= rows[0].dmax {
        (rows[0].ea_mill, rows[0].eb_mill, rows[0].group)
    } else {
        pet_lookup(rows.drop_first(), d)
    }
}

pub struct PETable {
    pub pe_vec: Vec<PERecord>,
}

impl PETable {
    /// Build the table from its rows (read once at startup by the caller).
    pub fn new(pe_vec: Vec<PERecord>) -> (r: Self)
        ensures
            r.pe_vec@ == pe_vec@,
    {
        Self { pe_vec }
    }

    /// Expected-score fractions and tolerance group for two ratings.
    #[verifier::loop_isolation(false)]
    pub fn get_ea_eb(&self, elo1_score: u32, elo2_score: u32) -> (r: (u32, u32, u32))
        ensures
            r == pet_lookup(self.pe_vec@, elo_gap(elo1_score, elo2_score)),
    {
        let diff_score: u32 = if elo1_score > elo2_score {
            elo1_score - elo2_score
        } else {
            elo2_score - elo1_score
        };
        let ghost d = elo_gap(elo1_score, elo2_score);
        assert(self.pe_vec@.skip(0) =~= self.pe_vec@);
        let mut i: usize = 0;
        while i < self.pe_vec.len()
            invariant
                0 <= i <= self.pe_vec@.len(),
                diff_score as int == d,
                pet_lookup(self.pe_vec@, d) == pet_lookup(self.pe_vec@.skip(i as int), d),
            decreases self.pe_vec@.len() - i,
        {
            let row = &self.pe_vec[i];
            proof {
                assert(self.pe_vec@.skip(i as int)[0] == self.pe_vec@[i as int]);
                assert(self.pe_vec@.skip(i as int).drop_first() =~= self.pe_vec@.skip(i + 1));
            }
            if row.dmin <= diff_score && diff_score <= row.dmax {
                return (row.ea_mill, row.eb_mill, row.group);
            }
            i = i + 1;
        }
        assert(self.pe_vec@.skip(self.pe_vec@.len() as int) =~= Seq::<PERecord>::empty());
        (1000, 0, 9)
    }
}

} // verus!
