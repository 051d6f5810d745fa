use vstd::multiset::Multiset;
use vstd::prelude::*;

use crate::clock::now_unix;
use crate::evaluator::EligibilityResult;
use crate::program::ProgramId;
use crate::text::{dec_digits, digit_char, u64_to_string};
use crate::tdiv;

verus! {

/// One appended history row: a verdict at an epoch, stamped when it was
/// captured.
#[derive(Debug)]
pub struct EligibilityRecord {
    pub vote_pubkey: String,
    pub program: ProgramId,
    pub epoch: u64,
    pub eligible: bool,
    pub score: Option<i64>,
    pub delegation_sol: Option<i64>,
    pub captured_at: i64,
}

/// Turns one verdict into a history row, stamped with the capture time.
pub fn record_from_result(vote_pubkey: String, epoch: u64, result: &EligibilityResult) -> (r:
    EligibilityRecord)
    ensures
        r.vote_pubkey == vote_pubkey,
        r.program == result.program,
        r.epoch == epoch,
        r.eligible == result.eligible,
        r.score == result.score,
        r.delegation_sol == result.estimated_delegation_sol,
{
    EligibilityRecord {
        vote_pubkey,
        program: result.program,
        epoch,
        eligible: result.eligible,
        score: result.score,
        delegation_sol: result.estimated_delegation_sol,
        captured_at: now_unix(),
    }
}

/// Whether a record is counted under an optional program filter.
pub open spec fn record_selected(r: EligibilityRecord, filter: Option<ProgramId>) -> bool {
    match filter {
        Some(p) => r.program == p,
        None => true,
    }
}

/// How many records the filter keeps.
pub open spec fn count_selected(s: Seq<EligibilityRecord>, filter: Option<ProgramId>) -> int
    decreases s.len(),
{
    if s.len() == 0 {
        0
    } else {
        count_selected(s.drop_last(), filter) + (if record_selected(s.last(), filter) {
            1int
        } else {
            0int
        })
    }
}

/// How many kept records were eligible.
pub open spec fn count_eligible(s: Seq<EligibilityRecord>, filter: Option<ProgramId>) -> int
    decreases s.len(),
{
    if s.len() == 0 {
        0
    } else {
        count_eligible(s.drop_last(), filter) + (if record_selected(s.last(), filter)
            && s.last().eligible {
            1int
        } else {
            0int
        })
    }
}

/// The eligible share in tenths of a percent, rounded half up.
pub open spec fn permille_of(eligible: int, total: int) -> int {
    (eligible * 2000 + total) / (2 * total)
}

/// The summary line of a history query.
pub open spec fn spec_timeline_summary(
    s: Seq<EligibilityRecord>,
    filter: Option<ProgramId>,
) -> Seq<char> {
    if s.len() == 0 {
        "No history records found."@
    } else if count_selected(s, filter) == 0 {
        "No matching records for selected program."@
    } else {
        let e = count_eligible(s, filter);
        let t = count_selected(s, filter);
        let pm = permille_of(e, t);
        "Eligibility ratio: "@ + dec_digits(e as nat) + "/"@ + dec_digits(t as nat) + " ("@
            + dec_digits((pm / 10) as nat) + "."@ + seq![digit_char(pm % 10)] + "%)"@
    }
}

/// Summarises a history query: the eligible share of the kept records,
/// as a ratio and a rounded percentage, or a fixed line when nothing is
/// kept.
pub fn summarize_timeline(records: &[EligibilityRecord], program: Option<ProgramId>) -> (r: String)
    ensures
        r@ == spec_timeline_summary(records@, program),
{
    if records.len() == 0 {
        return String::from_str("No history records found.");
    }
    let mut eligible_count: u64 = 0;
    let mut total: u64 = 0;
    let mut i: usize = 0;
    while i < records.len()
        invariant
            0 <= i <= records@.len(),
            eligible_count as int == count_eligible(records@.take(i as int), program),
            total as int == count_selected(records@.take(i as int), program),
            eligible_count <= total <= i,
        decreases records@.len() - i,
    {
        proof {
            assert(records@.take(i as int + 1).drop_last() =~= records@.take(i as int));
            assert(records@.take(i as int + 1).last() == records@[i as int]);
        }
        let selected = match program {
            Some(p) => records[i].program == p,
            None => true,
        };
        if selected {
            total = total + 1;
            if records[i].eligible {
                eligible_count = eligible_count + 1;
            }
        }
        i = i + 1;
    }
    proof {
        assert(records@.take(records@.len() as int) =~= records@);
    }
    if total == 0 {
        return String::from_str("No matching records for selected program.");
    }
    let pm_wide: u128 = ((eligible_count as u128) * 2000 + (total as u128)) / (2
        * (total as u128));
    proof {
        let b: int = 0xffff_ffff_ffff_ffff;
        assert((eligible_count as u128) * 2000 <= b * 2000) by (nonlinear_arith)
            requires
                0 <= eligible_count as u128 <= b,
        ;
        assert(pm_wide as int == permille_of(eligible_count as int, total as int));
        assert(pm_wide <= 1000) by {
            vstd::arithmetic::div_mod::lemma_div_is_ordered(
                eligible_count as int * 2000 + total as int,
                total as int * 2000 + total as int,
                2 * total as int,
            );
            vstd::arithmetic::mul::lemma_mul_inequality(
                eligible_count as int,
                total as int,
                2000,
            );
            vstd::arithmetic::div_mod::lemma_fundamental_div_mod_converse(
                total as int * 2000 + total as int,
                2 * total as int,
                1000,
                total as int,
            );
        }
    }
    let pm: u64 = pm_wide as u64;
    let mut s = String::from_str("Eligibility ratio: ");
    s.append(u64_to_string(eligible_count).as_str());
    s.append("/");
    s.append(u64_to_string(total).as_str());
    s.append(" (");
    s.append(u64_to_string(pm / 10).as_str());
    s.append(".");
    s.append(digit_str_of(pm % 10));
    s.append("%)");
    proof {
        assert(s@ =~= spec_timeline_summary(records@, program));
    }
    s
}

/// One decimal digit as text.
fn digit_str_of(d: u64) -> (r: &'static str)
    requires
        d < 10,
    ensures
        r@ =~= seq![digit_char(d as int)],
{
    proof {
        reveal_strlit("0");
        reveal_strlit("1");
        reveal_strlit("2");
        reveal_strlit("3");
        reveal_strlit("4");
        reveal_strlit("5");
        reveal_strlit("6");
        reveal_strlit("7");
        reveal_strlit("8");
        reveal_strlit("9");
    }
    match d {
        0 => "0",
        1 => "1",
        2 => "2",
        3 => "3",
        4 => "4",
        5 => "5",
        6 => "6",
        7 => "7",
        8 => "8",
        _ => "9",
    }
}

/// Quantities that arrived in lamports are scaled down to SOL: a
/// magnitude of a billion or more is taken to be lamports.
pub fn lamports_to_sol_if_needed(value: i64) -> (r: i64)
    ensures
        r as int == if value >= 10_000_000_000_000 || value <= -10_000_000_000_000 {
            tdiv(value as int, 1_000_000_000)
        } else {
            value as int
        },
{
    if value >= 10_000_000_000_000 || value <= -10_000_000_000_000 {
        value / 1_000_000_000
    } else {
        value
    }
}

/// Quantities that arrived in basis points are scaled down to percent: a
/// magnitude over one hundred is taken to be basis points.
pub fn bps_to_percent_if_needed(value: i64) -> (r: i64)
    ensures
        r as int == if value > 1_000_000 || value < -1_000_000 {
            tdiv(value as int, 100)
        } else {
            value as int
        },
{
    if value > 1_000_000 || value < -1_000_000 {
        value / 100
    } else {
        value
    }
}

/// Whether a value sequence is sorted ascending.
pub open spec fn sorted_asc(s: Seq<i64>) -> bool {
    forall|i: int, j: int| 0 <= i < j < s.len() ==> s[i] <= s[j]
}

/// An ascending copy of the values.
fn sort_values(values: &Vec<i64>) -> (r: Vec<i64>)
    ensures
        r@.to_multiset() == values@.to_multiset(),
        sorted_asc(r@),
        r@.len() == values@.len(),
{
    broadcast use vstd::seq_lib::group_to_multiset_ensures;

    let mut rest: Vec<i64> = Vec::new();
    let mut i: usize = 0;
    while i < values.len()
        invariant
            0 <= i <= values@.len(),
            rest@ =~= values@.subrange(0, i as int),
        decreases values@.len() - i,
    {
        rest.push(values[i]);
        i = i + 1;
    }
    proof {
        assert(rest@ =~= values@);
    }
    let ghost target = values@.to_multiset();
    let ghost total = values@.len();
    let mut out: Vec<i64> = Vec::new();
    while rest.len() > 0
        invariant
            out@.to_multiset().add(rest@.to_multiset()) =~= target,
            out@.len() + rest@.len() == total,
            sorted_asc(out@),
            forall|p: int, q: int|
                0 <= p < out@.len() && 0 <= q < rest@.len() ==> out@[p] <= rest@[q],
        decreases rest@.len(),
    {
        let mut best: usize = 0;
        let mut m: usize = 1;
        while m < rest.len()
            invariant
                0 <= best < m <= rest@.len(),
                rest@.len() > 0,
                forall|k: int| 0 <= k < m ==> rest@[best as int] <= rest@[k],
            decreases rest@.len() - m,
        {
            if rest[m] < rest[best] {
                best = m;
            }
            m = m + 1;
        }
        let ghost pre_rest = rest@;
        let ghost pre_out = out@;
        let picked = rest.remove(best);
        out.push(picked);
        proof {
            pre_rest.to_multiset_ensures();
            pre_out.to_multiset_ensures();
            assert(rest@ =~= pre_rest.remove(best as int));
            assert(pre_rest.remove(best as int).to_multiset() =~= pre_rest.to_multiset().remove(
                picked,
            ));
            assert(pre_rest.contains(picked));
            assert(pre_rest.to_multiset().count(picked) > 0);
            assert(out@ =~= pre_out.push(picked));
            assert((pre_out.push(picked)).to_multiset() =~= pre_out.to_multiset().insert(picked));
            assert(out@.to_multiset().add(rest@.to_multiset()) =~= target);
        }
    }
    proof {
        out@.to_multiset_ensures();
        rest@.to_multiset_ensures();
        vstd::multiset::lemma_multiset_empty_len(rest@.to_multiset());
        assert(rest@.to_multiset() =~= Multiset::<i64>::empty());
        assert(out@.to_multiset() =~= target);
        values@.to_multiset_ensures();
    }
    out
}

/// The index a percentile picks in a sorted list: the nearest rank,
/// rounded half up, with the percentile clamped to the unit band
/// (fixed point).
pub open spec fn percentile_index(len: int, pct: int) -> int {
    let p = if pct < 0 {
        0
    } else if pct > 10_000 {
        10_000
    } else {
        pct
    };
    ((len - 1) * p + 5_000) / 10_000
}

/// The value at a percentile of the given samples: the element of the
/// ascending ordering at the nearest rank; absent for an empty list.
pub fn percentile(values: &Vec<i64>, pct: i64) -> (r: Option<i64>)
    ensures
        r is Some <==> values@.len() > 0,
        match r {
            Some(v) => values@.contains(v) && exists|s: Seq<i64>|
                #![auto]
                s.to_multiset() == values@.to_multiset() && sorted_asc(s) && s.len()
                    == values@.len() && v == s[percentile_index(
                    values@.len() as int,
                    pct as int,
                )],
            None => true,
        },
{
    if values.len() == 0 {
        return None;
    }
    let sorted = sort_values(values);
    let p: i64 = if pct < 0 {
        0
    } else if pct > 10_000 {
        10_000
    } else {
        pct
    };
    proof {
        let b: int = 0xffff_ffff_ffff_ffff;
        assert(((sorted@.len() - 1) as i128) * (p as i128) <= b * 10_000) by (nonlinear_arith)
            requires
                0 <= (sorted@.len() - 1) as i128 <= b,
                0 <= p as i128 <= 10_000,
        ;
        assert(((sorted@.len() - 1) as i128) * (p as i128) >= 0) by (nonlinear_arith)
            requires
                0 <= (sorted@.len() - 1) as i128,
                0 <= p as i128,
        ;
    }
    let idx_wide: i128 = (((sorted.len() - 1) as i128) * (p as i128) + 5_000) / 10_000;
    proof {
        vstd::arithmetic::div_mod::lemma_div_pos_is_pos(
            (sorted@.len() - 1) * (p as int) + 5_000,
            10_000,
        );
        assert((sorted@.len() - 1) * (p as int) <= (sorted@.len() - 1) * 10_000)
            by (nonlinear_arith)
            requires
                0 <= p as int <= 10_000,
                sorted@.len() >= 1,
        ;
        vstd::arithmetic::div_mod::lemma_div_is_ordered(
            (sorted@.len() - 1) * (p as int) + 5_000,
            (sorted@.len() - 1) * 10_000 + 5_000,
            10_000,
        );
        vstd::arithmetic::mul::lemma_mul_inequality(p as int, 10_000, sorted@.len() - 1);
        assert((sorted@.len() - 1) * (p as int) == (p as int) * (sorted@.len() - 1))
            by (nonlinear_arith);
        assert((sorted@.len() - 1) * 10_000 == 10_000 * (sorted@.len() - 1)) by (nonlinear_arith);
        assert(((sorted@.len() - 1) * 10_000 + 5_000) / 10_000 <= sorted@.len() - 1) by {
            vstd::arithmetic::div_mod::lemma_div_is_ordered(
                (sorted@.len() - 1) * 10_000 + 5_000,
                (sorted@.len() - 1) * 10_000 + 9_999,
                10_000,
            );
            vstd::arithmetic::div_mod::lemma_fundamental_div_mod_converse(
                (sorted@.len() - 1) * 10_000 + 9_999,
                10_000,
                sorted@.len() - 1,
                9_999,
            );
        }
    }
    let idx = idx_wide as usize;
    let v = sorted[idx];
    proof {
        broadcast use vstd::seq_lib::group_to_multiset_ensures;

        assert(sorted@.contains(v)) by {
            assert(sorted@[idx as int] == v);
        }
        assert(values@.to_multiset().count(v) > 0) by {
            assert(sorted@.to_multiset().count(v) > 0);
        }
        assert(values@.contains(v));
        assert(v == sorted@[percentile_index(values@.len() as int, pct as int)]);
    }
    Some(v)
}

} // verus!
