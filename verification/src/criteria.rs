use vstd::prelude::*;

use crate::clock::now_unix;
use crate::fp_valid;
use crate::metric::{criterion_eqv, Constraint, Criterion, MetricKey};
use crate::program::ProgramId;

verus! {

/// Bounds that keep a criterion's arithmetic free of overflow: numeric
/// constraint payloads and the weight stay within the global limit.
pub open spec fn criterion_wf(c: Criterion) -> bool {
    &&& match c.constraint {
        Constraint::Min(v) => fp_valid(v),
        Constraint::Max(v) => fp_valid(v),
        Constraint::Range { min, max } => fp_valid(min) && fp_valid(max),
        _ => true,
    }
    &&& match c.weight {
        Some(w) => fp_valid(w),
        None => true,
    }
}

/// A program's full rule collection at one fetch: the rules in order,
/// the fetch time (Unix seconds), where they came from, and a content
/// hash over the canonical form of the rules alone.
#[derive(Debug)]
pub struct CriteriaSet {
    pub program: ProgramId,
    pub fetched_at: i64,
    pub source_url: String,
    pub criteria: Vec<Criterion>,
    pub raw_hash: String,
}

impl CriteriaSet {
    /// Every criterion in the set stays within the global bounds.
    pub open spec fn wf(self) -> bool {
        forall|i: int| 0 <= i < self.criteria@.len() ==> criterion_wf(#[trigger] self.criteria@[i])
    }
}

/// Whether two criteria lists agree element by element.
pub open spec fn criteria_eqv(a: Seq<Criterion>, b: Seq<Criterion>) -> bool {
    a.len() == b.len() && forall|i: int| 0 <= i < a.len() ==> criterion_eqv(#[trigger] a[i], b[i])
}

/// A number as eight little-endian bytes.
pub open spec fn le8(n: nat) -> Seq<u8> {
    seq![
        (n % 256) as u8,
        ((n / 256) % 256) as u8,
        ((n / 65536) % 256) as u8,
        ((n / 16777216) % 256) as u8,
        ((n / 4294967296) % 256) as u8,
        ((n / 1099511627776) % 256) as u8,
        ((n / 281474976710656) % 256) as u8,
        ((n / 72057594037927936) % 256) as u8,
    ]
}

/// A character as four little-endian bytes of its code point.
pub open spec fn le4(n: nat) -> Seq<u8> {
    seq![(n % 256) as u8, ((n / 256) % 256) as u8, ((n / 65536) % 256) as u8, ((n / 16777216)
        % 256) as u8]
}

/// The canonical bytes of a text: its length, then each code point.
pub open spec fn enc_chars(s: Seq<char>) -> Seq<u8>
    decreases s.len(),
{
    if s.len() == 0 {
        Seq::empty()
    } else {
        enc_chars(s.drop_last()) + le4(s.last() as u32 as nat)
    }
}

pub open spec fn enc_str(s: Seq<char>) -> Seq<u8> {
    le8(s.len()) + enc_chars(s)
}

/// The canonical bytes of a metric key: a tag, plus the name for the
/// custom variant.
pub open spec fn enc_metric(k: MetricKey) -> Seq<u8> {
    match k {
        MetricKey::Commission => seq![0u8],
        MetricKey::ActivatedStake => seq![1u8],
        MetricKey::SkipRate => seq![2u8],
        MetricKey::VoteCredits => seq![3u8],
        MetricKey::UptimePercent => seq![4u8],
        MetricKey::SolanaVersion => seq![5u8],
        MetricKey::DatacenterConcentration => seq![6u8],
        MetricKey::SuperminorityStatus => seq![7u8],
        MetricKey::MevCommission => seq![8u8],
        MetricKey::StakeConcentration => seq![9u8],
        MetricKey::InfrastructureDiversity => seq![10u8],
        MetricKey::Custom(name) => seq![11u8] + enc_str(name@),
    }
}

/// The canonical bytes of a text list.
pub open spec fn enc_str_list(items: Seq<String>) -> Seq<u8>
    decreases items.len(),
{
    if items.len() == 0 {
        Seq::empty()
    } else {
        enc_str_list(items.drop_last()) + enc_str(items.last()@)
    }
}

/// The canonical bytes of a constraint: a tag, then its payload.
pub open spec fn enc_constraint(c: Constraint) -> Seq<u8> {
    match c {
        Constraint::Min(v) => seq![0u8] + le8(v as u64 as nat),
        Constraint::Max(v) => seq![1u8] + le8(v as u64 as nat),
        Constraint::Range { min, max } => seq![2u8] + le8(min as u64 as nat) + le8(
            max as u64 as nat,
        ),
        Constraint::Equals(s) => seq![3u8] + enc_str(s@),
        Constraint::OneOf(items) => seq![4u8] + le8(items@.len()) + enc_str_list(items@),
        Constraint::Boolean(b) => seq![
            5u8,
            if b {
                1u8
            } else {
                0u8
            },
        ],
        Constraint::Custom(s) => seq![6u8] + enc_str(s@),
    }
}

pub open spec fn enc_weight(w: Option<i64>) -> Seq<u8> {
    match w {
        None => seq![0u8],
        Some(v) => seq![1u8] + le8(v as u64 as nat),
    }
}

/// The canonical bytes of one criterion: every field in order.
pub open spec fn enc_criterion(c: Criterion) -> Seq<u8> {
    enc_str(c.name@) + enc_metric(c.metric) + enc_constraint(c.constraint) + enc_weight(c.weight)
        + enc_str(c.description@)
}

/// The canonical bytes of a rule list, over which the content hash is
/// taken: a function of the rules' content alone.
pub open spec fn enc_criteria(s: Seq<Criterion>) -> Seq<u8>
    decreases s.len(),
{
    if s.len() == 0 {
        Seq::empty()
    } else {
        enc_criteria(s.drop_last()) + enc_criterion(s.last())
    }
}

fn push_le8(out: &mut Vec<u8>, n: u64)
    ensures
        final(out)@ == old(out)@ + le8(n as nat),
{
    out.push((n % 256) as u8);
    out.push(((n / 256) % 256) as u8);
    out.push(((n / 65536) % 256) as u8);
    out.push(((n / 16777216) % 256) as u8);
    out.push(((n / 4294967296) % 256) as u8);
    out.push(((n / 1099511627776) % 256) as u8);
    out.push(((n / 281474976710656) % 256) as u8);
    out.push(((n / 72057594037927936) % 256) as u8);
    proof {
        assert(out@ =~= old(out)@ + le8(n as nat));
    }
}

fn push_str_enc(out: &mut Vec<u8>, s: &str)
    ensures
        final(out)@ == old(out)@ + enc_str(s@),
{
    let n = s.unicode_len();
    push_le8(out, n as u64);
    let mut i: usize = 0;
    while i < n
        invariant
            0 <= i <= n,
            n == s@.len(),
            out@ == old(out)@ + le8(n as nat) + enc_chars(s@.take(i as int)),
        decreases n - i,
    {
        let c = s.get_char(i);
        let u = c as u32;
        out.push((u % 256) as u8);
        out.push(((u / 256) % 256) as u8);
        out.push(((u / 65536) % 256) as u8);
        out.push(((u / 16777216) % 256) as u8);
        proof {
            assert(s@.take(i as int + 1).drop_last() =~= s@.take(i as int));
            assert(s@.take(i as int + 1).last() == s@[i as int]);
            assert(out@ =~= old(out)@ + le8(n as nat) + enc_chars(s@.take(i as int + 1)));
        }
        i = i + 1;
    }
    proof {
        assert(s@.take(n as int) =~= s@);
        assert(out@ =~= old(out)@ + enc_str(s@));
    }
}

fn push_constraint_enc(out: &mut Vec<u8>, c: &Constraint)
    ensures
        final(out)@ == old(out)@ + enc_constraint(*c),
{
    match c {
        Constraint::Min(v) => {
            out.push(0u8);
            push_le8(out, *v as u64);
        },
        Constraint::Max(v) => {
            out.push(1u8);
            push_le8(out, *v as u64);
        },
        Constraint::Range { min, max } => {
            out.push(2u8);
            push_le8(out, *min as u64);
            push_le8(out, *max as u64);
        },
        Constraint::Equals(s) => {
            out.push(3u8);
            push_str_enc(out, s.as_str());
        },
        Constraint::OneOf(items) => {
            out.push(4u8);
            push_le8(out, items.len() as u64);
            let mut i: usize = 0;
            while i < items.len()
                invariant
                    0 <= i <= items@.len(),
                    out@ == old(out)@ + seq![4u8] + le8(items@.len()) + enc_str_list(
                        items@.take(i as int),
                    ),
                decreases items@.len() - i,
            {
                push_str_enc(out, items[i].as_str());
                proof {
                    assert(items@.take(i as int + 1).drop_last() =~= items@.take(i as int));
                    assert(items@.take(i as int + 1).last() == items@[i as int]);
                    assert(out@ =~= old(out)@ + seq![4u8] + le8(items@.len()) + enc_str_list(
                        items@.take(i as int + 1),
                    ));
                }
                i = i + 1;
            }
            proof {
                assert(items@.take(items@.len() as int) =~= items@);
            }
        },
        Constraint::Boolean(b) => {
            out.push(5u8);
            out.push(
                if *b {
                    1u8
                } else {
                    0u8
                },
            );
        },
        Constraint::Custom(s) => {
            out.push(6u8);
            push_str_enc(out, s.as_str());
        },
    }
    proof {
        assert(out@ =~= old(out)@ + enc_constraint(*c));
    }
}

fn push_metric_enc(out: &mut Vec<u8>, k: &MetricKey)
    ensures
        final(out)@ == old(out)@ + enc_metric(*k),
{
    match k {
        MetricKey::Commission => out.push(0u8),
        MetricKey::ActivatedStake => out.push(1u8),
        MetricKey::SkipRate => out.push(2u8),
        MetricKey::VoteCredits => out.push(3u8),
        MetricKey::UptimePercent => out.push(4u8),
        MetricKey::SolanaVersion => out.push(5u8),
        MetricKey::DatacenterConcentration => out.push(6u8),
        MetricKey::SuperminorityStatus => out.push(7u8),
        MetricKey::MevCommission => out.push(8u8),
        MetricKey::StakeConcentration => out.push(9u8),
        MetricKey::InfrastructureDiversity => out.push(10u8),
        MetricKey::Custom(name) => {
            out.push(11u8);
            push_str_enc(out, name.as_str());
        },
    }
    proof {
        assert(out@ =~= old(out)@ + enc_metric(*k));
    }
}

fn push_criterion_enc(out: &mut Vec<u8>, c: &Criterion)
    ensures
        final(out)@ == old(out)@ + enc_criterion(*c),
{
    push_str_enc(out, c.name.as_str());
    push_metric_enc(out, &c.metric);
    push_constraint_enc(out, &c.constraint);
    match &c.weight {
        None => out.push(0u8),
        Some(v) => {
            out.push(1u8);
            push_le8(out, *v as u64);
        },
    }
    push_str_enc(out, c.description.as_str());
    proof {
        assert(out@ =~= old(out)@ + enc_criterion(*c));
    }
}

/// The canonical byte form of a rule list, the input of the content hash.
pub fn canonical_bytes(criteria: &Vec<Criterion>) -> (r: Vec<u8>)
    ensures
        r@ == enc_criteria(criteria@),
{
    let mut out: Vec<u8> = Vec::new();
    let mut i: usize = 0;
    while i < criteria.len()
        invariant
            0 <= i <= criteria@.len(),
            out@ == enc_criteria(criteria@.take(i as int)),
        decreases criteria@.len() - i,
    {
        push_criterion_enc(&mut out, &criteria[i]);
        proof {
            assert(criteria@.take(i as int + 1).drop_last() =~= criteria@.take(i as int));
            assert(criteria@.take(i as int + 1).last() == criteria@[i as int]);
            assert(out@ =~= enc_criteria(criteria@.take(i as int + 1)));
        }
        i = i + 1;
    }
    proof {
        assert(criteria@.take(criteria@.len() as int) =~= criteria@);
    }
    out
}

/// The hex form of the SHA-256 digest of some bytes: a function of the
/// bytes alone.
pub uninterp spec fn sha256_hex_of(bytes: Seq<u8>) -> Seq<char>;

/// Relies on `sha2::Sha256`: the digest depends on the bytes alone and
/// is rendered here as 64 lower-case hex characters.
#[verifier::external_body]
fn sha256_hex(bytes: &Vec<u8>) -> (r: String)
    ensures
        r@ == sha256_hex_of(bytes@),
        r@.len() == 64,
{
    let mut hasher = <sha2::Sha256 as sha2::Digest>::new();
    sha2::Digest::update(&mut hasher, bytes.as_slice());
    let digest = sha2::Digest::finalize(hasher);
    let mut out = String::new();
    for byte in digest {
        out.push_str(&format!("{:02x}", byte));
    }
    out
}

impl CriteriaSet {
    /// Builds a set stamped with the fetch time and the content hash of
    /// the canonical form of its rules: two sets with element-wise equal
    /// rules get the same hash, whatever their fetch times.
    pub fn with_hash(program: ProgramId, source_url: String, criteria: Vec<Criterion>) -> (r:
        CriteriaSet)
        ensures
            r.program == program,
            r.source_url == source_url,
            r.criteria == criteria,
            r.raw_hash@ == sha256_hex_of(enc_criteria(criteria@)),
            r.raw_hash@.len() == 64,
    {
        let bytes = canonical_bytes(&criteria);
        let raw_hash = sha256_hex(&bytes);
        CriteriaSet { program, fetched_at: now_unix(), source_url, criteria, raw_hash }
    }
}

/// The canonical bytes of a text list depend on the texts alone.
proof fn lemma_enc_str_list_eqv(a: Seq<String>, b: Seq<String>)
    requires
        a.len() == b.len(),
        forall|i: int| 0 <= i < a.len() ==> #[trigger] a[i]@ == b[i]@,
    ensures
        enc_str_list(a) == enc_str_list(b),
    decreases a.len(),
{
    if a.len() > 0 {
        lemma_enc_str_list_eqv(a.drop_last(), b.drop_last());
        assert(a.last()@ == b.last()@);
    }
}

/// The canonical bytes of one criterion depend on its content alone.
proof fn lemma_enc_criterion_eqv(a: Criterion, b: Criterion)
    requires
        criterion_eqv(a, b),
    ensures
        enc_criterion(a) == enc_criterion(b),
{
    assert(enc_metric(a.metric) == enc_metric(b.metric));
    match (a.constraint, b.constraint) {
        (Constraint::OneOf(xs), Constraint::OneOf(ys)) => {
            lemma_enc_str_list_eqv(xs@, ys@);
        },
        _ => {},
    }
    assert(enc_constraint(a.constraint) == enc_constraint(b.constraint));
}

/// The canonical bytes of a rule list depend on its content alone, so
/// two fetches with unchanged content carry the same content hash.
pub proof fn lemma_enc_criteria_eqv(a: Seq<Criterion>, b: Seq<Criterion>)
    requires
        criteria_eqv(a, b),
    ensures
        enc_criteria(a) == enc_criteria(b),
    decreases a.len(),
{
    if a.len() > 0 {
        assert(criteria_eqv(a.drop_last(), b.drop_last())) by {
            assert forall|i: int| 0 <= i < a.len() - 1 implies criterion_eqv(
                #[trigger] a.drop_last()[i],
                b.drop_last()[i],
            ) by {
                assert(criterion_eqv(a[i], b[i]));
            }
        }
        lemma_enc_criteria_eqv(a.drop_last(), b.drop_last());
        assert(criterion_eqv(a.last(), b.last()));
        lemma_enc_criterion_eqv(a.last(), b.last());
    }
}

/// Two sets whose rules agree element by element carry the same content
/// hash, whatever their fetch times, so comparing them reports no drift.
pub proof fn lemma_unchanged_content_same_hash(a: CriteriaSet, b: CriteriaSet)
    requires
        criteria_eqv(a.criteria@, b.criteria@),
        a.raw_hash@ == sha256_hex_of(enc_criteria(a.criteria@)),
        b.raw_hash@ == sha256_hex_of(enc_criteria(b.criteria@)),
    ensures
        a.raw_hash@ == b.raw_hash@,
{
    lemma_enc_criteria_eqv(a.criteria@, b.criteria@);
}

} // verus!
