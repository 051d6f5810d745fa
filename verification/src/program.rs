use vstd::prelude::*;

use crate::text::{chars_to_string, norm_ident, normalize_chars, str_eq};

verus! {

/// The closed set of supported delegation programs, ordered by their
/// declaration rank for stable listing and de-duplication.
#[derive(Debug, Clone, Copy, PartialEq, Eq, Structural, Hash)]
pub enum ProgramId {
    Sfdp,
    Marinade,
    JPool,
    BlazeStake,
    Jito,
    Sanctum,
}

/// A program name that could not be recognised; carries the raw input.
#[derive(Debug)]
pub struct ProgramParseError(pub String);

/// The ways a program list can be rejected: no entries at all, or an
/// entry that is no known program name.
#[derive(Debug)]
pub enum ProgramListError {
    Empty,
    Unknown(ProgramParseError),
}

/// The stable listing position of a program.
pub open spec fn spec_rank(p: ProgramId) -> int {
    match p {
        ProgramId::Sfdp => 0,
        ProgramId::Marinade => 1,
        ProgramId::JPool => 2,
        ProgramId::BlazeStake => 3,
        ProgramId::Jito => 4,
        ProgramId::Sanctum => 5,
    }
}

/// The short lower-case identifier of a program.
pub open spec fn spec_slug(p: ProgramId) -> Seq<char> {
    match p {
        ProgramId::Sfdp => "sfdp"@,
        ProgramId::Marinade => "marinade"@,
        ProgramId::JPool => "jpool"@,
        ProgramId::BlazeStake => "blazestake"@,
        ProgramId::Jito => "jito"@,
        ProgramId::Sanctum => "sanctum"@,
    }
}

/// The human-readable name of a program.
pub open spec fn spec_display(p: ProgramId) -> Seq<char> {
    match p {
        ProgramId::Sfdp => "SFDP"@,
        ProgramId::Marinade => "Marinade"@,
        ProgramId::JPool => "JPool"@,
        ProgramId::BlazeStake => "BlazeStake"@,
        ProgramId::Jito => "Jito"@,
        ProgramId::Sanctum => "Sanctum"@,
    }
}

/// Which program a raw name denotes, after trimming and lower-casing;
/// a few aliases are accepted beside the slugs.
pub open spec fn spec_parse_program(s: Seq<char>) -> Option<ProgramId> {
    let n = norm_ident(s);
    if n == "sfdp"@ || n == "solana-foundation"@ {
        Some(ProgramId::Sfdp)
    } else if n == "marinade"@ {
        Some(ProgramId::Marinade)
    } else if n == "jpool"@ || n == "j_pool"@ {
        Some(ProgramId::JPool)
    } else if n == "blazestake"@ || n == "blaze"@ {
        Some(ProgramId::BlazeStake)
    } else if n == "jito"@ {
        Some(ProgramId::Jito)
    } else if n == "sanctum"@ {
        Some(ProgramId::Sanctum)
    } else {
        None
    }
}

impl ProgramId {
    /// The short lower-case identifier of this program.
    pub fn as_slug(&self) -> (r: &'static str)
        ensures
            r@ == spec_slug(*self),
    {
        match self {
            ProgramId::Sfdp => "sfdp",
            ProgramId::Marinade => "marinade",
            ProgramId::JPool => "jpool",
            ProgramId::BlazeStake => "blazestake",
            ProgramId::Jito => "jito",
            ProgramId::Sanctum => "sanctum",
        }
    }

    /// The human-readable name of this program.
    pub fn display_name(&self) -> (r: &'static str)
        ensures
            r@ == spec_display(*self),
    {
        match self {
            ProgramId::Sfdp => "SFDP",
            ProgramId::Marinade => "Marinade",
            ProgramId::JPool => "JPool",
            ProgramId::BlazeStake => "BlazeStake",
            ProgramId::Jito => "Jito",
            ProgramId::Sanctum => "Sanctum",
        }
    }

    /// The stable listing position of this program.
    pub fn rank(&self) -> (r: u8)
        ensures
            r as int == spec_rank(*self),
    {
        match self {
            ProgramId::Sfdp => 0,
            ProgramId::Marinade => 1,
            ProgramId::JPool => 2,
            ProgramId::BlazeStake => 3,
            ProgramId::Jito => 4,
            ProgramId::Sanctum => 5,
        }
    }

    /// Recognises a program name. Succeeds exactly on the slugs and
    /// aliases that `spec_parse_program` accepts, after trimming and
    /// lower-casing; any other input is returned inside the error.
    pub fn from_str(s: &str) -> (r: Result<ProgramId, ProgramParseError>)
        ensures
            match r {
                Ok(p) => spec_parse_program(s@) == Some(p),
                Err(e) => spec_parse_program(s@) is None && e.0@ == s@,
            },
    {
        let chars = normalize_chars(s, false);
        let norm = chars_to_string(&chars);
        let n = norm.as_str();
        if str_eq(n, "sfdp") || str_eq(n, "solana-foundation") {
            Ok(ProgramId::Sfdp)
        } else if str_eq(n, "marinade") {
            Ok(ProgramId::Marinade)
        } else if str_eq(n, "jpool") || str_eq(n, "j_pool") {
            Ok(ProgramId::JPool)
        } else if str_eq(n, "blazestake") || str_eq(n, "blaze") {
            Ok(ProgramId::BlazeStake)
        } else if str_eq(n, "jito") {
            Ok(ProgramId::Jito)
        } else if str_eq(n, "sanctum") {
            Ok(ProgramId::Sanctum)
        } else {
            Err(ProgramParseError(s.to_owned()))
        }
    }
}

/// Every supported program once, in rank order.
pub fn all_programs() -> (r: Vec<ProgramId>)
    ensures
        r@.len() == 6,
        forall|i: int| 0 <= i < 6 ==> spec_rank(#[trigger] r@[i]) == i,
{
    let mut v: Vec<ProgramId> = Vec::new();
    v.push(ProgramId::Sfdp);
    v.push(ProgramId::Marinade);
    v.push(ProgramId::JPool);
    v.push(ProgramId::BlazeStake);
    v.push(ProgramId::Jito);
    v.push(ProgramId::Sanctum);
    v
}

/// Whether a program list contains a given program.
fn contains_program(v: &Vec<ProgramId>, p: ProgramId) -> (r: bool)
    ensures
        r == v@.contains(p),
{
    let mut i: usize = 0;
    while i < v.len()
        invariant
            0 <= i <= v@.len(),
            forall|j: int| 0 <= j < i ==> v@[j] != p,
        decreases v@.len() - i,
    {
        if v[i] == p {
            return true;
        }
        i = i + 1;
    }
    false
}

/// Parses a list of program names. Fails on the first unrecognised name,
/// or when the list is empty; otherwise returns the named programs in
/// rank order with duplicates removed.
pub fn parse_programs(raw_programs: &[String]) -> (r: Result<Vec<ProgramId>, ProgramListError>)
    ensures
        match r {
            Ok(v) => {
                &&& raw_programs@.len() > 0
                &&& forall|j: int|
                    0 <= j < raw_programs@.len() ==> spec_parse_program(
                        #[trigger] raw_programs@[j]@,
                    ) is Some
                &&& forall|p: ProgramId|
                    #[trigger] v@.contains(p) <==> exists|j: int|
                        0 <= j < raw_programs@.len() && spec_parse_program(
                            #[trigger] raw_programs@[j]@,
                        ) == Some(p)
                &&& forall|i: int, j: int|
                    0 <= i < j < v@.len() ==> spec_rank(v@[i]) < spec_rank(v@[j])
            },
            Err(ProgramListError::Empty) => raw_programs@.len() == 0,
            Err(ProgramListError::Unknown(e)) => exists|j: int|
                {
                    &&& 0 <= j < raw_programs@.len()
                    &&& spec_parse_program(#[trigger] raw_programs@[j]@) is None
                    &&& forall|k: int|
                        0 <= k < j ==> spec_parse_program(#[trigger] raw_programs@[k]@) is Some
                    &&& e.0@ == raw_programs@[j]@
                },
        },
{
    if raw_programs.len() == 0 {
        return Err(ProgramListError::Empty);
    }
    let mut parsed: Vec<ProgramId> = Vec::new();
    let mut i: usize = 0;
    while i < raw_programs.len()
        invariant
            0 <= i <= raw_programs@.len(),
            forall|j: int|
                0 <= j < i ==> spec_parse_program(#[trigger] raw_programs@[j]@) is Some,
            forall|p: ProgramId|
                #[trigger] parsed@.contains(p) <==> exists|j: int|
                    0 <= j < i && spec_parse_program(#[trigger] raw_programs@[j]@) == Some(p),
        decreases raw_programs@.len() - i,
    {
        match ProgramId::from_str(raw_programs[i].as_str()) {
            Ok(p) => {
                let ghost pre = parsed@;
                parsed.push(p);
                proof {
                    assert(parsed@ =~= pre.push(p));
                    assert forall|q: ProgramId| #[trigger]
                        parsed@.contains(q) implies exists|j: int|
                        0 <= j < i + 1 && spec_parse_program(#[trigger] raw_programs@[j]@) == Some(
                            q,
                        ) by {
                        let k = choose|k: int| 0 <= k < parsed@.len() && parsed@[k] == q;
                        if k < pre.len() {
                            assert(pre.contains(q)) by {
                                assert(pre[k] == q);
                            }
                        } else {
                            assert(spec_parse_program(raw_programs@[i as int]@) == Some(q));
                        }
                    }
                    assert forall|q: ProgramId|
                        (exists|j: int|
                            0 <= j < i + 1 && spec_parse_program(#[trigger] raw_programs@[j]@)
                                == Some(q)) implies #[trigger] parsed@.contains(q) by {
                        let j = choose|j: int|
                            0 <= j < i + 1 && spec_parse_program(#[trigger] raw_programs@[j]@)
                                == Some(q);
                        if j < i {
                            assert(pre.contains(q));
                            let k = choose|k: int| 0 <= k < pre.len() && pre[k] == q;
                            assert(parsed@[k] == q);
                        } else {
                            assert(parsed@[pre.len() as int] == q);
                        }
                    }
                }
            },
            Err(e) => {
                return Err(ProgramListError::Unknown(e));
            },
        }
        i = i + 1;
    }
    let all = all_programs();
    let mut out: Vec<ProgramId> = Vec::new();
    let mut k: usize = 0;
    while k < all.len()
        invariant
            0 <= k <= all@.len(),
            all@.len() == 6,
            forall|i2: int| 0 <= i2 < 6 ==> spec_rank(#[trigger] all@[i2]) == i2,
            forall|p: ProgramId|
                #[trigger] out@.contains(p) <==> (parsed@.contains(p) && 0 <= spec_rank(p) < k),
            forall|i2: int, j2: int|
                0 <= i2 < j2 < out@.len() ==> spec_rank(out@[i2]) < spec_rank(out@[j2]),
            forall|i2: int| 0 <= i2 < out@.len() ==> spec_rank(#[trigger] out@[i2]) < k,
        decreases all@.len() - k,
    {
        let p = all[k];
        if contains_program(&parsed, p) {
            let ghost pre = out@;
            out.push(p);
            proof {
                assert(out@ =~= pre.push(p));
                assert forall|q: ProgramId| #[trigger]
                    out@.contains(q) implies (parsed@.contains(q) && 0 <= spec_rank(q) < k
                    + 1) by {
                    let k2 = choose|k2: int| 0 <= k2 < out@.len() && out@[k2] == q;
                    if k2 < pre.len() {
                        assert(pre.contains(q)) by {
                            assert(pre[k2] == q);
                        }
                    }
                }
                assert forall|q: ProgramId|
                    (parsed@.contains(q) && 0 <= spec_rank(q) < k + 1) implies #[trigger] out@
                    .contains(q) by {
                    if spec_rank(q) < k {
                        assert(pre.contains(q));
                        let k2 = choose|k2: int| 0 <= k2 < pre.len() && pre[k2] == q;
                        assert(out@[k2] == q);
                    } else {
                        assert(q == p);
                        assert(out@[pre.len() as int] == q);
                    }
                }
            }
        } else {
            proof {
                assert forall|q: ProgramId|
                    (parsed@.contains(q) && 0 <= spec_rank(q) < k + 1) implies #[trigger] out@
                    .contains(q) by {
                    if spec_rank(q) == k {
                        assert(q == p);
                    }
                }
            }
        }
        k = k + 1;
    }
    Ok(out)
}

} // verus!
