//! The compute side of dependency discovery: turning the search service's
//! candidate records into dependency entries, and telling a rate-limited
//! refusal apart from other failures. The network call itself lives in the
//! surrounding binary, which hands the response's status and body here.

use vstd::prelude::*;
use crate::dependency::Dependency;
use crate::error::PkgError;

verus! {

/// One candidate the search service returned.
pub struct Candidate {
    /// Short repository name.
    pub name: String,
    /// Qualified name (owner and repository).
    pub full_name: String,
    /// Where a clone would fetch from.
    pub clone_url: String,
}

/// The dependencies a candidate list denotes: no constraint, no resolved
/// version, in the service's ranking order.
pub fn dependencies_from_candidates(cands: &Vec<Candidate>) -> (r: Vec<Dependency>)
    ensures
        r@.len() == cands@.len(),
        forall|i: int|
            0 <= i < cands@.len() ==> {
                &&& (#[trigger] r@[i]).name@ == cands@[i].name@
                &&& r@[i].full_name@ == cands@[i].full_name@
                &&& r@[i].url@ == cands@[i].clone_url@
                &&& r@[i].version_constraint is None
                &&& r@[i].version@.len() == 0
            },
{
    let mut out: Vec<Dependency> = Vec::new();
    let n = cands.len();
    let mut i: usize = 0;
    while i < n
        invariant
            i <= n,
            n == cands@.len(),
            out@.len() == i,
            forall|k: int|
                0 <= k < i ==> {
                    &&& (#[trigger] out@[k]).name@ == cands@[k].name@
                    &&& out@[k].full_name@ == cands@[k].full_name@
                    &&& out@[k].url@ == cands@[k].clone_url@
                    &&& out@[k].version_constraint is None
                    &&& out@[k].version@.len() == 0
                },
        decreases n - i,
    {
        let c = &cands[i];
        let d = Dependency::new(c.name.as_str(), c.full_name.as_str(), c.clone_url.as_str(), None, "");
        proof {
            reveal_strlit("");
        }
        out.push(d);
        i = i + 1;
    }
    out
}

/// Whether a text occurs inside another.
pub open spec fn spec_contains(s: Seq<char>, pat: Seq<char>) -> bool {
    exists|k: int| 0 <= k <= s.len() - pat.len() && #[trigger] s.subrange(k, k + pat.len()) == pat
}

/// Whether the text occurs at one given position.
fn matches_at(s: &str, k: usize, pat: &str) -> (r: bool)
    requires
        k + pat@.len() <= s@.len(),
    ensures
        r == (s@.subrange(k as int, k as int + pat@.len()) == pat@),
{
    let n: usize = s.unicode_len();
    let m: usize = pat.unicode_len();
    let mut j: usize = 0;
    while j < m
        invariant
            j <= m,
            n == s@.len(),
            m == pat@.len(),
            k + m <= n,
            forall|t: int| 0 <= t < j ==> s@[k + t] == pat@[t],
        decreases m - j,
    {
        if s.get_char(k + j) != pat.get_char(j) {
            proof {
                assert(s@.subrange(k as int, k as int + pat@.len())[j as int] == s@[k + j]);
            }
            return false;
        }
        j = j + 1;
    }
    proof {
        assert forall|t: int| 0 <= t < m implies s@.subrange(k as int, k as int + m as int)[t]
            == pat@[t] by {
            assert(s@.subrange(k as int, k as int + m as int)[t] == s@[k + t]);
        }
        assert(s@.subrange(k as int, k as int + pat@.len()) =~= pat@);
    }
    true
}

/// Whether the text occurs anywhere.
fn contains_text(s: &str, pat: &str) -> (r: bool)
    ensures
        r == spec_contains(s@, pat@),
{
    let n: usize = s.unicode_len();
    let m: usize = pat.unicode_len();
    if m > n {
        proof {
            assert(!spec_contains(s@, pat@));
        }
        return false;
    }
    if m == 0 {
        proof {
            let kk: int = 0;
            assert(s@.subrange(kk, kk + pat@.len() as int) =~= pat@);
            assert(spec_contains(s@, pat@));
        }
        return true;
    }
    let mut k: usize = 0;
    while k <= n - m
        invariant
            1 <= m <= n,
            n == s@.len(),
            m == pat@.len(),
            k <= n - m + 1,
            forall|t: int| 0 <= t < k ==> #[trigger] s@.subrange(t, t + pat@.len()) != pat@,
        decreases n - k,
    {
        if matches_at(s, k, pat) {
            return true;
        }
        k = k + 1;
    }
    proof {
        assert(!spec_contains(s@, pat@));
    }
    false
}

/// Classify the discovery response's failure, if any: the service refuses
/// with status 403, and mentions its rate limit in the body exactly when the
/// limit was the reason — the case a caller should answer by suggesting a
/// credential.
pub fn classify_search_response(status: u16, body: &str) -> (r: Option<PkgError>)
    ensures
        status == 403 && spec_contains(body@, "rate limit"@) ==> r == Some(PkgError::RateLimited),
        status == 403 && !spec_contains(body@, "rate limit"@) ==> r == Some(
            PkgError::RemoteServiceFailure,
        ),
        status != 403 ==> r is None,
{
    if status == 403 {
        if contains_text(body, "rate limit") {
            Some(PkgError::RateLimited)
        } else {
            Some(PkgError::RemoteServiceFailure)
        }
    } else {
        None
    }
}

} // verus!
