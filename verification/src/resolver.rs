//! The version resolver: given an optional range constraint and the tags a
//! repository offers, pick the revision to check out — the highest tag whose
//! version satisfies the range, a branch name where the constraint is not a
//! range, or the default head where there is no constraint at all.

use vstd::prelude::*;
use crate::error::PkgError;
use crate::version::SemVer;
use crate::version::VerKey;
use crate::version::key_lt;
use crate::version::lemma_key_irrefl;
use crate::version::lemma_key_le_step;
use crate::version::parsed_key;
use crate::version::req_matches;
use crate::version::req_valid;
use crate::version::sem_parse;
use crate::version::constraint_parses;
use crate::version::constraint_matches;
use crate::version::ver_lt_exec;

verus! {

// ---------------------------------------------------------------------------
// Tag texts and constraint texts
// ---------------------------------------------------------------------------

/// A tag may carry a leading `v` before its version; one is stripped.
pub open spec fn strip_v_spec(t: Seq<char>) -> Seq<char> {
    if t.len() > 0 && t[0] == 'v' {
        t.drop_first()
    } else {
        t
    }
}

/// The compatible-release spelling `~=` is read as the tilde range operator.
pub open spec fn normalized_spec(c: Seq<char>) -> Seq<char> {
    if c.len() >= 2 && c[0] == '~' && c[1] == '=' {
        seq!['~'] + c.skip(2)
    } else {
        c
    }
}

/// Whether a constraint text is a valid range, after normalization.
pub open spec fn constraint_ok(c: Seq<char>) -> bool {
    req_valid(normalized_spec(c))
}

/// Whether a tag names a semantic version at all.
pub open spec fn tag_ok(t: Seq<char>) -> bool {
    sem_parse(strip_v_spec(t)) is Some
}

/// The version value a tag denotes.
pub open spec fn tag_key(t: Seq<char>) -> VerKey {
    parsed_key(strip_v_spec(t))
}

/// Whether a tag is a candidate under an (already normalized) optional range:
/// it must denote a version, and satisfy the range where one is given.
pub open spec fn selectable(c: Option<Seq<char>>, t: Seq<char>) -> bool {
    tag_ok(t) && (c matches Some(cs) ==> req_matches(cs, strip_v_spec(t)))
}

pub fn strip_v_exec<'a>(t: &'a str) -> (r: &'a str)
    ensures
        r@ == strip_v_spec(t@),
{
    let n: usize = t.unicode_len();
    if n > 0 {
        let c = t.get_char(0);
        if c == 'v' {
            proof {
                assert(t@.subrange(1, n as int) =~= t@.drop_first());
            }
            return t.substring_char(1, n);
        }
    }
    t
}

/// Rewrite the `~=` spelling to `~`; any other text is kept as it stands.
pub fn normalize_constraint(c: &str) -> (r: String)
    ensures
        r@ == normalized_spec(c@),
{
    let n: usize = c.unicode_len();
    if n >= 2 {
        let c0 = c.get_char(0);
        let c1 = c.get_char(1);
        if c0 == '~' && c1 == '=' {
            let mut s = String::from_str("~");
            let rest = c.substring_char(2, n);
            s.append(rest);
            proof {
                reveal_strlit("~");
                assert(s@ =~= seq!['~'] + c@.skip(2));
            }
            return s;
        }
    }
    String::from_str(c)
}

// ---------------------------------------------------------------------------
// Selecting the best tag
// ---------------------------------------------------------------------------

/// The index the selection loop arrives at on a prefix of the tag list: the
/// first candidate of highest version, folding left to right.
pub open spec fn spec_best(c: Option<Seq<char>>, tags: Seq<Seq<char>>) -> Option<int>
    decreases tags.len(),
{
    if tags.len() == 0 {
        None
    } else {
        let prev = spec_best(c, tags.drop_last());
        let i = tags.len() - 1;
        if selectable(c, tags[i]) {
            match prev {
                None => Some(i),
                Some(j) => if key_lt(tag_key(tags[j]), tag_key(tags[i])) {
                    Some(i)
                } else {
                    Some(j)
                },
            }
        } else {
            prev
        }
    }
}

/// What the selection means: no choice exactly when no tag is a candidate,
/// and a choice is a candidate no candidate strictly exceeds — the maximum
/// version among the tags that satisfy the range.
pub proof fn lemma_best_properties(c: Option<Seq<char>>, tags: Seq<Seq<char>>)
    ensures
        spec_best(c, tags) is None ==> forall|j: int|
            0 <= j < tags.len() ==> !selectable(c, #[trigger] tags[j]),
        spec_best(c, tags) matches Some(i) ==> {
            &&& 0 <= i < tags.len()
            &&& selectable(c, tags[i])
            &&& forall|j: int|
                0 <= j < tags.len() && selectable(c, #[trigger] tags[j]) ==> !key_lt(
                    tag_key(tags[i]),
                    tag_key(tags[j]),
                )
        },
    decreases tags.len(),
{
    if tags.len() > 0 {
        let prefix = tags.drop_last();
        let n = tags.len() - 1;
        lemma_best_properties(c, prefix);
        assert(forall|j: int| 0 <= j < n ==> prefix[j] == tags[j]);
        if selectable(c, tags[n]) {
            match spec_best(c, prefix) {
                None => {
                    lemma_key_irrefl(tag_key(tags[n]));
                }
                Some(j) => {
                    if key_lt(tag_key(tags[j]), tag_key(tags[n])) {
                        // the new tag replaces the old best
                        assert forall|k: int|
                            0 <= k < tags.len() && selectable(c, #[trigger] tags[k]) implies !key_lt(
                            tag_key(tags[n]),
                            tag_key(tags[k]),
                        ) by {
                            if k < n {
                                lemma_key_le_step(tag_key(tags[k]), tag_key(tags[j]), tag_key(tags[n]));
                            } else {
                                lemma_key_irrefl(tag_key(tags[n]));
                            }
                        }
                    }
                }
            }
        }
    }
}


/// The version text the resolver reports as latest for a range over a tag
/// list: the chosen tag's text with its leading `v` stripped.
pub open spec fn spec_latest(cn: Option<Seq<char>>, dv: Seq<Seq<char>>) -> Option<Seq<char>> {
    match spec_best(cn, dv) {
        None => None,
        Some(i) => Some(strip_v_spec(dv[i])),
    }
}

/// The spec-level text of an optional constraint argument.
pub open spec fn opt_view(c: Option<&str>) -> Option<Seq<char>> {
    match c {
        Some(s) => Some(s@),
        None => None,
    }
}

/// Walk the tags and keep the best candidate under an already-normalized,
/// already-validated optional range.
pub(crate) fn best_tag(constraint: Option<&str>, tags: &Vec<String>) -> (r: Option<usize>)
    requires
        constraint matches Some(c) ==> req_valid(c@),
    ensures
        r is None ==> spec_best(opt_view(constraint), tags.deep_view()) is None,
        r matches Some(i) ==> spec_best(opt_view(constraint), tags.deep_view()) == Some(i as int),
{
    let ghost tdv = tags.deep_view();
    let ghost c = opt_view(constraint);
    let mut best_idx: usize = 0;
    let mut best_ver: Option<SemVer> = None;
    let mut i: usize = 0;
    proof {
        assert(tdv.take(0) =~= Seq::<Seq<char>>::empty());
        assert(tdv.len() == tags@.len());
    }
    while i < tags.len()
        invariant
            i <= tags.len(),
            tdv == tags.deep_view(),
            tdv.len() == tags@.len(),
            c == opt_view(constraint),
            constraint matches Some(cs) ==> req_valid(cs@),
            best_ver is None ==> spec_best(c, tdv.take(i as int)) is None,
            best_ver matches Some(b) ==> {
                &&& best_idx < i
                &&& spec_best(c, tdv.take(i as int)) == Some(best_idx as int)
                &&& b.key() == tag_key(tdv[best_idx as int])
            },
        decreases tags.len() - i,
    {
        proof {
            assert(tdv[i as int] == tags@[i as int]@);
        }
        let stripped = strip_v_exec(tags[i].as_str());
        let parsed = SemVer::parse(stripped);
        let mut take_it: bool = false;
        let mut cur: Option<SemVer> = None;
        match parsed {
            None => {
                proof {
                    assert(!tag_ok(tdv[i as int]));
                }
            },
            Some(sv) => {
                let sat = match constraint {
                    Some(cs) => constraint_matches(cs, stripped),
                    None => true,
                };
                if sat {
                    take_it = true;
                    proof {
                        assert(selectable(c, tdv[i as int]));
                        assert(sv.key() == tag_key(tdv[i as int]));
                    }
                } else {
                    proof {
                        assert(!selectable(c, tdv[i as int]));
                    }
                }
                cur = Some(sv);
            },
        }
        proof {
            assert(tdv.take(i as int + 1).drop_last() =~= tdv.take(i as int));
            assert(tdv.take(i as int + 1)[i as int] == tdv[i as int]);
        }
        if take_it {
            let replace: bool = match (&best_ver, &cur) {
                (None, _) => true,
                (Some(b), Some(sv)) => ver_lt_exec(b, sv),
                (Some(_), None) => false,
            };
            if replace {
                best_idx = i;
                best_ver = cur;
            }
        }
        i = i + 1;
    }
    proof {
        assert(tdv.take(tags@.len() as int) =~= tdv);
    }
    if best_ver.is_some() {
        Some(best_idx)
    } else {
        None
    }
}

// ---------------------------------------------------------------------------
// The resolver
// ---------------------------------------------------------------------------

/// What the resolver decides for one dependency.
pub enum ResolvedRef {
    /// No constraint was given: keep the revision the clone checked out.
    DefaultHead,
    /// The constraint is a range: check out this tag, detached.
    Tag(String),
    /// The constraint is not a range: try a branch of this name, first
    /// local, then under the default remote.
    RefName(String),
}

/// Resolve a constraint against the tags a repository offers.
///
/// A valid range selects the tag denoting the maximum satisfying version and
/// fails where no tag satisfies it; a text that is not a range is handed back
/// as a ref name for branch lookup; no constraint means the default head.
pub fn resolve(constraint: &Option<String>, tags: &Vec<String>) -> (r: Result<
    ResolvedRef,
    PkgError,
>)
    ensures
        constraint is None ==> r == Ok::<ResolvedRef, PkgError>(ResolvedRef::DefaultHead),
        constraint matches Some(cs) ==> (!constraint_ok(cs@) ==> (r matches Ok(rr) && rr matches
            ResolvedRef::RefName(n) && n@ == cs@)),
        constraint matches Some(cs) ==> constraint_ok(cs@) ==> {
            let cn = Some(normalized_spec(cs@));
            let dv = tags.deep_view();
            &&& (r matches Ok(rr) ==> rr matches ResolvedRef::Tag(t) && (exists|i: int|
                0 <= i < dv.len() && #[trigger] dv[i] == t@) && selectable(cn, t@) && (forall|j: int|
                0 <= j < dv.len() && selectable(cn, #[trigger] dv[j]) ==> !key_lt(
                    tag_key(t@),
                    tag_key(dv[j]),
                )))
            &&& (r is Err ==> r == Err::<ResolvedRef, PkgError>(PkgError::NoMatchingVersion)
                && (forall|j: int| 0 <= j < dv.len() ==> !selectable(cn, #[trigger] dv[j])))
            &&& (r is Ok <==> exists|j: int|
                0 <= j < dv.len() && selectable(cn, #[trigger] dv[j]))
        },
{
    match constraint {
        None => Ok(ResolvedRef::DefaultHead),
        Some(cs) => {
            let norm = normalize_constraint(cs.as_str());
            if !constraint_parses(norm.as_str()) {
                Ok(ResolvedRef::RefName(cs.clone()))
            } else {
                let picked = best_tag(Some(norm.as_str()), tags);
                proof {
                    lemma_best_properties(Some(norm@), tags.deep_view());
                }
                match picked {
                    None => Err(PkgError::NoMatchingVersion),
                    Some(i) => {
                        proof {
                            assert(tags.deep_view()[i as int] == tags@[i as int]@);
                        }
                        Ok(ResolvedRef::Tag(tags[i].clone()))
                    },
                }
            }
        },
    }
}

} // verus!
