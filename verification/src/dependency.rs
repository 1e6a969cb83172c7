//! One managed dependency: its identity, its source location, its optional
//! range constraint and the version it resolved to, together with the pure
//! parts of its lifecycle — naming its on-disk directory, validating a
//! constraint, and picking the latest matching version from a tag list.

use vstd::prelude::*;
use crate::error::PkgError;
use crate::resolver::constraint_ok;
use crate::resolver::normalized_spec;
use crate::resolver::normalize_constraint;
use crate::resolver::best_tag;
use crate::resolver::lemma_best_properties;
use crate::resolver::opt_view;
use crate::resolver::selectable;
use crate::resolver::spec_latest;
use crate::resolver::strip_v_exec;
use crate::resolver::strip_v_spec;
use crate::resolver::tag_key;
use crate::version::constraint_parses;
use crate::version::key_lt;

verus! {

/// One managed external library.
///
/// `version` is empty before the first install; afterwards it names the
/// on-disk directory `<name>@<version>`.
#[derive(Debug, Clone)]
pub struct Dependency {
    /// Short identifier, unique within a package; the directory stem on disk.
    pub name: String,
    /// Qualified identifier from discovery; display only.
    pub full_name: String,
    /// Version-control fetch location.
    pub url: String,
    /// Optional range expression, or a literal branch name; absent means
    /// "latest available tag, else default branch tip".
    pub version_constraint: Option<String>,
    /// The concrete version materialized on disk: a tag name, or a short
    /// content hash where no tag covers the revision.
    pub version: String,
}

/// The directory name a dependency occupies under the dependency root:
/// `<name>@<version>`, with the placeholder `temp` before a version is known.
pub open spec fn spec_dir_name(name: Seq<char>, version: Seq<char>) -> Seq<char> {
    name + seq!['@'] + (if version.len() == 0 {
        seq!['t', 'e', 'm', 'p']
    } else {
        version
    })
}

/// Build `<name>@<version>` (or `<name>@temp` for an empty version).
pub fn dir_name(name: &str, version: &str) -> (r: String)
    ensures
        r@ == spec_dir_name(name@, version@),
{
    let mut s = String::from_str(name);
    s.append("@");
    proof {
        reveal_strlit("@");
        assert("@"@ =~= seq!['@']);
    }
    if version.unicode_len() == 0 {
        s.append("temp");
        proof {
            reveal_strlit("temp");
            assert("temp"@ =~= seq!['t', 'e', 'm', 'p']);
            assert(s@ =~= spec_dir_name(name@, version@));
        }
    } else {
        s.append(version);
        proof {
            assert(s@ =~= spec_dir_name(name@, version@));
        }
    }
    s
}

impl Dependency {
    pub fn new(
        name: &str,
        full_name: &str,
        url: &str,
        version_constraint: Option<String>,
        version: &str,
    ) -> (d: Dependency)
        ensures
            d.name@ == name@,
            d.full_name@ == full_name@,
            d.url@ == url@,
            d.version_constraint == version_constraint,
            d.version@ == version@,
    {
        Dependency {
            name: String::from_str(name),
            full_name: String::from_str(full_name),
            url: String::from_str(url),
            version_constraint,
            version: String::from_str(version),
        }
    }

    /// The directory this dependency occupies (or will stage into, before its
    /// first resolution) under the dependency root.
    pub fn get_final_path(&self) -> (r: String)
        ensures
            r@ == spec_dir_name(self.name@, self.version@),
    {
        dir_name(self.name.as_str(), self.version.as_str())
    }

    /// The staging directory used while this dependency is materialized.
    pub fn temp_dir_name(&self) -> (r: String)
        ensures
            r@ == spec_dir_name(self.name@, Seq::<char>::empty()),
    {
        proof {
            reveal_strlit("");
            assert(""@ =~= Seq::<char>::empty());
        }
        dir_name(self.name.as_str(), "")
    }

    /// Check that a constraint text is a parseable range.
    pub fn validate_version_constraint(&self, constraint: &str) -> (r: Result<(), PkgError>)
        ensures
            r is Ok <==> constraint_ok(constraint@),
            r is Err ==> r == Err::<(), PkgError>(PkgError::InvalidConstraint),
    {
        let n = normalize_constraint(constraint);
        if constraint_parses(n.as_str()) {
            Ok(())
        } else {
            Err(PkgError::InvalidConstraint)
        }
    }

    /// The range this dependency's constraint denotes, at the spec level:
    /// `None` where there is no constraint; meaningful only where the
    /// constraint, if present, is a valid range.
    pub open spec fn spec_range(self) -> Option<Seq<char>> {
        match self.version_constraint {
            Some(c) => Some(normalized_spec(c@)),
            None => None,
        }
    }

    /// Pick, from the tags a fresh enumeration of the repository offered, the
    /// highest version that satisfies this dependency's constraint; with no
    /// constraint, the highest version of any tag. The result is the version
    /// text itself, its tag's leading `v` stripped.
    pub fn find_latest_matching_version(&self, tags: &Vec<String>) -> (r: Result<String, PkgError>)
        ensures
            self.version_constraint matches Some(c) ==> (!constraint_ok(c@) ==> r == Err::<
                String,
                PkgError,
            >(PkgError::InvalidConstraint)),
            (match self.version_constraint {
                Some(c) => constraint_ok(c@),
                None => true,
            }) ==> {
                let cn = self.spec_range();
                let dv = tags.deep_view();
                &&& (r is Err ==> r == Err::<String, PkgError>(PkgError::NoMatchingVersion)
                    && (forall|j: int| 0 <= j < dv.len() ==> !selectable(cn, #[trigger] dv[j])))
                &&& (r matches Ok(v) ==> (exists|i: int|
                    {
                        &&& 0 <= i < dv.len()
                        &&& selectable(cn, #[trigger] dv[i])
                        &&& v@ == strip_v_spec(dv[i])
                        &&& forall|j: int|
                            0 <= j < dv.len() && selectable(cn, #[trigger] dv[j]) ==> !key_lt(
                                tag_key(dv[i]),
                                tag_key(dv[j]),
                            )
                    }))
                &&& (r is Ok <==> exists|j: int|
                    0 <= j < dv.len() && selectable(cn, #[trigger] dv[j]))
                &&& (r is Err <==> spec_latest(cn, dv) is None)
                &&& (r matches Ok(v) ==> Some(v@) == spec_latest(cn, dv))
            },
    {
        let norm: Option<String> = match &self.version_constraint {
            Some(c) => {
                let n = normalize_constraint(c.as_str());
                if !constraint_parses(n.as_str()) {
                    return Err(PkgError::InvalidConstraint);
                }
                Some(n)
            },
            None => None,
        };
        let norm_ref: Option<&str> = match &norm {
            Some(s) => Some(s.as_str()),
            None => None,
        };
        proof {
            assert(opt_view(norm_ref) == self.spec_range());
        }
        let picked = best_tag(norm_ref, tags);
        proof {
            lemma_best_properties(opt_view(norm_ref), tags.deep_view());
        }
        match picked {
            None => Err(PkgError::NoMatchingVersion),
            Some(i) => {
                proof {
                    assert(tags.deep_view()[i as int] == tags@[i as int]@);
                }
                let stripped = strip_v_exec(tags[i].as_str());
                Ok(String::from_str(stripped))
            },
        }
    }
}

} // verus!
