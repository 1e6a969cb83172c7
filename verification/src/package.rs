//! The package model: the ordered set of managed dependencies, keyed by
//! unique name. The operations here decide and record; what they ask of the
//! filesystem (deleting a directory, reinstalling) is returned as a value for
//! the surrounding binary to carry out, and the record is persisted by the
//! caller only after an operation reports success.

use vstd::prelude::*;
use crate::dependency::Dependency;
use crate::dependency::spec_dir_name;
use crate::dependency::dir_name;
use crate::error::PkgError;
use crate::resolver::constraint_ok;
use crate::resolver::spec_latest;
use crate::resolver::strip_v_spec;
use crate::resolver::strip_v_exec;
use crate::text::str_eq;

verus! {


/// A package: the dependencies managed together for one project, in order,
/// with no two sharing a name.
#[derive(Debug)]
pub struct Package {
    /// The managed dependencies, in list order.
    pub dependencies: Vec<Dependency>,
}

/// What `update_dependency` asks the surrounding binary to do.
pub enum UpdateOutcome {
    /// The resolved version is unchanged: nothing is deleted, nothing is
    /// reinstalled, and the record did not change.
    Unchanged,
    /// The record now carries `new_version`: the directory named `old_dir`
    /// is to be deleted and the dependency installed anew.
    Reinstall {
        /// Directory name of the superseded installation.
        old_dir: String,
        /// The version the dependency now records.
        new_version: String,
    },
}

impl Package {
    /// No two dependencies share a name.
    pub open spec fn wf(self) -> bool {
        forall|i: int, j: int|
            0 <= i < j < self.dependencies@.len() ==> #[trigger] self.dependencies@[i].name@
                != #[trigger] self.dependencies@[j].name@
    }

    /// Whether some dependency carries this name.
    pub open spec fn has_dep(self, name: Seq<char>) -> bool {
        exists|i: int|
            0 <= i < self.dependencies@.len() && #[trigger] self.dependencies@[i].name@ == name
    }

    pub fn new() -> (p: Package)
        ensures
            p.dependencies@.len() == 0,
            p.wf(),
    {
        Package { dependencies: Vec::new() }
    }

    /// Begin a package where none exists yet. The caller reports whether a
    /// record is already present at the target; over an existing record this
    /// fails, and nothing is to be written.
    pub fn init(record_exists: bool) -> (r: Result<Package, PkgError>)
        ensures
            record_exists ==> r == Err::<Package, PkgError>(PkgError::AlreadyExists),
            !record_exists ==> (r matches Ok(p) && p.dependencies@.len() == 0 && p.wf()),
    {
        if record_exists {
            Err(PkgError::AlreadyExists)
        } else {
            Ok(Package::new())
        }
    }

    /// The position of the dependency carrying a name, if any: the first
    /// match, which under [`Package::wf`] is the only one.
    fn find_index(&self, name: &str) -> (r: Option<usize>)
        ensures
            r is None ==> !self.has_dep(name@),
            r matches Some(i) ==> {
                &&& i < self.dependencies@.len()
                &&& self.dependencies@[i as int].name@ == name@
                &&& forall|j: int| 0 <= j < i ==> #[trigger] self.dependencies@[j].name@ != name@
            },
    {
        let n = self.dependencies.len();
        let mut i: usize = 0;
        while i < n
            invariant
                n == self.dependencies@.len(),
                i <= n,
                forall|j: int| 0 <= j < i ==> #[trigger] self.dependencies@[j].name@ != name@,
            decreases n - i,
        {
            if str_eq(self.dependencies[i].name.as_str(), name) {
                return Some(i);
            }
            i = i + 1;
        }
        None
    }

    /// Whether a dependency with the given name already exists.
    pub fn is_dependency_existing(&self, name: &str) -> (r: bool)
        ensures
            r == self.has_dep(name@),
    {
        self.find_index(name).is_some()
    }

    /// Append a dependency. A colliding name is refused and the package is
    /// left exactly as it was, the existing entry untouched; the caller
    /// installs before appending and persists only after success.
    pub fn add_dependency(&mut self, dep: Dependency) -> (r: Result<(), PkgError>)
        ensures
            old(self).has_dep(dep.name@) ==> r == Err::<(), PkgError>(PkgError::AlreadyExists)
                && *final(self) == *old(self),
            !old(self).has_dep(dep.name@) ==> r is Ok && final(self).dependencies@ == old(self).dependencies@.push(dep),
            old(self).wf() ==> final(self).wf(),
    {
        if self.is_dependency_existing(dep.name.as_str()) {
            Err(PkgError::AlreadyExists)
        } else {
            proof {
                if old(self).wf() {
                    let ds = self.dependencies@;
                    assert forall|i: int, j: int|
                        0 <= i < j < ds.push(dep).len() implies #[trigger] ds.push(dep)[i].name@
                        != #[trigger] ds.push(dep)[j].name@ by {
                        if j == ds.len() {
                            assert(ds.push(dep)[i] == ds[i]);
                            assert(ds.push(dep)[j] == dep);
                            if ds[i].name@ == dep.name@ {
                                assert(old(self).has_dep(dep.name@));
                            }
                        } else {
                            assert(ds.push(dep)[i] == ds[i]);
                            assert(ds.push(dep)[j] == ds[j]);
                        }
                    }
                }
            }
            self.dependencies.push(dep);
            Ok(())
        }
    }

    /// Drop the dependency carrying a name from the record and hand it back,
    /// so its directory can be deleted. An absent name fails with `NotFound`
    /// and mutates nothing, so there is nothing to persist.
    pub fn remove_dependency(&mut self, name: &str) -> (r: Result<Dependency, PkgError>)
        ensures
            !old(self).has_dep(name@) ==> r == Err::<Dependency, PkgError>(PkgError::NotFound)
                && *final(self) == *old(self),
            old(self).has_dep(name@) ==> (r matches Ok(d) && (exists|i: int|
                {
                    &&& 0 <= i < old(self).dependencies@.len()
                    &&& #[trigger] old(self).dependencies@[i].name@ == name@
                    &&& d == old(self).dependencies@[i]
                    &&& final(self).dependencies@ == old(self).dependencies@.remove(i)
                })),
            old(self).wf() ==> final(self).wf(),
    {
        match self.find_index(name) {
            None => Err(PkgError::NotFound),
            Some(i) => {
                let ghost ds = self.dependencies@;
                let d = self.dependencies.remove(i);
                proof {
                    if old(self).wf() {
                        let ds2 = self.dependencies@;
                        assert(ds2 =~= ds.remove(i as int));
                        assert forall|p: int, q: int|
                            0 <= p < q < ds2.len() implies #[trigger] ds2[p].name@
                            != #[trigger] ds2[q].name@ by {
                            let p2: int = if p < i { p } else { p + 1 };
                            let q2: int = if q < i { q } else { q + 1 };
                            assert(ds2[p] == ds[p2]);
                            assert(ds2[q] == ds[q2]);
                            assert(ds[p2].name@ != ds[q2].name@);
                        }
                    }
                }
                Ok(d)
            },
        }
    }

    /// Re-resolve a dependency against a fresh tag enumeration. Where the
    /// latest matching version equals the recorded one (tag prefix aside),
    /// nothing changes and nothing is to be done on disk; otherwise the
    /// record takes the new version and the superseded directory is handed
    /// back for deletion and reinstallation.
    pub fn update_dependency(&mut self, name: &str, tags: &Vec<String>) -> (r: Result<
        UpdateOutcome,
        PkgError,
    >)
        ensures
            r is Err ==> *final(self) == *old(self),
            !old(self).has_dep(name@) ==> r == Err::<UpdateOutcome, PkgError>(PkgError::NotFound),
            old(self).has_dep(name@) ==> (exists|i: int|
                {
                    &&& 0 <= i < old(self).dependencies@.len()
                    &&& #[trigger] old(self).dependencies@[i].name@ == name@
                    &&& {
                        let d = old(self).dependencies@[i];
                        let cok = match d.version_constraint {
                            Some(c) => constraint_ok(c@),
                            None => true,
                        };
                        &&& (!cok ==> r == Err::<UpdateOutcome, PkgError>(
                            PkgError::InvalidConstraint,
                        ))
                        &&& (cok ==> {
                            let latest = spec_latest(d.spec_range(), tags.deep_view());
                            &&& (latest is None ==> r == Err::<UpdateOutcome, PkgError>(
                                PkgError::NoMatchingVersion,
                            ))
                            &&& (latest matches Some(v) ==> {
                                &&& (v == strip_v_spec(d.version@) ==> r == Ok::<
                                    UpdateOutcome,
                                    PkgError,
                                >(UpdateOutcome::Unchanged) && *final(self) == *old(self))
                                &&& (v != strip_v_spec(d.version@) ==> (r matches Ok(
                                    UpdateOutcome::Reinstall { old_dir, new_version },
                                ) && {
                                    &&& old_dir@ == spec_dir_name(d.name@, d.version@)
                                    &&& new_version@ == v
                                    &&& final(self).dependencies@.len() == old(self).dependencies@.len()
                                    &&& forall|j: int|
                                        0 <= j < old(self).dependencies@.len() && j != i
                                            ==> #[trigger] final(self).dependencies@[j] == old(self).dependencies@[j]
                                    &&& final(self).dependencies@[i].name == d.name
                                    &&& final(self).dependencies@[i].full_name == d.full_name
                                    &&& final(self).dependencies@[i].url == d.url
                                    &&& final(self).dependencies@[i].version_constraint
                                        == d.version_constraint
                                    &&& final(self).dependencies@[i].version@ == v
                                }))
                            })
                        })
                    }
                }),
            old(self).wf() ==> final(self).wf(),
    {
        let idx = match self.find_index(name) {
            None => {
                return Err(PkgError::NotFound);
            },
            Some(i) => i,
        };
        let latest = match self.dependencies[idx].find_latest_matching_version(tags) {
            Err(e) => {
                return Err(e);
            },
            Ok(v) => v,
        };
        let cur_stripped = strip_v_exec(self.dependencies[idx].version.as_str());
        if str_eq(cur_stripped, latest.as_str()) {
            return Ok(UpdateOutcome::Unchanged);
        }
        let old_dir = dir_name(
            self.dependencies[idx].name.as_str(),
            self.dependencies[idx].version.as_str(),
        );
        let ghost ds = self.dependencies@;
        let mut d = self.dependencies.remove(idx);
        d.version = latest;
        let new_version = d.version.clone();
        self.dependencies.insert(idx, d);
        proof {
            assert(self.dependencies@ =~= ds.update(
                idx as int,
                self.dependencies@[idx as int],
            ));
            if old(self).wf() {
                let ds2 = self.dependencies@;
                assert forall|p: int, q: int|
                    0 <= p < q < ds2.len() implies #[trigger] ds2[p].name@
                    != #[trigger] ds2[q].name@ by {
                    assert(ds2[p].name@ == ds[p].name@);
                    assert(ds2[q].name@ == ds[q].name@);
                    assert(ds[p].name@ != ds[q].name@);
                }
            }
        }
        Ok(UpdateOutcome::Reinstall { old_dir, new_version })
    }

    /// Replace a dependency's range constraint, after validating it. The
    /// caller persists on success; on failure nothing changed.
    pub fn modify_dependency_constraint(&mut self, name: &str, new_constraint: &str) -> (r: Result<
        (),
        PkgError,
    >)
        ensures
            r is Err ==> *final(self) == *old(self),
            !old(self).has_dep(name@) ==> r == Err::<(), PkgError>(PkgError::NotFound),
            old(self).has_dep(name@) && !constraint_ok(new_constraint@) ==> r == Err::<
                (),
                PkgError,
            >(PkgError::InvalidConstraint),
            old(self).has_dep(name@) && constraint_ok(new_constraint@) ==> (r is Ok && (exists|
                i: int,
            |
                {
                    &&& 0 <= i < old(self).dependencies@.len()
                    &&& #[trigger] old(self).dependencies@[i].name@ == name@
                    &&& final(self).dependencies@.len() == old(self).dependencies@.len()
                    &&& forall|j: int|
                        0 <= j < old(self).dependencies@.len() && j != i ==> #[trigger] final(self).dependencies@[j] == old(self).dependencies@[j]
                    &&& final(self).dependencies@[i].name == old(self).dependencies@[i].name
                    &&& final(self).dependencies@[i].full_name == old(self).dependencies@[i].full_name
                    &&& final(self).dependencies@[i].url == old(self).dependencies@[i].url
                    &&& final(self).dependencies@[i].version == old(self).dependencies@[i].version
                    &&& final(self).dependencies@[i].version_constraint matches Some(c) && c@
                        == new_constraint@
                })),
            old(self).wf() ==> final(self).wf(),
    {
        let idx = match self.find_index(name) {
            None => {
                return Err(PkgError::NotFound);
            },
            Some(i) => i,
        };
        match self.dependencies[idx].validate_version_constraint(new_constraint) {
            Err(e) => {
                return Err(e);
            },
            Ok(()) => {},
        }
        let ghost ds = self.dependencies@;
        let mut d = self.dependencies.remove(idx);
        d.version_constraint = Some(String::from_str(new_constraint));
        self.dependencies.insert(idx, d);
        proof {
            assert(self.dependencies@ =~= ds.update(
                idx as int,
                self.dependencies@[idx as int],
            ));
            if old(self).wf() {
                let ds2 = self.dependencies@;
                assert forall|p: int, q: int|
                    0 <= p < q < ds2.len() implies #[trigger] ds2[p].name@
                    != #[trigger] ds2[q].name@ by {
                    assert(ds2[p].name@ == ds[p].name@);
                    assert(ds2[q].name@ == ds[q].name@);
                    assert(ds[p].name@ != ds[q].name@);
                }
            }
        }
        Ok(())
    }

    /// Drop a dependency's range constraint. A dependency without one fails
    /// with `MissingConstraint`; on failure nothing changed.
    pub fn remove_dependency_constraint(&mut self, name: &str) -> (r: Result<(), PkgError>)
        ensures
            r is Err ==> *final(self) == *old(self),
            !old(self).has_dep(name@) ==> r == Err::<(), PkgError>(PkgError::NotFound),
            old(self).has_dep(name@) ==> (exists|i: int|
                {
                    &&& 0 <= i < old(self).dependencies@.len()
                    &&& #[trigger] old(self).dependencies@[i].name@ == name@
                    &&& (old(self).dependencies@[i].version_constraint is None ==> r == Err::<
                        (),
                        PkgError,
                    >(PkgError::MissingConstraint))
                    &&& (old(self).dependencies@[i].version_constraint is Some ==> {
                        &&& r is Ok
                        &&& final(self).dependencies@.len() == old(self).dependencies@.len()
                        &&& forall|j: int|
                            0 <= j < old(self).dependencies@.len() && j != i ==> #[trigger] final(self).dependencies@[j] == old(self).dependencies@[j]
                        &&& final(self).dependencies@[i].name == old(self).dependencies@[i].name
                        &&& final(self).dependencies@[i].full_name == old(self).dependencies@[i].full_name
                        &&& final(self).dependencies@[i].url == old(self).dependencies@[i].url
                        &&& final(self).dependencies@[i].version == old(self).dependencies@[i].version
                        &&& final(self).dependencies@[i].version_constraint is None
                    })
                }),
            old(self).wf() ==> final(self).wf(),
    {
        let idx = match self.find_index(name) {
            None => {
                return Err(PkgError::NotFound);
            },
            Some(i) => i,
        };
        if self.dependencies[idx].version_constraint.is_none() {
            return Err(PkgError::MissingConstraint);
        }
        let ghost ds = self.dependencies@;
        let mut d = self.dependencies.remove(idx);
        d.version_constraint = None;
        self.dependencies.insert(idx, d);
        proof {
            assert(self.dependencies@ =~= ds.update(
                idx as int,
                self.dependencies@[idx as int],
            ));
            if old(self).wf() {
                let ds2 = self.dependencies@;
                assert forall|p: int, q: int|
                    0 <= p < q < ds2.len() implies #[trigger] ds2[p].name@
                    != #[trigger] ds2[q].name@ by {
                    assert(ds2[p].name@ == ds[p].name@);
                    assert(ds2[q].name@ == ds[q].name@);
                    assert(ds[p].name@ != ds[q].name@);
                }
            }
        }
        Ok(())
    }
}

} // verus!
