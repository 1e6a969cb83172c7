//! The installation state machine: staging, resolution, version detection
//! and atomic placement of one dependency, as a pure transition system.
//!
//! The machine decides; the surrounding binary performs. Each step consumes
//! the outcome of the previous action (did the final path exist, did the
//! clone succeed, what tags were found) and answers with the next action to
//! perform. Cloning happens only when the final path was absent, detection
//! follows every successful materialization, and a failed rename falls back
//! to exactly one copy-and-delete attempt.

use vstd::prelude::*;
use crate::dependency::Dependency;
use crate::dependency::dir_name;
use crate::dependency::spec_dir_name;
use crate::error::PkgError;
use crate::resolver::ResolvedRef;
use crate::resolver::resolve;
use crate::resolver::constraint_ok;
use crate::resolver::selectable;
use crate::resolver::tag_key;
use crate::resolver::normalized_spec;
use crate::text::str_eq;
use crate::version::key_lt;

verus! {

/// A tag together with the commit it ultimately points at.
pub struct TagRef {
    /// The tag's name, as listed by the repository.
    pub name: String,
    /// The commit id the tag peels to, in full hexadecimal form.
    pub target: String,
}

/// The version a checked-out working tree is at: the first tag whose target
/// is the head commit, else the head's short (seven-character) id.
pub open spec fn spec_detect(tags: Seq<TagRef>, head: Seq<char>) -> Seq<char>
    decreases tags.len(),
{
    if tags.len() == 0 {
        head.take(7)
    } else if tags[0].target@ == head {
        tags[0].name@
    } else {
        spec_detect(tags.drop_first(), head)
    }
}

/// Detect the version of a working tree from its tag list and head commit.
pub fn detect_checked_out_version(tags: &Vec<TagRef>, head: &str) -> (r: String)
    requires
        head@.len() >= 7,
    ensures
        r@ == spec_detect(tags@, head@),
{
    let n = tags.len();
    let mut i: usize = 0;
    proof {
        assert(tags@.skip(0) =~= tags@);
    }
    while i < n
        invariant
            n == tags@.len(),
            i <= n,
            head@.len() >= 7,
            spec_detect(tags@, head@) == spec_detect(tags@.skip(i as int), head@),
        decreases n - i,
    {
        proof {
            assert(tags@.skip(i as int)[0] == tags@[i as int]);
            assert(tags@.skip(i as int).drop_first() =~= tags@.skip(i as int + 1));
        }
        if str_eq(tags[i].target.as_str(), head) {
            return tags[i].name.clone();
        }
        i = i + 1;
    }
    proof {
        assert(tags@.skip(i as int).len() == 0);
    }
    let short = head.substring_char(0, 7);
    proof {
        assert(head@.subrange(0, 7) =~= head@.take(7));
    }
    String::from_str(short)
}

// ---------------------------------------------------------------------------
// The machine
// ---------------------------------------------------------------------------

/// Where an installation stands.
pub enum InstallState {
    /// Nothing asked yet.
    Idle,
    /// Asked whether the final path already exists.
    CheckingFinal,
    /// The final path exists: asked for its tags and head, to re-derive the
    /// version without cloning.
    InspectingExisting,
    /// The final path is absent: asked to remove a stale staging directory.
    Cleaning,
    /// Asked to clone the source into the staging directory.
    Cloning,
    /// Asked for the tag names of the fresh clone, to resolve the constraint.
    ResolvingTags,
    /// Asked to check out the resolved ref; `ref_was_tag` tells a failure
    /// apart: a tag that fails to check out is a source-control failure, an
    /// unmatched ref name an unresolvable constraint.
    CheckingOut { ref_was_tag: bool },
    /// Asked for tags and head of the staging tree, to detect the version.
    InspectingFresh,
    /// Asked to let the staging tree settle and rename it into place.
    Moving { version: String },
    /// The rename failed: asked to copy recursively and delete the staging
    /// tree instead.
    Copying { version: String },
    /// The dependency is materialized at `<name>@<version>`.
    Done { version: String },
    /// The installation failed; the staging directory may remain for the
    /// next attempt to clean up.
    Failed { error: PkgError },
}

/// What the surrounding binary reports back to the machine.
pub enum InstallEvent {
    /// Whether the final path exists on disk.
    FinalChecked { exists: bool },
    /// Tags and head of an opened working tree, or nothing where opening,
    /// tag enumeration or head resolution failed.
    Inspected { data: Option<(Vec<TagRef>, String)> },
    /// Whether removing the stale staging directory succeeded (an absent
    /// directory counts as success).
    Cleaned { ok: bool },
    /// Whether the clone succeeded.
    CloneFinished { ok: bool },
    /// The tag names of the fresh clone, or nothing where enumeration failed.
    TagsListed { tags: Option<Vec<String>> },
    /// Whether the detached checkout (or branch lookup) succeeded.
    CheckedOut { ok: bool },
    /// Whether the rename into the final path succeeded.
    Moved { renamed: bool },
    /// Whether the copy fallback (copy, then delete staging) succeeded.
    Copied { ok: bool },
}

/// What the machine asks the surrounding binary to do next.
pub enum InstallAction {
    /// Report whether the directory of this name exists under the
    /// dependency root.
    CheckFinalPath { dir: String },
    /// Open the directory of this name and report its tags and head.
    Inspect { dir: String },
    /// Remove the directory of this name if present.
    RemoveDir { dir: String },
    /// Clone this source into the directory of this name.
    CloneRepo { url: String, dir: String },
    /// List the tag names of the staging tree.
    ListTags,
    /// Check out the resolved ref, detached.
    Checkout { target: ResolvedRef },
    /// Wait briefly for the version-control library to release its handles,
    /// then rename the staging directory to the final one.
    SettleAndMove { from: String, to: String },
    /// Copy the staging tree recursively to the final directory, then
    /// delete the staging tree.
    CopyAndRemove { from: String, to: String },
    /// The installation is complete at this version.
    Finish { version: String },
    /// The installation failed.
    Abort { error: PkgError },
}

/// One dependency's installation in progress.
pub struct InstallMachine {
    /// The dependency being materialized (its recorded version names the
    /// final path; empty means not yet installed).
    pub dep: Dependency,
    /// Where the machine stands.
    pub state: InstallState,
}

/// Which events a state accepts.
pub open spec fn accepts(state: InstallState, e: InstallEvent) -> bool {
    match state {
        InstallState::Idle => false,
        InstallState::CheckingFinal => e is FinalChecked,
        InstallState::InspectingExisting => e is Inspected,
        InstallState::Cleaning => e is Cleaned,
        InstallState::Cloning => e is CloneFinished,
        InstallState::ResolvingTags => e is TagsListed,
        InstallState::CheckingOut { .. } => e is CheckedOut,
        InstallState::InspectingFresh => e is Inspected,
        InstallState::Moving { .. } => e is Moved,
        InstallState::Copying { .. } => e is Copied,
        InstallState::Done { .. } => false,
        InstallState::Failed { .. } => false,
    }
}

impl InstallMachine {
    /// The machine for one dependency, before anything was asked.
    pub fn new(dep: Dependency) -> (m: InstallMachine)
        ensures
            m.dep == dep,
            m.state is Idle,
    {
        InstallMachine { dep, state: InstallState::Idle }
    }

    /// The staging directory's name: the version-less placeholder.
    pub open spec fn spec_temp_dir(self) -> Seq<char> {
        spec_dir_name(self.dep.name@, Seq::<char>::empty())
    }

    /// Whether the machine is waiting for exactly this kind of event: the
    /// guard a driver checks before calling [`InstallMachine::step`].
    pub fn accepts_event(&self, e: &InstallEvent) -> (r: bool)
        ensures
            r == accepts(self.state, *e),
    {
        match (&self.state, e) {
            (InstallState::CheckingFinal, InstallEvent::FinalChecked { .. }) => true,
            (InstallState::InspectingExisting, InstallEvent::Inspected { .. }) => true,
            (InstallState::Cleaning, InstallEvent::Cleaned { .. }) => true,
            (InstallState::Cloning, InstallEvent::CloneFinished { .. }) => true,
            (InstallState::ResolvingTags, InstallEvent::TagsListed { .. }) => true,
            (InstallState::CheckingOut { .. }, InstallEvent::CheckedOut { .. }) => true,
            (InstallState::InspectingFresh, InstallEvent::Inspected { .. }) => true,
            (InstallState::Moving { .. }, InstallEvent::Moved { .. }) => true,
            (InstallState::Copying { .. }, InstallEvent::Copied { .. }) => true,
            _ => false,
        }
    }

    /// Ask the first question: does the final path already exist?
    pub fn begin(&mut self) -> (a: InstallAction)
        requires
            old(self).state is Idle,
        ensures
            final(self).dep == old(self).dep,
            final(self).state is CheckingFinal,
            a matches InstallAction::CheckFinalPath { dir } && dir@ == spec_dir_name(
                old(self).dep.name@,
                old(self).dep.version@,
            ),
    {
        self.state = InstallState::CheckingFinal;
        InstallAction::CheckFinalPath { dir: self.dep.get_final_path() }
    }

    /// Feed the outcome of the last action; the machine moves and answers
    /// with the next action. The contract walks every transition:
    /// an existing final path is inspected and never cloned over; an absent
    /// one is staged, resolved, detected and then moved into place; a failed
    /// rename falls back to one copy; every failure is surfaced as `Abort`
    /// with the error the stage calls for.
    pub fn step(&mut self, e: InstallEvent) -> (a: InstallAction)
        requires
            accepts(old(self).state, e),
        ensures
            final(self).dep == old(self).dep,
            step_contract(*old(self), e, *final(self), a),
    {
        let ghost pre = *self;
        match (&self.state, e) {
            (InstallState::CheckingFinal, InstallEvent::FinalChecked { exists }) => {
                if exists {
                    self.state = InstallState::InspectingExisting;
                    InstallAction::Inspect { dir: self.dep.get_final_path() }
                } else {
                    self.state = InstallState::Cleaning;
                    InstallAction::RemoveDir { dir: self.dep.temp_dir_name() }
                }
            },
            (InstallState::InspectingExisting, InstallEvent::Inspected { data }) => {
                match data {
                    Some((tags, head)) => {
                        if head.as_str().unicode_len() < 7 {
                            self.state = InstallState::Failed {
                                error: PkgError::SourceControlFailure,
                            };
                            InstallAction::Abort { error: PkgError::SourceControlFailure }
                        } else {
                            let v = detect_checked_out_version(&tags, head.as_str());
                            let ghost vv = v@;
                            self.state = InstallState::Done { version: v.clone() };
                            InstallAction::Finish { version: v }
                        }
                    },
                    None => {
                        self.state = InstallState::Failed { error: PkgError::SourceControlFailure };
                        InstallAction::Abort { error: PkgError::SourceControlFailure }
                    },
                }
            },
            (InstallState::Cleaning, InstallEvent::Cleaned { ok }) => {
                if ok {
                    self.state = InstallState::Cloning;
                    InstallAction::CloneRepo {
                        url: self.dep.url.clone(),
                        dir: self.dep.temp_dir_name(),
                    }
                } else {
                    self.state = InstallState::Failed { error: PkgError::FilesystemFailure };
                    InstallAction::Abort { error: PkgError::FilesystemFailure }
                }
            },
            (InstallState::Cloning, InstallEvent::CloneFinished { ok }) => {
                if ok {
                    if self.dep.version_constraint.is_some() {
                        self.state = InstallState::ResolvingTags;
                        InstallAction::ListTags
                    } else {
                        self.state = InstallState::InspectingFresh;
                        InstallAction::Inspect { dir: self.dep.temp_dir_name() }
                    }
                } else {
                    self.state = InstallState::Failed { error: PkgError::SourceControlFailure };
                    InstallAction::Abort { error: PkgError::SourceControlFailure }
                }
            },
            (InstallState::ResolvingTags, InstallEvent::TagsListed { tags }) => {
                match tags {
                    Some(tags) => {
                        match resolve(&self.dep.version_constraint, &tags) {
                            Ok(target) => {
                                let was_tag = match &target {
                                    ResolvedRef::Tag(_) => true,
                                    _ => false,
                                };
                                self.state = InstallState::CheckingOut { ref_was_tag: was_tag };
                                InstallAction::Checkout { target }
                            },
                            Err(err) => {
                                self.state = InstallState::Failed { error: err };
                                InstallAction::Abort { error: err }
                            },
                        }
                    },
                    None => {
                        self.state = InstallState::Failed { error: PkgError::SourceControlFailure };
                        InstallAction::Abort { error: PkgError::SourceControlFailure }
                    },
                }
            },
            (InstallState::CheckingOut { ref_was_tag }, InstallEvent::CheckedOut { ok }) => {
                let was_tag = *ref_was_tag;
                if ok {
                    self.state = InstallState::InspectingFresh;
                    InstallAction::Inspect { dir: self.dep.temp_dir_name() }
                } else {
                    let err = if was_tag {
                        PkgError::SourceControlFailure
                    } else {
                        PkgError::UnresolvableConstraint
                    };
                    self.state = InstallState::Failed { error: err };
                    InstallAction::Abort { error: err }
                }
            },
            (InstallState::InspectingFresh, InstallEvent::Inspected { data }) => {
                match data {
                    Some((tags, head)) => {
                        if head.as_str().unicode_len() < 7 {
                            self.state = InstallState::Failed {
                                error: PkgError::SourceControlFailure,
                            };
                            InstallAction::Abort { error: PkgError::SourceControlFailure }
                        } else {
                            let v = detect_checked_out_version(&tags, head.as_str());
                            let to = dir_name(self.dep.name.as_str(), v.as_str());
                            self.state = InstallState::Moving { version: v };
                            InstallAction::SettleAndMove { from: self.dep.temp_dir_name(), to }
                        }
                    },
                    None => {
                        self.state = InstallState::Failed { error: PkgError::SourceControlFailure };
                        InstallAction::Abort { error: PkgError::SourceControlFailure }
                    },
                }
            },
            (InstallState::Moving { version }, InstallEvent::Moved { renamed }) => {
                let v = version.clone();
                if renamed {
                    self.state = InstallState::Done { version: v.clone() };
                    InstallAction::Finish { version: v }
                } else {
                    let to = dir_name(self.dep.name.as_str(), v.as_str());
                    self.state = InstallState::Copying { version: v };
                    InstallAction::CopyAndRemove { from: self.dep.temp_dir_name(), to }
                }
            },
            (InstallState::Copying { version }, InstallEvent::Copied { ok }) => {
                let v = version.clone();
                if ok {
                    self.state = InstallState::Done { version: v.clone() };
                    InstallAction::Finish { version: v }
                } else {
                    self.state = InstallState::Failed { error: PkgError::FilesystemFailure };
                    InstallAction::Abort { error: PkgError::FilesystemFailure }
                }
            },
            _ => {
                proof {
                    assert(false);
                }
                InstallAction::Abort { error: PkgError::FilesystemFailure }
            },
        }
    }
}

/// The full transition relation of [`InstallMachine::step`]: for each state
/// and event, the state moved to and the action answered.
pub open spec fn step_contract(
    pre: InstallMachine,
    e: InstallEvent,
    post: InstallMachine,
    a: InstallAction,
) -> bool {
    let dep = pre.dep;
    let temp = spec_dir_name(dep.name@, Seq::<char>::empty());
    match (pre.state, e) {
        (InstallState::CheckingFinal, InstallEvent::FinalChecked { exists }) => {
            if exists {
                &&& post.state is InspectingExisting
                &&& a matches InstallAction::Inspect { dir } && dir@ == spec_dir_name(
                    dep.name@,
                    dep.version@,
                )
            } else {
                &&& post.state is Cleaning
                &&& a matches InstallAction::RemoveDir { dir } && dir@ == temp
            }
        },
        (InstallState::InspectingExisting, InstallEvent::Inspected { data }) => {
            match data {
                Some((tags, head)) => {
                    if head@.len() >= 7 {
                        &&& post.state matches InstallState::Done { version } && version@
                            == spec_detect(tags@, head@)
                        &&& a matches InstallAction::Finish { version } && version@ == spec_detect(
                            tags@,
                            head@,
                        )
                    } else {
                        failed_with(post, a, PkgError::SourceControlFailure)
                    }
                },
                None => failed_with(post, a, PkgError::SourceControlFailure),
            }
        },
        (InstallState::Cleaning, InstallEvent::Cleaned { ok }) => {
            if ok {
                &&& post.state is Cloning
                &&& a matches InstallAction::CloneRepo { url, dir } && url@ == dep.url@ && dir@
                    == temp
            } else {
                failed_with(post, a, PkgError::FilesystemFailure)
            }
        },
        (InstallState::Cloning, InstallEvent::CloneFinished { ok }) => {
            if ok {
                if dep.version_constraint is Some {
                    &&& post.state is ResolvingTags
                    &&& a is ListTags
                } else {
                    &&& post.state is InspectingFresh
                    &&& a matches InstallAction::Inspect { dir } && dir@ == temp
                }
            } else {
                failed_with(post, a, PkgError::SourceControlFailure)
            }
        },
        (InstallState::ResolvingTags, InstallEvent::TagsListed { tags }) => {
            match tags {
                Some(tags) => {
                    let c = dep.version_constraint->0@;
                    let dv = tags.deep_view();
                    if dep.version_constraint is None {
                        &&& post.state matches InstallState::CheckingOut { ref_was_tag }
                            && !ref_was_tag
                        &&& a matches InstallAction::Checkout { target } && target is DefaultHead
                    } else if !constraint_ok(c) {
                        // not a range: hand the text on for branch lookup
                        &&& post.state matches InstallState::CheckingOut { ref_was_tag }
                            && !ref_was_tag
                        &&& a matches InstallAction::Checkout { target } && target matches
                            ResolvedRef::RefName(n) && n@ == c
                    } else if exists|j: int|
                        0 <= j < dv.len() && selectable(Some(normalized_spec(c)), #[trigger] dv[j]) {
                        // the range selects the maximum satisfying tag
                        &&& post.state matches InstallState::CheckingOut { ref_was_tag }
                            && ref_was_tag
                        &&& a matches InstallAction::Checkout { target } && target matches
                            ResolvedRef::Tag(t) && (exists|i: int|
                            0 <= i < dv.len() && #[trigger] dv[i] == t@) && selectable(
                            Some(normalized_spec(c)),
                            t@,
                        ) && (forall|j: int|
                            0 <= j < dv.len() && selectable(Some(normalized_spec(c)), #[trigger] dv[j])
                                ==> !key_lt(tag_key(t@), tag_key(dv[j])))
                    } else {
                        failed_with(post, a, PkgError::NoMatchingVersion)
                    }
                },
                None => failed_with(post, a, PkgError::SourceControlFailure),
            }
        },
        (InstallState::CheckingOut { ref_was_tag }, InstallEvent::CheckedOut { ok }) => {
            if ok {
                &&& post.state is InspectingFresh
                &&& a matches InstallAction::Inspect { dir } && dir@ == temp
            } else if ref_was_tag {
                failed_with(post, a, PkgError::SourceControlFailure)
            } else {
                failed_with(post, a, PkgError::UnresolvableConstraint)
            }
        },
        (InstallState::InspectingFresh, InstallEvent::Inspected { data }) => {
            match data {
                Some((tags, head)) => {
                    if head@.len() >= 7 {
                        let v = spec_detect(tags@, head@);
                        &&& post.state matches InstallState::Moving { version } && version@ == v
                        &&& a matches InstallAction::SettleAndMove { from, to } && from@ == temp
                            && to@ == spec_dir_name(dep.name@, v)
                    } else {
                        failed_with(post, a, PkgError::SourceControlFailure)
                    }
                },
                None => failed_with(post, a, PkgError::SourceControlFailure),
            }
        },
        (InstallState::Moving { version }, InstallEvent::Moved { renamed }) => {
            if renamed {
                &&& post.state matches InstallState::Done { version: v } && v == version
                &&& a matches InstallAction::Finish { version: v } && v == version
            } else {
                // exactly one fallback: copy, then delete the staging tree
                &&& post.state matches InstallState::Copying { version: v } && v == version
                &&& a matches InstallAction::CopyAndRemove { from, to } && from@ == temp && to@
                    == spec_dir_name(dep.name@, version@)
            }
        },
        (InstallState::Copying { version }, InstallEvent::Copied { ok }) => {
            if ok {
                &&& post.state matches InstallState::Done { version: v } && v == version
                &&& a matches InstallAction::Finish { version: v } && v == version
            } else {
                failed_with(post, a, PkgError::FilesystemFailure)
            }
        },
        _ => false,
    }
}

/// The machine failed with this error and says so.
pub open spec fn failed_with(post: InstallMachine, a: InstallAction, err: PkgError) -> bool {
    &&& post.state matches InstallState::Failed { error } && error == err
    &&& a matches InstallAction::Abort { error } && error == err
}

// ---------------------------------------------------------------------------
// What the transitions add up to
// ---------------------------------------------------------------------------

/// Installing over an existing final path never clones: a clone is only ever
/// asked for from the cleaning state, and cleaning is only entered on the
/// report that the final path was absent.
pub proof fn lemma_no_clone_over_existing(
    pre: InstallMachine,
    e: InstallEvent,
    post: InstallMachine,
    a: InstallAction,
)
    requires
        step_contract(pre, e, post, a),
    ensures
        a is CloneRepo ==> pre.state is Cleaning,
        post.state is Cleaning ==> (pre.state is CheckingFinal && (e matches
            InstallEvent::FinalChecked { exists } && !exists)),
{
}

/// Re-entering install on a finalized dependency is a no-op: when the final
/// path exists, the machine only inspects it, and the successful inspection
/// finishes at the re-derived version — no cleanup, no clone, no checkout,
/// no move.
pub proof fn lemma_existing_is_reinspected(
    pre: InstallMachine,
    post: InstallMachine,
    a: InstallAction,
    tags: Vec<TagRef>,
    head: String,
)
    requires
        pre.state is InspectingExisting,
        head@.len() >= 7,
        step_contract(
            pre,
            InstallEvent::Inspected { data: Some((tags, head)) },
            post,
            a,
        ),
    ensures
        post.state matches InstallState::Done { version } && version@ == spec_detect(tags@, head@),
        a matches InstallAction::Finish { version } && version@ == spec_detect(tags@, head@),
{
}

/// A failed rename still ends with the content at the final path or a
/// reported failure: the machine answers with the copy fallback aimed at
/// the same final directory, and a successful copy finishes at the same
/// version.
pub proof fn lemma_rename_failure_falls_back(
    pre: InstallMachine,
    post: InstallMachine,
    a: InstallAction,
    version: String,
)
    requires
        pre.state == (InstallState::Moving { version }),
        step_contract(pre, InstallEvent::Moved { renamed: false }, post, a),
    ensures
        post.state matches InstallState::Copying { version: v } && v == version,
        a matches InstallAction::CopyAndRemove { from, to } && from@ == spec_dir_name(
            pre.dep.name@,
            Seq::<char>::empty(),
        ) && to@ == spec_dir_name(pre.dep.name@, version@),
{
}

/// A head no tag points at detects as the seven-character short id.
pub proof fn lemma_detect_untagged(tags: Seq<TagRef>, head: Seq<char>)
    requires
        forall|i: int| 0 <= i < tags.len() ==> #[trigger] tags[i].target@ != head,
    ensures
        spec_detect(tags, head) == head.take(7),
    decreases tags.len(),
{
    if tags.len() > 0 {
        assert(tags[0].target@ != head);
        assert(forall|i: int|
            0 <= i < tags.drop_first().len() ==> #[trigger] tags.drop_first()[i].target@ != head);
        lemma_detect_untagged(tags.drop_first(), head);
    }
}

} // verus!
