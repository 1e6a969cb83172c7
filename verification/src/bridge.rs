//! Build-system integration: from the current dependency set, emit the
//! bridge texts that wire every installed dependency into the consuming
//! project — one text of include directives, one of link directives.
//! Regeneration is a pure function of the dependency set, so rewriting the
//! files replaces stale content and never appends.

use vstd::prelude::*;
use crate::codec::DepModel;
use crate::codec::dep_model;
use crate::dependency::Dependency;
use crate::dependency::dir_name;
use crate::dependency::spec_dir_name;

verus! {

/// A build backend: a deterministic mapping from the dependency set and the
/// dependency root to the two bridge texts. Building itself (configure and
/// compile) is an external process and not part of the library.
pub trait BuildSystem {
    /// The backend's bridge texts as a mathematical function.
    spec fn bridge_spec(deps: Seq<DepModel>, root: Seq<char>) -> (Seq<char>, Seq<char>);

    /// Emit the include-directive text and the link-directive text for the
    /// dependencies, with `root` the path of the dependency root directory.
    fn generate_dependency_bridge(deps: &Vec<Dependency>, root: &str) -> (r: (String, String))
        ensures
            r.0@ == Self::bridge_spec(
                deps@.map(|i: int, d: Dependency| dep_model(d)),
                root@,
            ).0,
            r.1@ == Self::bridge_spec(
                deps@.map(|i: int, d: Dependency| dep_model(d)),
                root@,
            ).1,
    ;
}

/// Generating the bridge twice for the same dependency set produces
/// byte-identical output: the texts are a function of the set alone.
pub proof fn lemma_bridge_idempotent<B: BuildSystem>(
    deps: Seq<DepModel>,
    root: Seq<char>,
    first: (Seq<char>, Seq<char>),
    second: (Seq<char>, Seq<char>),
)
    requires
        first == B::bridge_spec(deps, root),
        second == B::bridge_spec(deps, root),
    ensures
        first == second,
{
}

/// The cmake backend.
pub struct CMake {}

/// One dependency's two include-file lines: incorporate its directory, and
/// put its `include` subdirectory on the search path.
pub open spec fn cmake_include_entry(d: DepModel, root: Seq<char>) -> Seq<char> {
    "add_subdirectory("@ + root + seq!['/'] + spec_dir_name(d.name, d.version) + ")"@ + seq!['\n']
        + "include_directories("@ + root + seq!['/'] + spec_dir_name(d.name, d.version)
        + "/include)"@ + seq!['\n']
}

/// One dependency's link-file line: link the consuming target against it.
pub open spec fn cmake_link_entry(d: DepModel) -> Seq<char> {
    "target_link_libraries(main PRIVATE "@ + d.name + ")"@ + seq!['\n']
}

pub open spec fn cmake_include_text(ds: Seq<DepModel>, root: Seq<char>) -> Seq<char>
    decreases ds.len(),
{
    if ds.len() == 0 {
        Seq::empty()
    } else {
        cmake_include_text(ds.drop_last(), root) + cmake_include_entry(ds.last(), root)
    }
}

pub open spec fn cmake_link_text(ds: Seq<DepModel>) -> Seq<char>
    decreases ds.len(),
{
    if ds.len() == 0 {
        Seq::empty()
    } else {
        cmake_link_text(ds.drop_last()) + cmake_link_entry(ds.last())
    }
}

impl BuildSystem for CMake {
    open spec fn bridge_spec(deps: Seq<DepModel>, root: Seq<char>) -> (Seq<char>, Seq<char>) {
        (cmake_include_text(deps, root), cmake_link_text(deps))
    }

    fn generate_dependency_bridge(deps: &Vec<Dependency>, root: &str) -> (r: (String, String))
        ensures
            r.0@ == Self::bridge_spec(
                deps@.map(|i: int, d: Dependency| dep_model(d)),
                root@,
            ).0,
            r.1@ == Self::bridge_spec(
                deps@.map(|i: int, d: Dependency| dep_model(d)),
                root@,
            ).1,
    {
        let ghost models = deps@.map(|i: int, d: Dependency| dep_model(d));
        let mut inc = String::new();
        let mut links = String::new();
        let n = deps.len();
        let mut i: usize = 0;
        proof {
            assert(models.take(0) =~= Seq::<DepModel>::empty());
        }
        while i < n
            invariant
                i <= n,
                n == deps@.len(),
                models == deps@.map(|k: int, d: Dependency| dep_model(d)),
                models.len() == n,
                inc@ == cmake_include_text(models.take(i as int), root@),
                links@ == cmake_link_text(models.take(i as int)),
            decreases n - i,
        {
            let d = &deps[i];
            let dir = dir_name(d.name.as_str(), d.version.as_str());
            inc.append("add_subdirectory(");
            inc.append(root);
            inc.append("/");
            inc.append(dir.as_str());
            inc.append(")");
            inc.append("\n");
            inc.append("include_directories(");
            inc.append(root);
            inc.append("/");
            inc.append(dir.as_str());
            inc.append("/include)");
            inc.append("\n");
            links.append("target_link_libraries(main PRIVATE ");
            links.append(d.name.as_str());
            links.append(")");
            links.append("\n");
            proof {
                reveal_strlit("/");
                reveal_strlit("\n");
                assert("/"@ =~= seq!['/']);
                assert("\n"@ =~= seq!['\n']);
                assert(models[i as int] == dep_model(deps@[i as int]));
                assert(models.take(i as int + 1) =~= models.take(i as int).push(models[i as int]));
                assert(models.take(i as int + 1).drop_last() =~= models.take(i as int));
                assert(models.take(i as int + 1).last() == models[i as int]);
                assert(inc@ =~= cmake_include_text(models.take(i as int), root@)
                    + cmake_include_entry(models[i as int], root@));
                assert(links@ =~= cmake_link_text(models.take(i as int)) + cmake_link_entry(
                    models[i as int],
                ));
            }
            i = i + 1;
        }
        proof {
            assert(models.take(n as int) =~= models);
        }
        (inc, links)
    }
}

} // verus!
