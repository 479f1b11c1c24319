//! Workspace members and `--package` narrowing.
//!
//! The members come from `cargo metadata` (read by the caller). Single-crate
//! projects produce one entry with the crate root at the project root;
//! virtual workspaces produce one entry per member.
use vstd::prelude::*;
use crate::paths::{path_starts_with, starts_with};
use crate::text::{joined, push_str, str_eq};

verus! {

/// One member of a cargo workspace (or the single package in a non-workspace
/// project).
#[derive(Debug, Clone, PartialEq, Eq)]
pub struct Package {
    pub name: String,
    /// Directory containing the package's `Cargo.toml`. Every file under this
    /// path belongs to this package.
    pub root: String,
}

pub open spec fn package_names(packages: Seq<Package>) -> Seq<Seq<char>> {
    packages.map_values(|p: Package| p.name@)
}

/// The message for a `--package` name that is not a member.
pub open spec fn unknown_package_message(name: Seq<char>, packages: Seq<Package>) -> Seq<char> {
    "--package `"@ + name + "`: not a workspace member. Known: "@ + if packages.len() == 0 {
        "(none \u{2014} not a cargo project?)"@
    } else {
        joined(package_names(packages), ", "@)
    }
}

/// The index of the first package named `name`, if any.
pub open spec fn first_named(packages: Seq<Package>, name: Seq<char>) -> Option<int> {
    if exists|k: int| 0 <= k < packages.len() && (#[trigger] packages[k]).name@ == name {
        Some(
            choose|k: int|
                0 <= k < packages.len() && (#[trigger] packages[k]).name@ == name && forall|j: int|
                    0 <= j < k ==> (#[trigger] packages[j]).name@ != name,
        )
    } else {
        None
    }
}

fn join_names(packages: &[Package]) -> (s: String)
    ensures
        s@ == joined(package_names(packages@), ", "@),
{
    let mut s = String::new();
    let ghost names = package_names(packages@);
    for i in 0..packages.len()
        invariant
            names == package_names(packages@),
            s@ == joined(names.take(i as int), ", "@),
    {
        assert(names.take(i + 1).drop_last() =~= names.take(i as int));
        if i > 0 {
            push_str(&mut s, ", ");
        }
        push_str(&mut s, packages[i].name.as_str());
    }
    assert(names.take(packages.len() as int) =~= names);
    s
}

/// Find a package by name. Returns `Err` with a helpful message listing the
/// known members when the name doesn't match.
pub fn find<'a>(packages: &'a [Package], name: &str) -> (r: Result<&'a Package, String>)
    ensures
        match first_named(packages@, name@) {
            Some(k) => r == Ok::<&Package, String>(&packages@[k]),
            None => r matches Err(msg) && msg@ == unknown_package_message(name@, packages@),
        },
{
    for k in 0..packages.len()
        invariant
            forall|j: int| 0 <= j < k ==> (#[trigger] packages@[j]).name@ != name@,
    {
        if str_eq(packages[k].name.as_str(), name) {
            proof {
                let c = choose|c: int|
                    0 <= c < packages@.len() && (#[trigger] packages@[c]).name@ == name@ && forall|
                        j: int,
                    | 0 <= j < c ==> (#[trigger] packages@[j]).name@ != name@;
                assert(c == k as int) by {
                    if c < k {
                    } else if c > k {
                        assert(packages@[k as int].name@ == name@);
                    }
                }
            }
            return Ok(&packages[k]);
        }
    }
    let mut msg = String::new();
    push_str(&mut msg, "--package `");
    push_str(&mut msg, name);
    push_str(&mut msg, "`: not a workspace member. Known: ");
    if packages.len() == 0 {
        push_str(&mut msg, "(none \u{2014} not a cargo project?)");
    } else {
        let known = join_names(packages);
        push_str(&mut msg, known.as_str());
    }
    Err(msg)
}

/// Retain only the files under `pkg.root` (whole path components), in order.
pub fn narrow_paths(paths: Vec<String>, pkg: &Package) -> (out: Vec<String>)
    ensures
        out@.map_values(|p: String| p@) == paths@.map_values(|p: String| p@).filter(
            |p: Seq<char>| path_starts_with(p, pkg.root@),
        ),
{
    let ghost pred = |p: Seq<char>| path_starts_with(p, pkg.root@);
    let ghost texts = paths@.map_values(|p: String| p@);
    let mut out: Vec<String> = Vec::new();
    for i in 0..paths.len()
        invariant
            pred == (|p: Seq<char>| path_starts_with(p, pkg.root@)),
            texts == paths@.map_values(|p: String| p@),
            out@.map_values(|p: String| p@) == texts.take(i as int).filter(pred),
    {
        let keep = starts_with(paths[i].as_str(), pkg.root.as_str());
        proof {
            assert(texts.take(i + 1).drop_last() =~= texts.take(i as int));
            reveal(Seq::filter);
        }
        if keep {
            let ghost before = out@;
            out.push(paths[i].clone());
            assert(out@.map_values(|p: String| p@) =~= before.map_values(|p: String| p@).push(
                paths@[i as int]@,
            ));
        }
    }
    assert(texts.take(paths.len() as int) =~= texts);
    out
}

} // verus!
