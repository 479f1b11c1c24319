//! File discovery: which bucket a file belongs to, and `--diff` narrowing.
//!
//! Walking the tree (respecting `.gitignore`) and running `git` are the
//! caller's business; this module classifies what they found.
use vstd::prelude::*;
use crate::pipeline::{
    lemma_components_lt_irreflexive, lemma_components_lt_transitive, path_less, path_lt, same_components,
    same_path_components,
};
use crate::paths::{extension, file_name, join, path_extension, path_file_name, path_join};
use crate::text::{chars_of, lines_of, split_lines, str_eq, string_of, texts, trim, trim_seq, views};

verus! {

/// The project files spec-drift reads, by kind.
#[derive(Debug, Clone)]
pub struct DiscoveredFiles {
    pub rust: Vec<String>,
    pub markdown: Vec<String>,
    pub yaml: Vec<String>,
    pub makefiles: Vec<String>,
}

/// Where a discovered file goes.
#[derive(Debug, Clone, Copy, PartialEq, Eq, Structural)]
pub enum FileBucket {
    Rust,
    Markdown,
    Yaml,
    Makefile,
    Ignored,
}

/// Makefiles and justfiles by name; otherwise by extension: `rs`, `md` or
/// `markdown`, `yaml` or `yml`, `mk`.
pub open spec fn bucket_for(path: Seq<char>) -> FileBucket {
    let name = match path_file_name(path) {
        Some(n) => n,
        None => Seq::empty(),
    };
    if name == "Makefile"@ || name == "makefile"@ || name == "GNUmakefile"@ || name == "justfile"@ {
        FileBucket::Makefile
    } else {
        match path_extension(path) {
            Some(e) => if e == "rs"@ {
                FileBucket::Rust
            } else if e == "md"@ || e == "markdown"@ {
                FileBucket::Markdown
            } else if e == "yaml"@ || e == "yml"@ {
                FileBucket::Yaml
            } else if e == "mk"@ {
                FileBucket::Makefile
            } else {
                FileBucket::Ignored
            },
            None => FileBucket::Ignored,
        }
    }
}

pub fn bucket_of(path: &str) -> (b: FileBucket)
    ensures
        b == bucket_for(path@),
{
    let name = match file_name(path) {
        Some(n) => n,
        None => String::new(),
    };
    let n = name.as_str();
    if str_eq(n, "Makefile") || str_eq(n, "makefile") || str_eq(n, "GNUmakefile") || str_eq(n, "justfile") {
        return FileBucket::Makefile;
    }
    match extension(path) {
        Some(e) => {
            let e = e.as_str();
            if str_eq(e, "rs") {
                FileBucket::Rust
            } else if str_eq(e, "md") || str_eq(e, "markdown") {
                FileBucket::Markdown
            } else if str_eq(e, "yaml") || str_eq(e, "yml") {
                FileBucket::Yaml
            } else if str_eq(e, "mk") {
                FileBucket::Makefile
            } else {
                FileBucket::Ignored
            }
        },
        None => FileBucket::Ignored,
    }
}

/// The files of `paths` in `bucket`, in order.
pub open spec fn in_bucket(paths: Seq<String>, bucket: FileBucket) -> Seq<Seq<char>>
    decreases paths.len(),
{
    if paths.len() == 0 {
        Seq::empty()
    } else {
        in_bucket(paths.drop_last(), bucket) + if bucket_for(paths.last()@) == bucket {
            seq![paths.last()@]
        } else {
            Seq::empty()
        }
    }
}

impl DiscoveredFiles {
    pub fn empty() -> (d: DiscoveredFiles)
        ensures
            d.rust@.len() == 0,
            d.markdown@.len() == 0,
            d.yaml@.len() == 0,
            d.makefiles@.len() == 0,
    {
        DiscoveredFiles { rust: Vec::new(), markdown: Vec::new(), yaml: Vec::new(), makefiles: Vec::new() }
    }

    /// The walked files sorted into buckets, each bucket in `Path` order.
    pub fn from_paths(paths: &Vec<String>) -> (d: DiscoveredFiles)
        ensures
            sorted_as(texts(d.rust@), in_bucket(paths@, FileBucket::Rust)),
            sorted_as(texts(d.markdown@), in_bucket(paths@, FileBucket::Markdown)),
            sorted_as(texts(d.yaml@), in_bucket(paths@, FileBucket::Yaml)),
            sorted_as(texts(d.makefiles@), in_bucket(paths@, FileBucket::Makefile)),
    {
        let d = Self::bucketed(paths);
        DiscoveredFiles {
            rust: sort_paths(d.rust),
            markdown: sort_paths(d.markdown),
            yaml: sort_paths(d.yaml),
            makefiles: sort_paths(d.makefiles),
        }
    }

    /// The walked files sorted into buckets, each bucket in walk order.
    fn bucketed(paths: &Vec<String>) -> (d: DiscoveredFiles)
        ensures
            texts(d.rust@) == in_bucket(paths@, FileBucket::Rust),
            texts(d.markdown@) == in_bucket(paths@, FileBucket::Markdown),
            texts(d.yaml@) == in_bucket(paths@, FileBucket::Yaml),
            texts(d.makefiles@) == in_bucket(paths@, FileBucket::Makefile),
    {
        let mut d = DiscoveredFiles::empty();
        for i in 0..paths.len()
            invariant
                texts(d.rust@) == in_bucket(paths@.take(i as int), FileBucket::Rust),
                texts(d.markdown@) == in_bucket(paths@.take(i as int), FileBucket::Markdown),
                texts(d.yaml@) == in_bucket(paths@.take(i as int), FileBucket::Yaml),
                texts(d.makefiles@) == in_bucket(paths@.take(i as int), FileBucket::Makefile),
        {
            assert(paths@.take(i + 1).drop_last() =~= paths@.take(i as int));
            let p = paths[i].clone();
            let ghost pv = p@;
            let ghost r0 = texts(d.rust@);
            let ghost m0 = texts(d.markdown@);
            let ghost y0 = texts(d.yaml@);
            let ghost k0 = texts(d.makefiles@);
            match bucket_of(paths[i].as_str()) {
                FileBucket::Rust => d.rust.push(p),
                FileBucket::Markdown => d.markdown.push(p),
                FileBucket::Yaml => d.yaml.push(p),
                FileBucket::Makefile => d.makefiles.push(p),
                FileBucket::Ignored => {},
            }
            proof {
                let b = bucket_for(pv);
                assert(texts(d.rust@) =~= r0 + if b == FileBucket::Rust { seq![pv] } else { Seq::empty() });
                assert(texts(d.markdown@) =~= m0 + if b == FileBucket::Markdown { seq![pv] } else { Seq::empty() });
                assert(texts(d.yaml@) =~= y0 + if b == FileBucket::Yaml { seq![pv] } else { Seq::empty() });
                assert(texts(d.makefiles@) =~= k0 + if b == FileBucket::Makefile { seq![pv] } else { Seq::empty() });
            }
        }
        assert(paths@.take(paths.len() as int) =~= paths@);
        d
    }
}

/// Some changed path equals `p` (as paths).
pub open spec fn changed_contains(changed: Seq<String>, p: Seq<char>) -> bool {
    exists|k: int| 0 <= k < changed.len() && same_components(#[trigger] changed[k]@, p)
}

pub open spec fn keep_changed(v: Seq<String>, changed: Seq<String>) -> Seq<Seq<char>> {
    texts(v).filter(|p: Seq<char>| changed_contains(changed, p))
}

fn is_changed(changed: &Vec<String>, p: &str) -> (b: bool)
    ensures
        b == changed_contains(changed@, p@),
{
    for k in 0..changed.len()
        invariant
            forall|j: int| 0 <= j < k ==> !same_components(#[trigger] changed@[j]@, p@),
    {
        if same_path_components(changed[k].as_str(), p) {
            return true;
        }
    }
    false
}

fn keep(v: &Vec<String>, changed: &Vec<String>) -> (r: Vec<String>)
    ensures
        texts(r@) == keep_changed(v@, changed@),
{
    let ghost pred = |p: Seq<char>| changed_contains(changed@, p);
    let ghost ts = texts(v@);
    let mut r: Vec<String> = Vec::new();
    for i in 0..v.len()
        invariant
            pred == (|p: Seq<char>| changed_contains(changed@, p)),
            ts == texts(v@),
            texts(r@) == ts.take(i as int).filter(pred),
    {
        proof {
            assert(ts.take(i + 1).drop_last() =~= ts.take(i as int));
            reveal(Seq::filter);
        }
        if is_changed(changed, v[i].as_str()) {
            let ghost before = texts(r@);
            r.push(v[i].clone());
            assert(texts(r@) =~= before.push(ts[i as int]));
        }
    }
    assert(ts.take(v.len() as int) =~= ts);
    r
}

/// Ascending in `Path` order: no path comes before an earlier one.
pub open spec fn paths_sorted(s: Seq<Seq<char>>) -> bool {
    forall|i: int, j: int| 0 <= i < j < s.len() ==> !path_lt(#[trigger] s[j], #[trigger] s[i])
}

proof fn lemma_path_lt_transitive(a: Seq<char>, b: Seq<char>, c: Seq<char>)
    requires
        path_lt(a, b),
        path_lt(b, c),
    ensures
        path_lt(a, c),
{
    lemma_components_lt_transitive(
        crate::paths::path_components(a),
        crate::paths::path_components(b),
        crate::paths::path_components(c),
    );
}

/// Sorts paths in `Path` order (an insertion sort; equal paths keep their
/// order).
fn sort_paths(v: Vec<String>) -> (out: Vec<String>)
    ensures
        paths_sorted(texts(out@)),
        texts(out@).to_multiset() == texts(v@).to_multiset(),
{
    let mut out: Vec<String> = Vec::new();
    assert(texts(v@).take(0) =~= texts(out@));
    for i in 0..v.len()
        invariant
            paths_sorted(texts(out@)),
            texts(out@).to_multiset() == texts(v@).take(i as int).to_multiset(),
            i <= v.len(),
    {
        let x = v[i].clone();
        let mut p: usize = 0;
        while p < out.len() && !path_less(x.as_str(), out[p].as_str())
            invariant
                p <= out.len(),
                i < v.len(),
                x@ == texts(v@)[i as int],
                forall|k: int| 0 <= k < p ==> !path_lt(x@, #[trigger] texts(out@)[k]),
            decreases out.len() - p,
        {
            p = p + 1;
        }
        let ghost old_out = texts(out@);
        out.insert(p, x);
        proof {
            let xs = texts(v@)[i as int];
            assert(texts(out@) =~= old_out.insert(p as int, xs));
            assert(texts(v@).take(i + 1) =~= texts(v@).take(i as int).push(xs));
            vstd::seq_lib::to_multiset_insert(old_out, p as int, xs);
            vstd::seq_lib::to_multiset_build(texts(v@).take(i as int), xs);
            let no = texts(out@);
            assert forall|a: int, b: int| 0 <= a < b < no.len() implies !path_lt(
                #[trigger] no[b],
                #[trigger] no[a],
            ) by {
                if a < p && b == p {
                } else if a == p && b > p {
                    let y = old_out[b - 1];
                    if path_lt(y, xs) {
                        assert(path_lt(xs, old_out[p as int]));
                        if p < b - 1 {
                            lemma_path_lt_transitive(y, xs, old_out[p as int]);
                        } else {
                            lemma_path_lt_transitive(y, xs, y);
                            lemma_components_lt_irreflexive(crate::paths::path_components(y));
                        }
                    }
                } else if a < p && b > p {
                    assert(no[a] == old_out[a]);
                    assert(no[b] == old_out[b - 1]);
                } else if a > p {
                    assert(no[a] == old_out[a - 1]);
                    assert(no[b] == old_out[b - 1]);
                } else {
                    assert(no[a] == old_out[a]);
                    assert(no[b] == old_out[b]);
                }
            }
        }
    }
    assert(texts(v@).take(v.len() as int) =~= texts(v@));
    out
}

/// `bucket` holds the paths of `expected`, in `Path` order.
pub open spec fn sorted_as(bucket: Seq<Seq<char>>, expected: Seq<Seq<char>>) -> bool {
    paths_sorted(bucket) && bucket.to_multiset() == expected.to_multiset()
}

/// Narrows discovery to the files changed relative to a git ref.
pub struct GitHistory;

impl GitHistory {
    /// Keep, in every bucket, only the paths present in `changed`, each
    /// bucket sorted again afterwards.
    pub fn narrow(files: DiscoveredFiles, changed: &Vec<String>) -> (d: DiscoveredFiles)
        ensures
            sorted_as(texts(d.rust@), keep_changed(files.rust@, changed@)),
            sorted_as(texts(d.markdown@), keep_changed(files.markdown@, changed@)),
            sorted_as(texts(d.yaml@), keep_changed(files.yaml@, changed@)),
            sorted_as(texts(d.makefiles@), keep_changed(files.makefiles@, changed@)),
    {
        DiscoveredFiles {
            rust: sort_paths(keep(&files.rust, changed)),
            markdown: sort_paths(keep(&files.markdown, changed)),
            yaml: sort_paths(keep(&files.yaml, changed)),
            makefiles: sort_paths(keep(&files.makefiles, changed)),
        }
    }

    /// The paths `git diff --name-only` printed, trimmed, blank lines
    /// dropped, each joined to `root`.
    pub fn changed_paths(root: &str, git_output: &str) -> (r: Vec<String>)
        ensures
            texts(r@) == diff_paths(root@, lines_of(git_output@)),
    {
        let lines = split_lines(&chars_of(git_output));
        let ghost ls = views(lines@);
        let mut r: Vec<String> = Vec::new();
        for k in 0..lines.len()
            invariant
                ls == views(lines@),
                ls == lines_of(git_output@),
                texts(r@) == diff_paths(root@, ls.take(k as int)),
        {
            assert(ls.take(k + 1).drop_last() =~= ls.take(k as int));
            let t = trim(&lines[k]);
            if t.len() > 0 {
                let ghost before = texts(r@);
                let name = string_of(&t);
                r.push(join(root, name.as_str()));
                assert(texts(r@) =~= before.push(path_join(root@, trim_seq(ls[k as int]))));
            }
        }
        assert(ls.take(lines.len() as int) =~= ls);
        r
    }
}

/// The changed paths a `git diff --name-only` listing names.
pub open spec fn diff_paths(root: Seq<char>, lines: Seq<Seq<char>>) -> Seq<Seq<char>>
    decreases lines.len(),
{
    if lines.len() == 0 {
        Seq::empty()
    } else {
        diff_paths(root, lines.drop_last()) + if trim_seq(lines.last()).len() > 0 {
            seq![path_join(root, trim_seq(lines.last()))]
        } else {
            Seq::empty()
        }
    }
}

/// Narrowing keeps a subsequence: whatever stays was discovered and changed.
pub proof fn lemma_narrow_keeps_only_changed(v: Seq<String>, changed: Seq<String>)
    ensures
        keep_changed(v, changed).len() <= v.len(),
        forall|k: int| 0 <= k < keep_changed(v, changed).len() ==> changed_contains(changed, #[trigger] keep_changed(v, changed)[k]) && texts(v).contains(keep_changed(v, changed)[k]),
{
    broadcast use Seq::lemma_filter_len, Seq::lemma_filter_pred;

    lemma_filter_within(texts(v), |x: Seq<char>| changed_contains(changed, x));
}

proof fn lemma_filter_within(s: Seq<Seq<char>>, p: spec_fn(Seq<char>) -> bool)
    ensures
        forall|k: int| 0 <= k < s.filter(p).len() ==> s.contains(#[trigger] s.filter(p)[k]),
    decreases s.len(),
{
    reveal(Seq::filter);
    if s.len() > 0 {
        lemma_filter_within(s.drop_last(), p);
        let f = s.filter(p);
        assert forall|k: int| 0 <= k < f.len() implies s.contains(#[trigger] f[k]) by {
            let g = s.drop_last().filter(p);
            if k < g.len() {
                assert(f[k] == g[k]);
                let j = choose|j: int| 0 <= j < s.drop_last().len() && s.drop_last()[j] == g[k];
                assert(s[j] == f[k]);
            } else {
                assert(f[k] == s.last());
                assert(s[s.len() - 1] == f[k]);
            }
        }
    }
}

} // verus!
