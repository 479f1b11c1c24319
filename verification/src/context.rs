//! What the analyzers know about a project: its files, their texts as read
//! by the caller, and the facts parsed from its Rust sources.
use vstd::prelude::*;
use crate::domain::CodeFact;
use crate::analyzers::ci::CargoMetadata;
use crate::parsers::rust::RustItem;
use crate::paths::{path_strip_prefix, strip_prefix};
use crate::text::str_eq;

verus! {

/// The text of one source file, as read by the caller.
pub struct SourceText {
    pub path: String,
    pub text: String,
}

/// The text of the first source whose path is `file`, if any.
pub open spec fn source_for(sources: Seq<SourceText>, file: Seq<char>) -> Option<Seq<char>>
    decreases sources.len(),
{
    if sources.len() == 0 {
        None
    } else if sources[0].path@ == file {
        Some(sources[0].text@)
    } else {
        source_for(sources.drop_first(), file)
    }
}

/// The text of `file` among `sources`.
pub fn text_of<'a>(sources: &'a Vec<SourceText>, file: &str) -> (r: Option<&'a String>)
    ensures
        match r {
            Some(t) => source_for(sources@, file@) == Some(t@),
            None => source_for(sources@, file@) is None,
        },
{
    let mut k: usize = 0;
    assert(sources@.skip(0) =~= sources@);
    while k < sources.len()
        invariant
            k <= sources.len(),
            source_for(sources@, file@) == source_for(sources@.skip(k as int), file@),
        decreases sources.len() - k,
    {
        assert(sources@.skip(k as int).drop_first() =~= sources@.skip(k + 1));
        if str_eq(sources[k].path.as_str(), file) {
            return Some(&sources[k].text);
        }
        k = k + 1;
    }
    None
}

/// The parse of one Rust file: its items, or the parser's error text.
pub struct RustSource {
    pub path: String,
    pub parsed: Result<Vec<RustItem>, String>,
}

/// Everything an analyzer needs to answer questions about the project.
pub struct ProjectContext {
    /// Workspace/root directory used for config, suppression, blame, and
    /// workspace-relative reporting.
    pub root: String,
    /// Directory used for package-local cargo operations. Usually the same as
    /// `root`, but set to a workspace member root when `--package` is used.
    pub analysis_root: String,
    pub rust_files: Vec<String>,
    pub markdown_files: Vec<String>,
    pub yaml_files: Vec<String>,
    pub makefile_files: Vec<String>,
    pub code_facts: Vec<CodeFact>,
    /// The texts of the project's files that could be read.
    pub sources: Vec<SourceText>,
    /// The parses of the Rust files that could be read.
    pub rust_syntax: Vec<RustSource>,
    /// Workspace packages and bin targets, as `cargo metadata` reports them.
    pub cargo_metadata: CargoMetadata,
    /// The directories among those the analyzers ask about that exist.
    pub existing_dirs: Vec<String>,
}

impl ProjectContext {
    /// An empty context for `root`; the analysis root is the root itself.
    pub fn new(root: &str) -> (c: ProjectContext)
        ensures
            c.root@ == root@,
            c.analysis_root@ == root@,
            c.rust_files@.len() == 0,
            c.markdown_files@.len() == 0,
            c.yaml_files@.len() == 0,
            c.makefile_files@.len() == 0,
            c.code_facts@.len() == 0,
            c.sources@.len() == 0,
            c.rust_syntax@.len() == 0,
            c.cargo_metadata.packages@.len() == 0,
            c.cargo_metadata.bins@.len() == 0,
            c.existing_dirs@.len() == 0,
    {
        ProjectContext {
            root: root.to_owned(),
            analysis_root: root.to_owned(),
            rust_files: Vec::new(),
            markdown_files: Vec::new(),
            yaml_files: Vec::new(),
            makefile_files: Vec::new(),
            code_facts: Vec::new(),
            sources: Vec::new(),
            rust_syntax: Vec::new(),
            cargo_metadata: CargoMetadata { packages: Vec::new(), bins: Vec::new() },
            existing_dirs: Vec::new(),
        }
    }

    /// Every text fits the 32-bit line and offset arithmetic, and every
    /// function fact lies within its file.
    pub open spec fn wf(&self) -> bool {
        &&& forall|k: int| 0 <= k < self.sources@.len() ==> vstd::utf8::encode_utf8((#[trigger] self.sources@[k]).text@).len() < 0xffff_ffff
        &&& crate::auto_fix::windows_fit(self.code_facts@, self.sources@)
    }

    /// The facts whose name is `name`, in order.
    pub fn facts_named(&self, name: &str) -> (r: Vec<CodeFact>)
        ensures
            r@ == self.code_facts@.filter(|f: CodeFact| f.name@ == name@),
    {
        let ghost pred = |f: CodeFact| f.name@ == name@;
        let mut r: Vec<CodeFact> = Vec::new();
        for i in 0..self.code_facts.len()
            invariant
                pred == (|f: CodeFact| f.name@ == name@),
                r@ == self.code_facts@.take(i as int).filter(pred),
        {
            proof {
                assert(self.code_facts@.take(i + 1).drop_last() =~= self.code_facts@.take(i as int));
                reveal(Seq::filter);
            }
            if str_eq(self.code_facts[i].name.as_str(), name) {
                r.push(self.code_facts[i].duplicate());
            }
        }
        assert(self.code_facts@.take(self.code_facts.len() as int) =~= self.code_facts@);
        r
    }

    /// Whether some fact is named `name`.
    pub fn has_fact_named(&self, name: &str) -> (b: bool)
        ensures
            b == exists|k: int| 0 <= k < self.code_facts@.len() && (#[trigger] self.code_facts@[k]).name@ == name@,
    {
        for i in 0..self.code_facts.len()
            invariant
                forall|k: int| 0 <= k < i ==> (#[trigger] self.code_facts@[k]).name@ != name@,
        {
            if str_eq(self.code_facts[i].name.as_str(), name) {
                return true;
            }
        }
        false
    }

    /// `path` relative to the analysis root, else to the root, else as is.
    pub fn rel(&self, path: &str) -> (r: String)
        ensures
            r@ == match path_strip_prefix(path@, self.analysis_root@) {
                Some(p) => p,
                None => match path_strip_prefix(path@, self.root@) {
                    Some(p) => p,
                    None => path@,
                },
            },
    {
        match strip_prefix(path, self.analysis_root.as_str()) {
            Some(p) => p,
            None => match strip_prefix(path, self.root.as_str()) {
                Some(p) => p,
                None => path.to_owned(),
            },
        }
    }

    /// The text of `file`, when the caller could read it.
    pub fn source(&self, file: &str) -> (r: Option<&String>)
        ensures
            match r {
                Some(t) => source_for(self.sources@, file@) == Some(t@),
                None => source_for(self.sources@, file@) is None,
            },
    {
        text_of(&self.sources, file)
    }
}

impl ProjectContext {
    /// Whether `dir` is among the directories known to exist.
    pub fn dir_exists(&self, dir: &str) -> (b: bool)
        ensures
            b == crate::text::texts(self.existing_dirs@).contains(dir@),
    {
        let ghost ts = crate::text::texts(self.existing_dirs@);
        for k in 0..self.existing_dirs.len()
            invariant
                ts == crate::text::texts(self.existing_dirs@),
                forall|j: int| 0 <= j < k ==> ts[j] != dir@,
        {
            if str_eq(self.existing_dirs[k].as_str(), dir) {
                assert(ts[k as int] == dir@);
                return true;
            }
        }
        false
    }
}

/// A source text of a well-formed context fits the offset arithmetic.
pub proof fn lemma_source_fits(sources: Seq<SourceText>, file: Seq<char>)
    requires
        forall|k: int| 0 <= k < sources.len() ==> vstd::utf8::encode_utf8((#[trigger] sources[k]).text@).len() < 0xffff_ffff,
    ensures
        source_for(sources, file) matches Some(t) ==> vstd::utf8::encode_utf8(t).len() < 0xffff_ffff,
    decreases sources.len(),
{
    if sources.len() > 0 && sources[0].path@ != file {
        assert forall|k: int| 0 <= k < sources.drop_first().len() implies vstd::utf8::encode_utf8((#[trigger] sources.drop_first()[k]).text@).len() < 0xffff_ffff by {
            assert(sources.drop_first()[k] == sources[k + 1]);
        }
        lemma_source_fits(sources.drop_first(), file);
    }
}

} // verus!
