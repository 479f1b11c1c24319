//! `ghost_command`: CI invoking cargo targets that do not exist.
use vstd::prelude::*;
use crate::analyzers::analyzer::DriftAnalyzer;
use crate::analyzers::constraint::{append_findings, opt_seq, push_finding};
use crate::context::{source_for, ProjectContext};
use crate::domain::{are_findings, finding, is_finding, Divergence, Finding, RuleId, Severity};
use crate::paths::{components, path_components};
use crate::patterns::{capture, is_match, regex_group, regex_matches};
use crate::text::{chars_of, lines_of, push_str, split_lines, str_eq, string_of, texts, views, without_prefix, strip_prefix_or_keep};

verus! {

/// Workspace packages and bin targets, as `cargo metadata` reports them.
#[derive(Debug, Clone)]
pub struct CargoMetadata {
    pub packages: Vec<String>,
    pub bins: Vec<String>,
}

fn knows(names: &Vec<String>, name: &str) -> (b: bool)
    ensures
        b == texts(names@).contains(name@),
{
    let ghost ts = texts(names@);
    for k in 0..names.len()
        invariant
            ts == texts(names@),
            forall|j: int| 0 <= j < k ==> ts[j] != name@,
    {
        if str_eq(names[k].as_str(), name) {
            assert(ts[k as int] == name@);
            return true;
        }
    }
    false
}

impl CargoMetadata {
    pub fn knows_package(&self, name: &str) -> (b: bool)
        ensures
            b == texts(self.packages@).contains(name@),
    {
        knows(&self.packages, name)
    }

    pub fn knows_bin(&self, name: &str) -> (b: bool)
        ensures
            b == texts(self.bins@).contains(name@),
    {
        knows(&self.bins, name)
    }
}

/// CiAnalyzer — enforces the `ghost_command` rule (deterministic).
///
/// Scans Makefiles / justfiles and GitHub workflow YAMLs for `cargo`
/// invocations. Each `--package <name>` / `-p <name>` / `--bin <name>`
/// argument must name a package or bin the workspace metadata knows.
pub struct CiAnalyzer {
    metadata_override: Option<CargoMetadata>,
}

impl CiAnalyzer {
    /// The analyzer that uses the context's cargo metadata.
    pub fn new() -> (a: CiAnalyzer)
        ensures
            a.metadata() is None,
    {
        CiAnalyzer { metadata_override: None }
    }

    /// Construct with pre-loaded metadata.
    pub fn with_metadata(md: CargoMetadata) -> (a: CiAnalyzer)
        ensures
            a.metadata() == Some(md),
    {
        CiAnalyzer { metadata_override: Some(md) }
    }

    pub closed spec fn metadata(&self) -> Option<CargoMetadata> {
        self.metadata_override
    }
}

pub open spec fn cargo_command_pattern() -> Seq<char> {
    "(?:^|\\s)cargo\\s+([a-zA-Z][a-zA-Z0-9\\-]*)\\b"@
}

pub open spec fn package_arg_pattern() -> Seq<char> {
    "(?:--package|-p)[ =]([A-Za-z_][A-Za-z0-9_\\-]*)"@
}

pub open spec fn bin_arg_pattern() -> Seq<char> {
    "--bin[ =]([A-Za-z_][A-Za-z0-9_\\-]*)"@
}

fn cargo_command_text() -> (p: &'static str)
    ensures
        p@ == cargo_command_pattern(),
{
    "(?:^|\\s)cargo\\s+([a-zA-Z][a-zA-Z0-9\\-]*)\\b"
}

fn package_arg_text() -> (p: &'static str)
    ensures
        p@ == package_arg_pattern(),
{
    "(?:--package|-p)[ =]([A-Za-z_][A-Za-z0-9_\\-]*)"
}

fn bin_arg_text() -> (p: &'static str)
    ensures
        p@ == bin_arg_pattern(),
{
    "--bin[ =]([A-Za-z_][A-Za-z0-9_\\-]*)"
}

/// The divergences of one line of CI script: a cargo invocation naming a
/// package or bin the metadata does not know (only when the metadata knows
/// something at all).
pub open spec fn ci_line_findings(line: Seq<char>, path: Seq<char>, line_no: u32, md: CargoMetadata) -> Seq<Finding> {
    if !regex_matches(cargo_command_pattern(), line) || (md.packages@.len() == 0 && md.bins@.len() == 0) {
        Seq::empty()
    } else {
        (match regex_group(package_arg_pattern(), line, 1) {
            Some(name) => if texts(md.packages@).contains(name) {
                Seq::empty()
            } else {
                seq![
                    Finding {
                        rule: RuleId::GhostCommand,
                        severity: Severity::Warning,
                        file: path,
                        line: line_no,
                        stated: "CI runs `cargo` against package `"@ + name + "`"@,
                        reality: "`"@ + name + "` is not a member of the workspace"@,
                        risk: "CI exercises a target that no longer exists; the step is a no-op at best."@,
                    },
                ]
            },
            None => Seq::empty(),
        }) + (match regex_group(bin_arg_pattern(), line, 1) {
            Some(name) => if texts(md.bins@).contains(name) {
                Seq::empty()
            } else {
                seq![
                    Finding {
                        rule: RuleId::GhostCommand,
                        severity: Severity::Warning,
                        file: path,
                        line: line_no,
                        stated: "CI builds/runs bin `"@ + name + "`"@,
                        reality: "no bin target named `"@ + name + "` in the workspace"@,
                        risk: "CI step refers to a bin that doesn't exist."@,
                    },
                ]
            },
            None => Seq::empty(),
        })
    }
}

pub fn inspect_cargo_line(line: &str, path: &str, line_no: u32, md: &CargoMetadata) -> (r: Vec<Divergence>)
    ensures
        are_findings(r@, ci_line_findings(line@, path@, line_no, *md)),
{
    let mut out: Vec<Divergence> = Vec::new();
    if !is_match(cargo_command_text(), line) {
        return out;
    }
    if md.packages.len() == 0 && md.bins.len() == 0 {
        return out;
    }
    let ghost first: Seq<Finding> = match regex_group(package_arg_pattern(), line@, 1) {
        Some(name) => if texts(md.packages@).contains(name) {
            Seq::empty()
        } else {
            seq![
                Finding {
                    rule: RuleId::GhostCommand,
                    severity: Severity::Warning,
                    file: path@,
                    line: line_no,
                    stated: "CI runs `cargo` against package `"@ + name + "`"@,
                    reality: "`"@ + name + "` is not a member of the workspace"@,
                    risk: "CI exercises a target that no longer exists; the step is a no-op at best."@,
                },
            ]
        },
        None => Seq::empty(),
    };
    match capture(package_arg_text(), line, 1) {
        Some(name) => {
            if !md.knows_package(name.as_str()) {
                let mut stated = String::new();
                push_str(&mut stated, "CI runs `cargo` against package `");
                push_str(&mut stated, name.as_str());
                push_str(&mut stated, "`");
                let mut reality = String::new();
                push_str(&mut reality, "`");
                push_str(&mut reality, name.as_str());
                push_str(&mut reality, "` is not a member of the workspace");
                let d = finding(RuleId::GhostCommand, Severity::Warning, path, line_no, stated, reality, "CI exercises a target that no longer exists; the step is a no-op at best.");
                out.push(d);
            }
        },
        None => {},
    }
    assert(are_findings(out@, first));
    match capture(bin_arg_text(), line, 1) {
        Some(name) => {
            if !md.knows_bin(name.as_str()) {
                let mut stated = String::new();
                push_str(&mut stated, "CI builds/runs bin `");
                push_str(&mut stated, name.as_str());
                push_str(&mut stated, "`");
                let mut reality = String::new();
                push_str(&mut reality, "no bin target named `");
                push_str(&mut reality, name.as_str());
                push_str(&mut reality, "` in the workspace");
                let d = finding(RuleId::GhostCommand, Severity::Warning, path, line_no, stated, reality, "CI step refers to a bin that doesn't exist.");
                let ghost before = out@;
                out.push(d);
                proof {
                    crate::domain::lemma_are_findings_append(before, first, seq![d], seq![
                        Finding {
                            rule: RuleId::GhostCommand,
                            severity: Severity::Warning,
                            file: path@,
                            line: line_no,
                            stated: "CI builds/runs bin `"@ + name@ + "`"@,
                            reality: "no bin target named `"@ + name@ + "` in the workspace"@,
                            risk: "CI step refers to a bin that doesn't exist."@,
                        },
                    ]);
                    assert(out@ =~= before + seq![d]);
                }
            } else {
                assert(first + Seq::<Finding>::empty() =~= first);
            }
        },
        None => {
            assert(first + Seq::<Finding>::empty() =~= first);
        },
    }
    out
}

/// A path inside a `.github/workflows/` directory.
pub open spec fn workflow_path(path: Seq<char>) -> bool {
    path_components(path).contains(".github"@) && path_components(path).contains("workflows"@)
}

pub fn is_workflow_path(path: &str) -> (b: bool)
    ensures
        b == workflow_path(path@),
{
    let comps = components(path);
    let mut github = false;
    let mut workflows = false;
    for k in 0..comps.len()
        invariant
            texts(comps@) == path_components(path@),
            github == (exists|j: int| 0 <= j < k && texts(comps@)[j] == ".github"@),
            workflows == (exists|j: int| 0 <= j < k && texts(comps@)[j] == "workflows"@),
    {
        if str_eq(comps[k].as_str(), ".github") {
            github = true;
            assert(texts(comps@)[k as int] == ".github"@);
        }
        if str_eq(comps[k].as_str(), "workflows") {
            workflows = true;
            assert(texts(comps@)[k as int] == "workflows"@);
        }
    }
    github && workflows
}

/// A make recipe line without its leading tabs and spaces and one `@`.
pub open spec fn recipe_text(line: Seq<char>) -> Seq<char> {
    without_prefix(line.skip(crate::text::skip_from(line, 0, |c: char| c == '\t' || c == ' ')), "@"@)
}

fn recipe_line(line: &Vec<char>) -> (r: String)
    ensures
        r@ == recipe_text(line@),
{
    let mut i: usize = 0;
    while i < line.len() && (line[i] == '\t' || line[i] == ' ')
        invariant
            i <= line.len(),
            crate::text::skip_from(line@, i as int, |c: char| c == '\t' || c == ' ') == crate::text::skip_from(line@, 0, |c: char| c == '\t' || c == ' '),
        decreases line.len() - i,
    {
        i = i + 1;
    }
    let rest = crate::text::slice_chars(line, i, line.len());
    assert(rest@ =~= line@.skip(i as int));
    string_of(&strip_prefix_or_keep(&rest, &chars_of("@")))
}

/// The divergences of a Makefile or justfile, line by line.
pub open spec fn make_lines(path: Seq<char>, lines: Seq<Seq<char>>, md: CargoMetadata) -> Seq<Finding>
    decreases lines.len(),
{
    if lines.len() == 0 {
        Seq::empty()
    } else {
        make_lines(path, lines.drop_last(), md) + ci_line_findings(recipe_text(lines.last()), path, lines.len() as u32, md)
    }
}

/// The divergences of a workflow file, line by line.
pub open spec fn yaml_lines(path: Seq<char>, lines: Seq<Seq<char>>, md: CargoMetadata) -> Seq<Finding>
    decreases lines.len(),
{
    if lines.len() == 0 {
        Seq::empty()
    } else {
        yaml_lines(path, lines.drop_last(), md) + ci_line_findings(lines.last(), path, lines.len() as u32, md)
    }
}

pub open spec fn make_files(files: Seq<String>, ctx: ProjectContext, md: CargoMetadata) -> Seq<Finding>
    decreases files.len(),
{
    if files.len() == 0 {
        Seq::empty()
    } else {
        make_files(files.drop_last(), ctx, md) + match source_for(ctx.sources@, files.last()@) {
            Some(t) => make_lines(files.last()@, lines_of(t), md),
            None => Seq::empty(),
        }
    }
}

pub open spec fn yaml_files(files: Seq<String>, ctx: ProjectContext, md: CargoMetadata) -> Seq<Finding>
    decreases files.len(),
{
    if files.len() == 0 {
        Seq::empty()
    } else {
        yaml_files(files.drop_last(), ctx, md) + match source_for(ctx.sources@, files.last()@) {
            Some(t) => if workflow_path(files.last()@) {
                yaml_lines(files.last()@, lines_of(t), md)
            } else {
                Seq::empty()
            },
            None => Seq::empty(),
        }
    }
}

fn scan_lines(path: &str, text: &str, md: &CargoMetadata, make: bool) -> (r: Vec<Divergence>)
    ensures
        are_findings(r@, if make {
            make_lines(path@, lines_of(text@), *md)
        } else {
            yaml_lines(path@, lines_of(text@), *md)
        }),
{
    let lines = split_lines(&chars_of(text));
    let ghost ls = views(lines@);
    let mut out: Vec<Divergence> = Vec::new();
    for k in 0..lines.len()
        invariant
            ls == views(lines@),
            ls == lines_of(text@),
            are_findings(out@, if make {
                make_lines(path@, ls.take(k as int), *md)
            } else {
                yaml_lines(path@, ls.take(k as int), *md)
            }),
    {
        assert(ls.take(k + 1).drop_last() =~= ls.take(k as int));
        let line_no = (k + 1) as u32;
        let ghost before_spec = if make {
            make_lines(path@, ls.take(k as int), *md)
        } else {
            yaml_lines(path@, ls.take(k as int), *md)
        };
        let more = if make {
            let t = recipe_line(&lines[k]);
            inspect_cargo_line(t.as_str(), path, line_no, md)
        } else {
            let t = string_of(&lines[k]);
            inspect_cargo_line(t.as_str(), path, line_no, md)
        };
        append_findings(&mut out, more, Ghost(before_spec), Ghost(if make {
            ci_line_findings(recipe_text(ls[k as int]), path@, line_no, *md)
        } else {
            ci_line_findings(ls[k as int], path@, line_no, *md)
        }));
    }
    assert(ls.take(lines.len() as int) =~= ls);
    out
}

/// The divergences of the Makefiles, then of the workflow files.
pub open spec fn ci_findings(ctx: ProjectContext, md: CargoMetadata) -> Seq<Finding> {
    make_files(ctx.makefile_files@, ctx, md) + yaml_files(ctx.yaml_files@, ctx, md)
}

proof fn lemma_make_lines_empty(path: Seq<char>, lines: Seq<Seq<char>>, md: CargoMetadata)
    requires
        md.packages@.len() == 0,
        md.bins@.len() == 0,
    ensures
        make_lines(path, lines, md) == Seq::<Finding>::empty(),
    decreases lines.len(),
{
    if lines.len() > 0 {
        lemma_make_lines_empty(path, lines.drop_last(), md);
    }
}

proof fn lemma_yaml_lines_empty(path: Seq<char>, lines: Seq<Seq<char>>, md: CargoMetadata)
    requires
        md.packages@.len() == 0,
        md.bins@.len() == 0,
    ensures
        yaml_lines(path, lines, md) == Seq::<Finding>::empty(),
    decreases lines.len(),
{
    if lines.len() > 0 {
        lemma_yaml_lines_empty(path, lines.drop_last(), md);
    }
}

proof fn lemma_make_files_empty(files: Seq<String>, ctx: ProjectContext, md: CargoMetadata)
    requires
        md.packages@.len() == 0,
        md.bins@.len() == 0,
    ensures
        make_files(files, ctx, md) == Seq::<Finding>::empty(),
    decreases files.len(),
{
    if files.len() > 0 {
        lemma_make_files_empty(files.drop_last(), ctx, md);
        match source_for(ctx.sources@, files.last()@) {
            Some(t) => lemma_make_lines_empty(files.last()@, lines_of(t), md),
            None => {},
        }
    }
}

proof fn lemma_yaml_files_empty(files: Seq<String>, ctx: ProjectContext, md: CargoMetadata)
    requires
        md.packages@.len() == 0,
        md.bins@.len() == 0,
    ensures
        yaml_files(files, ctx, md) == Seq::<Finding>::empty(),
    decreases files.len(),
{
    if files.len() > 0 {
        lemma_yaml_files_empty(files.drop_last(), ctx, md);
        match source_for(ctx.sources@, files.last()@) {
            Some(t) => lemma_yaml_lines_empty(files.last()@, lines_of(t), md),
            None => {},
        }
    }
}

/// The CI analyzer fails open: when the workspace metadata names no package
/// and no bin, it reports nothing, whatever the CI files say.
pub proof fn lemma_ci_fails_open(ctx: ProjectContext, md: CargoMetadata)
    requires
        md.packages@.len() == 0,
        md.bins@.len() == 0,
    ensures
        ci_findings(ctx, md) == Seq::<Finding>::empty(),
{
    lemma_make_files_empty(ctx.makefile_files@, ctx, md);
    lemma_yaml_files_empty(ctx.yaml_files@, ctx, md);
    assert(Seq::<Finding>::empty() + Seq::<Finding>::empty() =~= Seq::<Finding>::empty());
}

impl DriftAnalyzer for CiAnalyzer {
    fn id(&self) -> (s: &'static str)
        ensures
            s@ == "ci"@,
    {
        "ci"
    }

    fn analyze(&self, ctx: &ProjectContext) -> (out: Vec<Divergence>)
        ensures
            are_findings(out@, ci_findings(*ctx, match self.metadata() {
                Some(md) => md,
                None => ctx.cargo_metadata,
            })),
    {
        let md = match &self.metadata_override {
            Some(m) => m,
            None => &ctx.cargo_metadata,
        };
        let mut out: Vec<Divergence> = Vec::new();
        for i in 0..ctx.makefile_files.len()
            invariant
                are_findings(out@, make_files(ctx.makefile_files@.take(i as int), *ctx, *md)),
        {
            assert(ctx.makefile_files@.take(i + 1).drop_last() =~= ctx.makefile_files@.take(i as int));
            let path = ctx.makefile_files[i].as_str();
            match ctx.source(path) {
                Some(text) => {
                    let more = scan_lines(path, text.as_str(), md, true);
                    append_findings(&mut out, more, Ghost(make_files(ctx.makefile_files@.take(i as int), *ctx, *md)), Ghost(make_lines(path@, lines_of(text@), *md)));
                },
                None => {
                    assert(make_files(ctx.makefile_files@.take(i as int), *ctx, *md) =~= make_files(ctx.makefile_files@.take(i + 1), *ctx, *md));
                },
            }
        }
        assert(ctx.makefile_files@.take(ctx.makefile_files.len() as int) =~= ctx.makefile_files@);
        let ghost made = make_files(ctx.makefile_files@, *ctx, *md);
        for i in 0..ctx.yaml_files.len()
            invariant
                are_findings(out@, made + yaml_files(ctx.yaml_files@.take(i as int), *ctx, *md)),
        {
            assert(ctx.yaml_files@.take(i + 1).drop_last() =~= ctx.yaml_files@.take(i as int));
            let path = ctx.yaml_files[i].as_str();
            let ghost prior = made + yaml_files(ctx.yaml_files@.take(i as int), *ctx, *md);
            match ctx.source(path) {
                Some(text) => {
                    if is_workflow_path(path) {
                        let more = scan_lines(path, text.as_str(), md, false);
                        append_findings(&mut out, more, Ghost(prior), Ghost(yaml_lines(path@, lines_of(text@), *md)));
                        assert(prior + yaml_lines(path@, lines_of(text@), *md) =~= made + yaml_files(ctx.yaml_files@.take(i + 1), *ctx, *md));
                    } else {
                        assert(prior =~= made + yaml_files(ctx.yaml_files@.take(i + 1), *ctx, *md));
                    }
                },
                None => {
                    assert(prior =~= made + yaml_files(ctx.yaml_files@.take(i + 1), *ctx, *md));
                },
            }
        }
        assert(ctx.yaml_files@.take(ctx.yaml_files.len() as int) =~= ctx.yaml_files@);
        out
    }
}

proof fn lemma_skip_indent(s: Seq<char>, i: int, n: int)
    requires
        0 <= i <= n <= s.len(),
        forall|j: int| i <= j < n ==> s[j] == '\t' || s[j] == ' ',
        n == s.len() || (s[n] != '\t' && s[n] != ' '),
    ensures
        crate::text::skip_from(s, i, |c: char| c == '\t' || c == ' ') == n,
    decreases n - i,
{
    if i < n {
        lemma_skip_indent(s, i + 1, n);
    }
}

/// Make's `@` only silences the echo of a recipe line: a line indented by
/// tabs and spaces and then `@` is checked exactly as the same line without
/// the `@`, as its command text. Only one `@` goes.
pub proof fn lemma_recipe_at_sign_ignored(path: Seq<char>, before: Seq<Seq<char>>, indent: Seq<char>, command: Seq<char>, md: CargoMetadata)
    requires
        forall|j: int| 0 <= j < indent.len() ==> indent[j] == '\t' || indent[j] == ' ',
        command.len() > 0 ==> command[0] != '\t' && command[0] != ' ' && command[0] != '@',
    ensures
        recipe_text(indent + seq!['@'] + command) == command,
        recipe_text(indent + command) == command,
        recipe_text(indent + seq!['@', '@'] + command) == seq!['@'] + command,
        make_lines(path, before.push(indent + seq!['@'] + command), md) == make_lines(path, before.push(indent + command), md),
{
    reveal_strlit("@");
    let with_at = indent + seq!['@'] + command;
    let without = indent + command;
    lemma_skip_indent(with_at, 0, indent.len() as int);
    lemma_skip_indent(without, 0, indent.len() as int);
    assert(with_at.skip(indent.len() as int) =~= seq!['@'] + command);
    assert((seq!['@'] + command).take(1) =~= "@"@);
    assert((seq!['@'] + command).skip(1) =~= command);
    assert(without.skip(indent.len() as int) =~= command);
    let twice = indent + seq!['@', '@'] + command;
    lemma_skip_indent(twice, 0, indent.len() as int);
    assert(twice.skip(indent.len() as int) =~= seq!['@', '@'] + command);
    assert((seq!['@', '@'] + command).take(1) =~= "@"@);
    assert((seq!['@', '@'] + command).skip(1) =~= seq!['@'] + command);
    if command.len() > 0 {
        assert(command.take(1) != "@"@) by {
            assert(command.take(1)[0] == command[0]);
        }
    }
    assert(before.push(with_at).drop_last() =~= before);
    assert(before.push(without).drop_last() =~= before);
}

} // verus!
