use spec_drift::auto_fix::{
    build_example_narrative_prompt, build_markdown_correction_prompt, comment_prefix_for,
    common_prefix_len, extract_stated_symbol, format_as_comments, is_ident, levenshtein,
    mentioned_identifiers, normalize_identifier, replace_in_line, resolve_fix_path,
    slice_example_narrative, sorted_unique, suggest_compile_fix, suggest_fix,
    suggest_ghost_command_fix, suggest_symbol_fix, tokenize_rust,
};
use spec_drift::domain::{Divergence, Location, RuleId, Severity};
use spec_drift::parsers::markdown::slice_markdown_section;

fn div(rule: RuleId, stated: &str, reality: &str) -> Divergence {
    Divergence {
        rule,
        severity: Severity::Warning,
        location: Location::new("README.md", 3),
        stated: stated.into(),
        reality: reality.into(),
        risk: "r".into(),
        attribution: None,
    }
}

#[test]
fn extracts_symbol_from_rendered_stated_text() {
    assert_eq!(
        extract_stated_symbol("`Client::new` exists in the codebase").as_deref(),
        Some("Client::new")
    );
    assert_eq!(
        extract_stated_symbol("`connect_to_db()` exists in the codebase").as_deref(),
        Some("connect_to_db")
    );
}

#[test]
fn extract_stated_symbol_falls_back_to_whole_text() {
    assert_eq!(extract_stated_symbol("  plain()  ").as_deref(), Some("plain"));
    assert_eq!(extract_stated_symbol("   "), None);
    assert_eq!(extract_stated_symbol("``"), None);
}

#[test]
fn apply_text_fix_resolves_relative_path_against_workspace_root() {
    let root = "/tmp/workspace";
    assert_eq!(resolve_fix_path(root, "README.md"), "/tmp/workspace/README.md");
    assert_eq!(resolve_fix_path(root, "/abs/README.md"), "/abs/README.md");
    let out = replace_in_line("Use `old_name()`.\n", 1, "old_name", "new_name");
    assert_eq!(out.as_deref(), Some("Use `new_name()`.\n"));
}

#[test]
fn replace_in_line_refuses_missing_line_or_text() {
    assert_eq!(replace_in_line("a\nb\n", 3, "a", "c"), None);
    assert_eq!(replace_in_line("a\nb\n", 0, "a", "c").as_deref(), Some("c\nb\n"));
    assert_eq!(replace_in_line("a\nb\n", 2, "x", "c"), None);
    assert_eq!(replace_in_line("a\nb", 2, "b", "bb").as_deref(), Some("a\nbb"));
}

#[test]
fn tokenize_rust_extracts_identifiers() {
    let tokens = tokenize_rust("pub fn connect_to_db() -> Result<()> { let x = 1; }");
    assert!(tokens.contains(&"connect_to_db".to_string()));
    assert!(tokens.contains(&"Result".to_string()));
}

#[test]
fn tokenize_rust_skips_numbers() {
    let tokens = tokenize_rust("let _a = 10 + b2;");
    assert_eq!(tokens, vec!["let", "_a", "b2"]);
}

#[test]
fn ghost_command_fix_extracts_package_name() {
    let d = Divergence {
        rule: RuleId::GhostCommand,
        severity: Severity::Warning,
        location: Location::new(".github/workflows/ci.yml", 10),
        stated: "cargo test --package old-crate --all-features".into(),
        reality: "package 'old-crate' not found in workspace".into(),
        risk: "CI jobs may silently skip or fail".into(),
        attribution: None,
    };
    let fix = suggest_ghost_command_fix(&d).unwrap();
    assert!(fix.description.contains("old-crate"));
}

#[test]
fn ghost_command_fix_names_bin_and_old_text() {
    let d = div(RuleId::GhostCommand, "cargo run --bin old-bin", "gone");
    let fix = suggest_ghost_command_fix(&d).unwrap();
    assert_eq!(fix.old_text.as_deref(), Some("--bin old-bin"));
    assert_eq!(
        fix.description,
        "Remove reference to --bin `old-bin` which no longer exists in the workspace"
    );
    assert!(!fix.auto_applicable);
    let none = div(RuleId::GhostCommand, "cargo run --bin", "gone");
    assert!(suggest_ghost_command_fix(&none).is_none());
}

#[test]
fn compile_fix_quotes_the_compiler_message() {
    let d = div(RuleId::CompileFailure, "example compiles", "E0425: cannot find x");
    let fix = suggest_compile_fix(&d).unwrap();
    assert_eq!(fix.description, "Fix compilation error: E0425: cannot find x");
    let empty = div(RuleId::CompileFailure, "example compiles", "");
    assert!(suggest_compile_fix(&empty).is_none());
}

#[test]
fn symbol_fix_is_auto_applicable_only_for_a_single_candidate() {
    let d = div(RuleId::SymbolAbsence, "`conect_db()` exists in the codebase", "missing");
    let one = vec!["connect_db".to_string()];
    let fix = suggest_symbol_fix(&d, &one).unwrap();
    assert!(fix.auto_applicable);
    assert_eq!(fix.old_text.as_deref(), Some("conect_db"));
    assert_eq!(fix.new_text.as_deref(), Some("connect_db"));
    assert_eq!(fix.description, "Replace `conect_db` with `connect_db` in documentation");
    let two = vec!["connect_db".to_string(), "connect_dbs".to_string()];
    assert!(!suggest_symbol_fix(&d, &two).unwrap().auto_applicable);
    assert!(suggest_symbol_fix(&d, &Vec::new()).is_none());
}

#[test]
fn suggest_fix_dispatches_on_rule() {
    let d = div(RuleId::LyingTest, "t", "r");
    assert!(suggest_fix(&d, &vec!["x".to_string()]).is_none());
    let c = div(RuleId::CompileFailure, "c", "boom");
    assert!(suggest_fix(&c, &Vec::new()).is_some());
}

#[test]
fn normalize_identifier_drops_separators_and_case() {
    assert_eq!(normalize_identifier("Log_In"), "login");
    assert_eq!(normalize_identifier("connect-to::DB"), "connecttodb");
}

#[test]
fn levenshtein_known_values() {
    assert_eq!(levenshtein("kitten", "sitting"), 3);
    assert_eq!(levenshtein("", "abc"), 3);
    assert_eq!(levenshtein("same", "same"), 0);
    assert_eq!(levenshtein("ab", "ba"), 2);
}

#[test]
fn common_prefix_len_counts_characters() {
    assert_eq!(common_prefix_len("login", "log_in"), 3);
    assert_eq!(common_prefix_len("", "x"), 0);
    assert_eq!(common_prefix_len("abc", "abc"), 3);
}

#[test]
fn format_as_comments_prefixes_every_line() {
    assert_eq!(format_as_comments("a\n\nb", "//!"), "//! a\n//!\n//! b\n");
    assert_eq!(format_as_comments("", "//"), "");
}

#[test]
fn comment_prefix_follows_the_first_line() {
    assert_eq!(comment_prefix_for("//! doc"), "//!");
    assert_eq!(comment_prefix_for("  //! indented"), "//!");
    assert_eq!(comment_prefix_for("// plain"), "//");
}

#[test]
fn correction_prompts_embed_their_inputs() {
    let (system, user) = build_markdown_correction_prompt("## Old", "fn x()", "x moved");
    assert!(!system.is_empty());
    assert!(user.contains("## Old"));
    assert!(user.contains("fn x()"));
    assert!(user.contains("x moved"));
    let (_, user2) = build_example_narrative_prompt("old story", "fn y", "y moved");
    assert!(user2.contains("old story"));
    assert!(user2.contains("y moved"));
}

#[test]
fn mentioned_identifiers_takes_names_and_leaves() {
    let out = mentioned_identifiers("Call `Client::new()` then `connect()` and `not an ident`.");
    assert_eq!(out, vec!["connect", "new"]);
    assert!(is_ident("_x1"));
    assert!(!is_ident("1x"));
    assert!(!is_ident(""));
}

#[test]
fn mentioned_identifiers_ignores_prose_words() {
    let out = mentioned_identifiers("Call `Client::new()` and `go()` now");
    assert_eq!(out, vec!["go", "new"]);
    assert!(mentioned_identifiers("no spans at all").is_empty());
}

#[test]
fn sorted_unique_sorts_and_dedups() {
    let v = vec!["b".to_string(), "a".to_string(), "b".to_string()];
    assert_eq!(sorted_unique(&v), vec!["a", "b"]);
}

#[test]
fn test_slice_markdown_section() {
    let content = "\
# Title
Intro text is here.

## Section 1
This is the text for section 1.

### Sub Section 2
And text for section 2.
";
    // Slice Section 1 (starts on line 4, line counting of ## Section 1)
    let slice1 = slice_markdown_section(content, 4).unwrap();
    assert!(slice1.0.contains("## Section 1"));
    assert!(slice1.0.contains("This is the text for section 1."));
    assert_eq!(
        &content[slice1.1],
        "## Section 1\nThis is the text for section 1.\n\n"
    );

    // Slice Sub Section 2 (starts on line 7)
    let slice2 = slice_markdown_section(content, 7).unwrap();
    assert!(slice2.0.contains("### Sub Section 2"));
    assert!(slice2.0.contains("And text for section 2."));
    assert_eq!(
        &content[slice2.1],
        "### Sub Section 2\nAnd text for section 2.\n"
    );
}

#[test]
fn slice_markdown_section_needs_a_heading_on_the_line() {
    let content = "# Title\ntext\n";
    assert!(slice_markdown_section(content, 2).is_none());
    assert!(slice_markdown_section(content, 9).is_none());
}

#[test]
fn test_slice_example_narrative() {
    let content = "\
//! This example demonstrates a legacy connection.
//! And this is the second line of the narrative.

fn main() {}
";
    let slice = slice_example_narrative(content).unwrap();
    assert_eq!(
        slice.0,
        "This example demonstrates a legacy connection.\nAnd this is the second line of the narrative."
    );
    assert_eq!(
        &content[slice.1],
        "//! This example demonstrates a legacy connection.\n//! And this is the second line of the narrative.\n"
    );
}

#[test]
fn slice_example_narrative_is_none_without_comments() {
    assert!(slice_example_narrative("fn main() {}\n").is_none());
}
