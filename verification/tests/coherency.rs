use spec_drift::coherency::{corrected_content, correction_kind, splice, CorrectionKind};
use spec_drift::domain::RuleId;

#[test]
fn only_llm_rules_have_corrections() {
    assert_eq!(correction_kind(RuleId::OutdatedLogic), Some(CorrectionKind::Section));
    assert_eq!(correction_kind(RuleId::LogicGap), Some(CorrectionKind::Narrative));
    assert_eq!(correction_kind(RuleId::SymbolAbsence), None);
}

#[test]
fn splice_replaces_a_byte_range() {
    assert_eq!(splice("héllo world", 0, 6, "bye"), "bye world");
    assert_eq!(splice("abc", 1, 1, "X"), "aXbc");
    assert_eq!(splice("abc", 0, 3, ""), "");
}

#[test]
fn section_correction_uses_the_trimmed_reply() {
    let original = "# T\n## Old\ntext\n";
    let start = original.find("## Old").unwrap();
    let out = corrected_content(CorrectionKind::Section, original, start, original.len(), "  ## New\nbody \n");
    assert_eq!(out.as_deref(), Some("# T\n## New\nbody"));
    assert_eq!(corrected_content(CorrectionKind::Section, original, start, original.len(), " \n "), None);
}

#[test]
fn narrative_correction_keeps_the_comment_style() {
    let original = "//! old story\n//! more\n\nfn main() {}\n";
    let end = original.find("\nfn").unwrap();
    let out = corrected_content(CorrectionKind::Narrative, original, 0, end, "new story\n\nsecond");
    assert_eq!(out.as_deref(), Some("//! new story\n//!\n//! second\n\nfn main() {}\n"));
    let plain = "// old\nfn main() {}\n";
    let out2 = corrected_content(CorrectionKind::Narrative, plain, 0, 7, "fresh");
    assert_eq!(out2.as_deref(), Some("// fresh\nfn main() {}\n"));
}
