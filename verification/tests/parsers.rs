use spec_drift::domain::{ClaimKind, FactKind};
use spec_drift::error::SpecDriftError;
use spec_drift::parsers::markdown::{
    claims_from_events, code_blocks_from_events, is_blank, line_of_offset, sections_from_events, split_sections,
    MarkdownBlocks, MarkdownParser, MdEvent,
};
use spec_drift::parsers::rust::{facts_of_parse, RustFn, RustItem, RustParser};

#[test]
fn extracts_inline_code_spans_with_line_numbers() {
    let claims = MarkdownParser::parse("README.md", "# Title\n\nUse `Client::new()` to connect.\n");
    assert_eq!(claims.len(), 1);
    assert_eq!(claims[0].text, "Client::new()");
    assert_eq!(claims[0].location.line, 3);
    assert_eq!(claims[0].kind, ClaimKind::Symbol);
    assert_eq!(claims[0].location.file, "README.md");
}

#[test]
fn extracts_fenced_code_block_tags() {
    let claims = MarkdownParser::parse("README.md", "# API\n\n```rust\nfn main() {}\n```\n");
    let has_fenced = claims.iter().any(|c| c.text.contains("fenced code block: rust"));
    assert!(has_fenced, "should extract fenced code block tag, got {:?}", claims);
}

#[test]
fn extracts_full_code_block_content() {
    let blocks = MarkdownBlocks::extract_code_blocks(
        "# Example\n\n```rust\nfn main() {\n    println!(\"hello\");\n}\n```\n",
    );
    assert_eq!(blocks.len(), 1);
    assert_eq!(blocks[0].0, "rust");
    assert!(blocks[0].1.contains("println!"));
}

#[test]
fn multiple_fenced_blocks_extracted() {
    let blocks =
        MarkdownBlocks::extract_code_blocks("```sh\ncargo build\n```\n\n```rust\nlet x = 1;\n```\n");
    assert_eq!(blocks.len(), 2);
    assert_eq!(blocks[0].0, "sh");
    assert_eq!(blocks[1].0, "rust");
}

#[test]
fn indented_and_untagged_blocks_have_empty_tags() {
    let blocks = MarkdownBlocks::extract_code_blocks("```\nplain\n```\n");
    assert_eq!(blocks, vec![(String::new(), "plain\n".to_string())]);
}

#[test]
fn claims_keep_document_order_and_lines() {
    let claims = MarkdownParser::parse("a.md", "`one`\n\ntext `two` and `three`\n");
    let texts: Vec<&str> = claims.iter().map(|c| c.text.as_str()).collect();
    assert_eq!(texts, vec!["one", "two", "three"]);
    assert_eq!(claims[1].location.line, 3);
    assert_eq!(claims[2].location.line, 3);
}

#[test]
fn line_of_offset_counts_newlines_before() {
    let s = "ab\ncd\nef";
    assert_eq!(line_of_offset(s, 0), 1);
    assert_eq!(line_of_offset(s, 3), 2);
    assert_eq!(line_of_offset(s, 100), 3);
}

#[test]
fn sections_split_at_second_and_third_level_headings() {
    let sections = split_sections("# Top\nintro\n## A\nalpha\n### B\nbeta\n");
    let lines: Vec<u32> = sections.iter().map(|s| s.line).collect();
    assert_eq!(lines, vec![1, 3, 5]);
}

fn item_fn(name: &str, line: u32) -> RustFn {
    RustFn {
        name: name.to_string(),
        line,
        ident_line: line,
        return_type: "()".to_string(),
        attributes: vec![],
        body: vec![],
    }
}

#[test]
fn extracts_fn_struct_enum_trait_impl_methods() {
    // pub fn hello() {} / pub struct Widget; / pub enum Color { Red, Blue }
    // pub trait Sing { fn sing(&self); } / impl Widget { pub fn make() {} }
    let items = vec![
        RustItem::Fn(item_fn("hello", 2)),
        RustItem::Struct { name: "Widget".to_string(), line: 3 },
        RustItem::Enum { name: "Color".to_string(), line: 4 },
        RustItem::Trait { name: "Sing".to_string(), line: 5 },
        RustItem::Impl { fns: vec![item_fn("make", 6)] },
    ];
    let source = "
        pub fn hello() {}
        pub struct Widget;
        pub enum Color { Red, Blue }
        pub trait Sing { fn sing(&self); }
        impl Widget { pub fn make() {} }
    ";
    let facts = RustParser::parse("lib.rs", source, &items).unwrap();
    let names: Vec<_> = facts.iter().map(|f| f.name.as_str()).collect();
    assert!(names.contains(&"hello"));
    assert!(names.contains(&"Widget"));
    assert!(names.contains(&"Color"));
    assert!(names.contains(&"Sing"));
    assert!(names.contains(&"make"));
}

#[test]
fn nested_modules_yield_facts_in_source_order() {
    let items = vec![
        RustItem::Mod {
            name: "inner".to_string(),
            line: 1,
            items: Some(vec![RustItem::Const { name: "MAX".to_string(), line: 2 }]),
        },
        RustItem::Macro { name: None, line: 3 },
        RustItem::Static { name: "S".to_string(), line: 4 },
        RustItem::Other,
    ];
    let source = "mod inner {\n const MAX: u8 = 1; }\nmacro_rules! m { () => {} }\nstatic S: u8 = 0;\nuse std::fmt;\n";
    let facts = RustParser::parse("m.rs", source, &items).unwrap();
    let got: Vec<(&str, FactKind, u32)> =
        facts.iter().map(|f| (f.name.as_str(), f.kind, f.location.line)).collect();
    assert_eq!(
        got,
        vec![("inner", FactKind::Module, 1), ("MAX", FactKind::Constant, 2), ("S", FactKind::Constant, 4)]
    );
}

#[test]
fn parse_error_becomes_rust_parse_error() {
    match RustParser::parse("bad.rs", "fn (", &Vec::new()) {
        Err(SpecDriftError::RustParse { path, message }) => {
            assert_eq!(path, "bad.rs");
            assert!(!message.is_empty());
        }
        other => panic!("unexpected {:?}", other),
    }
    match facts_of_parse("bad.rs", Some("expected item".to_string()), &Vec::new()) {
        Err(SpecDriftError::RustParse { path, message }) => {
            assert_eq!(path, "bad.rs");
            assert_eq!(message, "expected item");
        }
        other => panic!("unexpected {:?}", other),
    }
}

#[test]
fn sections_follow_the_events_given() {
    let source = "intro\n## A\nalpha\n";
    let events = vec![
        MdEvent::Text("intro".to_string()),
        MdEvent::HeadingStart { level: 2, start: 6 },
        MdEvent::Text("A".to_string()),
        MdEvent::HeadingEnd,
        MdEvent::Text("alpha".to_string()),
    ];
    let sections = sections_from_events(source, &events);
    let got: Vec<(&str, u32)> = sections.iter().map(|s| (s.text.as_str(), s.line)).collect();
    assert_eq!(got, vec![("intro ", 1), ("A\nalpha ", 2)]);
}

#[test]
fn claims_follow_the_events_given() {
    let source = "`foo`\n```rust\nx\n```\n";
    let events = vec![
        MdEvent::Code { text: "foo".to_string(), start: 0 },
        MdEvent::CodeBlockStart { lang: "rust".to_string(), start: 6 },
        MdEvent::Text("x\n".to_string()),
        MdEvent::CodeBlockEnd,
    ];
    let claims = claims_from_events("README.md", source, &events);
    let got: Vec<(&str, u32)> = claims.iter().map(|c| (c.text.as_str(), c.location.line)).collect();
    assert_eq!(got, vec![("foo", 1), ("[fenced code block: rust]", 2)]);
    assert!(claims.iter().all(|c| c.location.file == "README.md" && c.kind == ClaimKind::Symbol));
}

#[test]
fn code_blocks_follow_the_events_given() {
    let events = vec![
        MdEvent::Text("before".to_string()),
        MdEvent::CodeBlockStart { lang: "sh".to_string(), start: 0 },
        MdEvent::Text("ls\n".to_string()),
        MdEvent::CodeBlockEnd,
        MdEvent::Text("after".to_string()),
    ];
    assert_eq!(code_blocks_from_events(&events), vec![("sh".to_string(), "ls\n".to_string())]);
}

#[test]
fn blank_means_unicode_white_space_only() {
    assert!(is_blank(" \t\n\u{85}\u{a0}\u{3000}\u{2028}"));
    assert!(!is_blank("\u{200b}"));
    assert!(!is_blank(" x "));
}
