//! Rust sources: the item tree the analyzers read, and the code facts it
//! yields.
//!
//! The tree is the part of a `syn` parse the analyzers look at: items with
//! their names and lines, function return types and bodies (statements and
//! the expressions that can hold assertions), and macro calls.
use vstd::prelude::*;
use crate::domain::{CodeFact, FactKind, Location};
use crate::error::SpecDriftError;

verus! {

/// A macro invocation: the last segment of its path and its tokens as text.
#[derive(Debug, Clone, PartialEq, Eq)]
pub struct MacroCall {
    pub name: Option<String>,
    pub tokens: String,
}

/// The statements the assertion scan looks into.
#[derive(Debug)]
pub enum RustStmt {
    Expr(RustExpr),
    /// A `let`, with its initializer.
    Local(Option<RustExpr>),
    Macro(MacroCall),
    Other,
}

/// The expressions the assertion scan looks into.
#[derive(Debug)]
pub enum RustExpr {
    Macro(MacroCall),
    Block(Vec<RustStmt>),
    If { then_branch: Vec<RustStmt>, else_branch: Option<Box<RustExpr>> },
    /// A `match`, with the body of each arm.
    Match(Vec<RustExpr>),
    Other,
}

/// A function, free or in an `impl`.
#[derive(Debug)]
pub struct RustFn {
    pub name: String,
    /// The line the item starts on.
    pub line: u32,
    /// The line of the function's name.
    pub ident_line: u32,
    /// The return type as token text; `()` when none is written.
    pub return_type: String,
    /// The last path segment of each attribute.
    pub attributes: Vec<String>,
    pub body: Vec<RustStmt>,
}

/// An item of a Rust file.
#[derive(Debug)]
pub enum RustItem {
    Fn(RustFn),
    Struct { name: String, line: u32 },
    Enum { name: String, line: u32 },
    Trait { name: String, line: u32 },
    TypeAlias { name: String, line: u32 },
    Const { name: String, line: u32 },
    Static { name: String, line: u32 },
    Macro { name: Option<String>, line: u32 },
    /// A module; `items` is `None` for `mod name;`.
    Mod { name: String, line: u32, items: Option<Vec<RustItem>> },
    /// An `impl` block with its functions.
    Impl { fns: Vec<RustFn> },
    Other,
}

/// A fact about `name` of kind `kind` at `line` of `path`.
pub open spec fn fact_at(path: Seq<char>, kind: FactKind, name: Seq<char>, line: u32) -> (Seq<char>, u32, FactKind, Seq<char>) {
    (path, line, kind, name)
}

/// The facts of a list of impl functions.
pub open spec fn impl_facts(path: Seq<char>, fns: Seq<RustFn>) -> Seq<(Seq<char>, u32, FactKind, Seq<char>)>
    decreases fns.len(),
{
    if fns.len() == 0 {
        Seq::empty()
    } else {
        impl_facts(path, fns.drop_last()).push(
            fact_at(path, FactKind::Function, fns.last().name@, fns.last().line),
        )
    }
}

/// The facts an item yields, nested modules included, in source order.
pub open spec fn item_facts(path: Seq<char>, item: RustItem) -> Seq<(Seq<char>, u32, FactKind, Seq<char>)>
    decreases item, 1nat,
{
    match item {
        RustItem::Fn(f) => seq![fact_at(path, FactKind::Function, f.name@, f.line)],
        RustItem::Struct { name, line } => seq![fact_at(path, FactKind::Struct, name@, line)],
        RustItem::Enum { name, line } => seq![fact_at(path, FactKind::Enum, name@, line)],
        RustItem::Trait { name, line } => seq![fact_at(path, FactKind::Trait, name@, line)],
        RustItem::TypeAlias { name, line } => seq![fact_at(path, FactKind::TypeAlias, name@, line)],
        RustItem::Const { name, line } => seq![fact_at(path, FactKind::Constant, name@, line)],
        RustItem::Static { name, line } => seq![fact_at(path, FactKind::Constant, name@, line)],
        RustItem::Macro { name, line } => match name {
            Some(n) => seq![fact_at(path, FactKind::Macro, n@, line)],
            None => Seq::empty(),
        },
        RustItem::Mod { name, line, items } => seq![fact_at(path, FactKind::Module, name@, line)]
            + match items {
            Some(v) => items_facts(path, v@),
            None => Seq::empty(),
        },
        RustItem::Impl { fns } => impl_facts(path, fns@),
        RustItem::Other => Seq::empty(),
    }
}

pub open spec fn items_facts(path: Seq<char>, items: Seq<RustItem>) -> Seq<(Seq<char>, u32, FactKind, Seq<char>)>
    decreases items, 0nat,
{
    if items.len() == 0 {
        Seq::empty()
    } else {
        items_facts(path, items.drop_last()) + item_facts(path, items.last())
    }
}

/// The view of a fact: file, line, kind, name.
pub open spec fn fact_view(f: CodeFact) -> (Seq<char>, u32, FactKind, Seq<char>) {
    (f.location.file@, f.location.line, f.kind, f.name@)
}

pub open spec fn facts_view(fs: Seq<CodeFact>) -> Seq<(Seq<char>, u32, FactKind, Seq<char>)> {
    fs.map_values(|f: CodeFact| fact_view(f))
}

fn push_fact(facts: &mut Vec<CodeFact>, path: &str, kind: FactKind, name: &String, line: u32)
    ensures
        facts_view(final(facts)@) == facts_view(old(facts)@).push(fact_at(path@, kind, name@, line)),
{
    let ghost before = facts@;
    facts.push(CodeFact { location: Location::new(path, line), kind, name: name.clone() });
    assert(facts_view(facts@) =~= facts_view(before).push(fact_at(path@, kind, name@, line)));
}

fn collect_impl(fns: &Vec<RustFn>, path: &str, facts: &mut Vec<CodeFact>)
    ensures
        facts_view(final(facts)@) == facts_view(old(facts)@) + impl_facts(path@, fns@),
{
    let ghost start = facts_view(facts@);
    for i in 0..fns.len()
        invariant
            facts_view(facts@) == start + impl_facts(path@, fns@.take(i as int)),
    {
        assert(fns@.take(i + 1).drop_last() =~= fns@.take(i as int));
        push_fact(facts, path, FactKind::Function, &fns[i].name, fns[i].line);
    }
    assert(fns@.take(fns.len() as int) =~= fns@);
}

fn collect_item(item: &RustItem, path: &str, facts: &mut Vec<CodeFact>)
    ensures
        facts_view(final(facts)@) == facts_view(old(facts)@) + item_facts(path@, *item),
    decreases item, 1nat,
{
    let ghost start = facts_view(facts@);
    match item {
        RustItem::Fn(f) => push_fact(facts, path, FactKind::Function, &f.name, f.line),
        RustItem::Struct { name, line } => push_fact(facts, path, FactKind::Struct, name, *line),
        RustItem::Enum { name, line } => push_fact(facts, path, FactKind::Enum, name, *line),
        RustItem::Trait { name, line } => push_fact(facts, path, FactKind::Trait, name, *line),
        RustItem::TypeAlias { name, line } => push_fact(facts, path, FactKind::TypeAlias, name, *line),
        RustItem::Const { name, line } => push_fact(facts, path, FactKind::Constant, name, *line),
        RustItem::Static { name, line } => push_fact(facts, path, FactKind::Constant, name, *line),
        RustItem::Macro { name, line } => match name {
            Some(n) => push_fact(facts, path, FactKind::Macro, n, *line),
            None => {
                assert(facts_view(facts@) =~= start + item_facts(path@, *item));
            },
        },
        RustItem::Mod { name, line, items } => {
            push_fact(facts, path, FactKind::Module, name, *line);
            match items {
                Some(v) => {
                    collect_items(v, path, facts);
                },
                None => {},
            }
            assert(facts_view(facts@) =~= start + item_facts(path@, *item));
        },
        RustItem::Impl { fns } => collect_impl(fns, path, facts),
        RustItem::Other => {
            assert(facts_view(facts@) =~= start + item_facts(path@, *item));
        },
    }
}

/// Push a fact for every item of `items` (nested modules and `impl`
/// functions included), in source order.
pub fn collect_items(items: &Vec<RustItem>, path: &str, facts: &mut Vec<CodeFact>)
    ensures
        facts_view(final(facts)@) == facts_view(old(facts)@) + items_facts(path@, items@),
    decreases items, 0nat,
{
    let ghost start = facts_view(facts@);
    for i in 0..items.len()
        invariant
            facts_view(facts@) == start + items_facts(path@, items@.take(i as int)),
    {
        assert(items@.take(i + 1).drop_last() =~= items@.take(i as int));
        collect_item(&items[i], path, facts);
    }
    assert(items@.take(items.len() as int) =~= items@);
}

/// What `syn::parse_file` makes of `source`: nothing when it parses,
/// otherwise the rendered error.
pub uninterp spec fn rust_parse_error(source: Seq<char>) -> Option<Seq<char>>;

/// Parses `source` with `syn::parse_file`; the error's text when it fails.
#[verifier::external_body]
fn syn_parse_error(source: &str) -> (r: Option<String>)
    ensures
        match r {
            Some(e) => rust_parse_error(source@) == Some(e@),
            None => rust_parse_error(source@) is None,
        },
{
    match syn::parse_file(source) {
        Ok(_) => None,
        Err(e) => Some(e.to_string()),
    }
}

/// The code facts of the Rust file `path` given what parsing it gave: the
/// parse error, or every item of `items` (nested modules and `impl`
/// functions included).
pub fn facts_of_parse(path: &str, error: Option<String>, items: &Vec<RustItem>) -> (r: Result<Vec<CodeFact>, SpecDriftError>)
    ensures
        match error {
            Some(e) => r matches Err(SpecDriftError::RustParse { path: p, message: m }) && p@ == path@ && m@ == e@,
            None => r matches Ok(facts) && facts_view(facts@) == items_facts(path@, items@),
        },
{
    match error {
        Some(e) => Err(SpecDriftError::RustParse { path: path.to_owned(), message: e }),
        None => {
            let mut facts: Vec<CodeFact> = Vec::new();
            collect_items(items, path, &mut facts);
            assert(facts_view(Seq::<CodeFact>::empty()) =~= Seq::empty());
            Ok(facts)
        },
    }
}

pub struct RustParser;

impl RustParser {
    /// The code facts of the Rust file `path` with text `source`, whose
    /// items are `items`: the parse error when `syn` refuses the text,
    /// otherwise a fact for every item (nested modules and `impl` functions
    /// included), in source order.
    pub fn parse(path: &str, source: &str, items: &Vec<RustItem>) -> (r: Result<Vec<CodeFact>, SpecDriftError>)
        ensures
            match rust_parse_error(source@) {
                Some(e) => r matches Err(SpecDriftError::RustParse { path: p, message: m }) && p@ == path@ && m@ == e,
                None => r matches Ok(facts) && facts_view(facts@) == items_facts(path@, items@),
            },
    {
        let error = syn_parse_error(source);
        facts_of_parse(path, error, items)
    }
}

} // verus!
