//! Auto-fix suggestions for deterministic drift rules, and the text work of
//! the LLM-backed coherency corrections.
//!
//! Some rules are mechanically fixable:
//! - `symbol_absence`: doc references a renamed/missing symbol → suggest the new name
//! - `ghost_command`: CI references a deleted crate/binary → suggest removal
//! - `compile_failure`: example doesn't compile → surface the rustc diagnostic
//!
//! Reading and writing files is the caller's business; this module decides
//! what to change and computes the changed text.
use vstd::prelude::*;
pub use crate::parsers::markdown::slice_markdown_section;
use crate::domain::{Divergence, RuleId};
use crate::paths::{is_absolute, join, path_is_absolute, path_join};
use crate::text::{
    chars_of, contains, contains_seq, first_index_of, first_occurrence, find_seq, has_prefix,
    index_of_char, joined, lemma_first_index_of, lines_of, push_chars, push_str, slice_chars,
    split_lines, split_words, starts_with, string_of, trim, trim_seq, trim_start, trim_start_seq,
    views, without_suffix, words_of, strip_suffix_or_keep, push_char, is_alphanumeric,
    is_alphabetic, unicode_alphanumeric, unicode_alphabetic, unicode_lowercase,
    to_lowercase_chars, join_chars,
};
use crate::parsers::markdown::{blank, is_blank};
use crate::pipeline::{lemma_text_lt_irreflexive, lemma_text_lt_total, lemma_text_lt_transitive, text_less, text_lt};
use crate::context::{source_for, text_of, SourceText};
use crate::domain::{CodeFact, FactKind};
use crate::paths::{components, path_components};
use crate::text::{byte_offset, lemma_byte_offset_split, inclusive_lines, inclusive_lines_from, find_from, is_char, lemma_find_from, lemma_views_push, ascii_alnum, ascii_alpha, is_ascii_alnum, is_ascii_alpha, occurs_at, split_on, split_seq, matches_at, has_suffix, ends_with, texts, str_eq};

verus! {

/// A suggested fix for a divergence.
#[derive(Debug, Clone)]
pub struct AutoFix {
    /// File to modify
    pub file: String,
    /// Line number where the fix applies
    pub line: u32,
    /// Description of what to change
    pub description: String,
    /// The old text to replace (if a simple substitution)
    pub old_text: Option<String>,
    /// The replacement text
    pub new_text: Option<String>,
    /// Whether this fix can be auto-applied safely
    pub auto_applicable: bool,
}

/// An [`AutoFix`] with its texts as character sequences.
pub struct AutoFixView {
    pub file: Seq<char>,
    pub line: u32,
    pub description: Seq<char>,
    pub old_text: Option<Seq<char>>,
    pub new_text: Option<Seq<char>>,
    pub auto_applicable: bool,
}

pub open spec fn opt_text(o: Option<String>) -> Option<Seq<char>> {
    match o {
        Some(s) => Some(s@),
        None => None,
    }
}

impl AutoFix {
    pub open spec fn view(self) -> AutoFixView {
        AutoFixView {
            file: self.file@,
            line: self.line,
            description: self.description@,
            old_text: opt_text(self.old_text),
            new_text: opt_text(self.new_text),
            auto_applicable: self.auto_applicable,
        }
    }
}

pub open spec fn fix_view(o: Option<AutoFix>) -> Option<AutoFixView> {
    match o {
        Some(f) => Some(f.view()),
        None => None,
    }
}

// ---------------------------------------------------------------------------
// Symbol fixes
// ---------------------------------------------------------------------------

/// The symbol a rendered `stated` text names: the first backticked token (the
/// whole text when there is no closed pair of backticks), trimmed and without
/// a trailing `()`. Nothing when that leaves no text.
pub open spec fn stated_symbol(stated: Seq<char>) -> Option<Seq<char>> {
    let a = first_index_of(stated, '`');
    let raw = if a < stated.len() {
        let rest = stated.skip(a + 1);
        let b = first_index_of(rest, '`');
        if b < rest.len() {
            rest.take(b)
        } else {
            stated
        }
    } else {
        stated
    };
    let sym = trim_seq(without_suffix(trim_seq(raw), "()"@));
    if sym.len() == 0 {
        None
    } else {
        Some(sym)
    }
}

pub fn extract_stated_symbol(stated: &str) -> (r: Option<String>)
    ensures
        opt_text(r) == stated_symbol(stated@),
{
    let t = chars_of(stated);
    let a = index_of_char(&t, '`');
    proof {
        lemma_first_index_of(t@, '`');
    }
    let mut raw = slice_chars(&t, 0, t.len());
    if a < t.len() {
        let rest = slice_chars(&t, a + 1, t.len());
        assert(rest@ =~= t@.skip(a + 1));
        let b = index_of_char(&rest, '`');
        proof {
            lemma_first_index_of(rest@, '`');
        }
        if b < rest.len() {
            raw = slice_chars(&rest, 0, b);
            assert(raw@ =~= rest@.take(b as int));
        }
    }
    assert(t@.subrange(0, t@.len() as int) =~= t@);
    let trimmed = trim(&raw);
    let stripped = strip_suffix_or_keep(&trimmed, &chars_of("()"));
    let sym = trim(&stripped);
    if sym.len() == 0 {
        None
    } else {
        Some(string_of(&sym))
    }
}

/// The fix for a missing symbol, given the similar names the workspace has
/// for it (`candidates`, best first): replace it by the first candidate;
/// applicable automatically only when that candidate is the only one.
pub open spec fn symbol_fix(d: Divergence, candidates: Seq<Seq<char>>) -> Option<AutoFixView> {
    match stated_symbol(d.stated@) {
        None => None,
        Some(old) => if candidates.len() == 0 {
            None
        } else {
            Some(
                AutoFixView {
                    file: d.location.file@,
                    line: d.location.line,
                    description: "Replace `"@ + old + "` with `"@ + candidates[0]
                        + "` in documentation"@,
                    old_text: Some(old),
                    new_text: Some(candidates[0]),
                    auto_applicable: candidates.len() == 1,
                },
            )
        },
    }
}

pub fn suggest_symbol_fix(d: &Divergence, candidates: &Vec<String>) -> (r: Option<AutoFix>)
    ensures
        fix_view(r) == symbol_fix(*d, candidates@.map_values(|s: String| s@)),
{
    let old = match extract_stated_symbol(d.stated.as_str()) {
        Some(o) => o,
        None => {
            return None;
        },
    };
    if candidates.len() == 0 {
        return None;
    }
    let replacement = candidates[0].clone();
    let mut description = String::new();
    push_str(&mut description, "Replace `");
    push_str(&mut description, old.as_str());
    push_str(&mut description, "` with `");
    push_str(&mut description, replacement.as_str());
    push_str(&mut description, "` in documentation");
    Some(
        AutoFix {
            file: d.location.file.clone(),
            line: d.location.line,
            description,
            old_text: Some(old),
            new_text: Some(replacement),
            auto_applicable: candidates.len() == 1,
        },
    )
}

// ---------------------------------------------------------------------------
// Ghost command fixes
// ---------------------------------------------------------------------------

/// `--package` when the command names a package, else `--bin`.
pub open spec fn ghost_flag(stated: Seq<char>) -> Seq<char> {
    if contains_seq(stated, "--package"@) {
        "--package"@
    } else {
        "--bin"@
    }
}

/// The index of the first word equal to `w`, or the length when none is.
pub open spec fn first_word(ws: Seq<Seq<char>>, w: Seq<char>) -> int
    decreases ws.len(),
{
    if ws.len() == 0 {
        0
    } else if ws[0] == w {
        0
    } else {
        1 + first_word(ws.drop_first(), w)
    }
}

proof fn lemma_first_word(ws: Seq<Seq<char>>, w: Seq<char>, i: int)
    requires
        0 <= i <= ws.len(),
        forall|k: int| 0 <= k < i ==> (#[trigger] ws[k]) != w,
        i == ws.len() || ws[i] == w,
    ensures
        first_word(ws, w) == i,
    decreases ws.len(),
{
    if ws.len() > 0 && i > 0 {
        assert forall|k: int| 0 <= k < i - 1 implies (#[trigger] ws.drop_first()[k]) != w by {
            assert(ws[k + 1] != w);
        }
        lemma_first_word(ws.drop_first(), w, i - 1);
    }
}

/// The word after the first occurrence of the flag in the command.
pub open spec fn ghost_target(stated: Seq<char>) -> Option<Seq<char>> {
    let ws = words_of(stated);
    let k = first_word(ws, ghost_flag(stated));
    if k + 1 < ws.len() {
        Some(ws[k + 1])
    } else {
        None
    }
}

pub open spec fn ghost_command_fix(d: Divergence) -> Option<AutoFixView> {
    let flag = ghost_flag(d.stated@);
    match ghost_target(d.stated@) {
        None => None,
        Some(cmd) => Some(
            AutoFixView {
                file: d.location.file@,
                line: d.location.line,
                description: "Remove reference to "@ + flag + " `"@ + cmd
                    + "` which no longer exists in the workspace"@,
                old_text: Some(flag + " "@ + cmd),
                new_text: None,
                auto_applicable: false,
            },
        ),
    }
}

pub fn suggest_ghost_command_fix(d: &Divergence) -> (r: Option<AutoFix>)
    ensures
        fix_view(r) == ghost_command_fix(*d),
{
    let stated = chars_of(d.stated.as_str());
    let is_package = contains(&stated, &chars_of("--package"));
    let flag: &str = if is_package {
        "--package"
    } else {
        "--bin"
    };
    let flag_chars = chars_of(flag);
    let words = split_words(&stated);
    let ghost ws = views(words@);
    let mut k: usize = 0;
    while k < words.len() && !(words[k].len() == flag_chars.len() && starts_with(
        &words[k],
        &flag_chars,
    ))
        invariant
            ws == views(words@),
            k <= words.len(),
            forall|j: int| 0 <= j < k ==> (#[trigger] ws[j]) != flag_chars@,
        decreases words.len() - k,
    {
        proof {
            if words@[k as int]@ == flag_chars@ {
                assert(words@[k as int]@.take(flag_chars@.len() as int) =~= flag_chars@);
            }
        }
        k = k + 1;
    }
    proof {
        if k < words.len() {
            assert(ws[k as int] =~= flag_chars@);
        }
        lemma_first_word(ws, flag_chars@, k as int);
    }
    if k >= words.len() || k + 1 >= words.len() {
        return None;
    }
    let cmd = string_of(&words[k + 1]);
    let mut description = String::new();
    push_str(&mut description, "Remove reference to ");
    push_str(&mut description, flag);
    push_str(&mut description, " `");
    push_str(&mut description, cmd.as_str());
    push_str(&mut description, "` which no longer exists in the workspace");
    let mut old = String::new();
    push_str(&mut old, flag);
    push_str(&mut old, " ");
    push_str(&mut old, cmd.as_str());
    Some(
        AutoFix {
            file: d.location.file.clone(),
            line: d.location.line,
            description,
            old_text: Some(old),
            new_text: None,
            auto_applicable: false,
        },
    )
}

// ---------------------------------------------------------------------------
// Compile fixes and dispatch
// ---------------------------------------------------------------------------

pub open spec fn compile_fix(d: Divergence) -> Option<AutoFixView> {
    if d.reality@.len() == 0 {
        None
    } else {
        Some(
            AutoFixView {
                file: d.location.file@,
                line: d.location.line,
                description: "Fix compilation error: "@ + d.reality@,
                old_text: None,
                new_text: None,
                auto_applicable: false,
            },
        )
    }
}

pub fn suggest_compile_fix(d: &Divergence) -> (r: Option<AutoFix>)
    ensures
        fix_view(r) == compile_fix(*d),
{
    if d.reality.as_str().is_empty() {
        return None;
    }
    let mut description = String::new();
    push_str(&mut description, "Fix compilation error: ");
    push_str(&mut description, d.reality.as_str());
    Some(
        AutoFix {
            file: d.location.file.clone(),
            line: d.location.line,
            description,
            old_text: None,
            new_text: None,
            auto_applicable: false,
        },
    )
}

/// The fix a divergence admits: only deterministic rules with mechanical
/// fixes have one.
pub open spec fn fix_for(d: Divergence, candidates: Seq<Seq<char>>) -> Option<AutoFixView> {
    match d.rule {
        RuleId::SymbolAbsence => symbol_fix(d, candidates),
        RuleId::GhostCommand => ghost_command_fix(d),
        RuleId::CompileFailure => compile_fix(d),
        _ => None,
    }
}

/// Try to generate an auto-fix for a divergence. `candidates` are the
/// workspace names similar to the symbol a `symbol_absence` divergence
/// names, best first.
pub fn suggest_fix(d: &Divergence, candidates: &Vec<String>) -> (r: Option<AutoFix>)
    ensures
        fix_view(r) == fix_for(*d, candidates@.map_values(|s: String| s@)),
{
    match d.rule {
        RuleId::SymbolAbsence => suggest_symbol_fix(d, candidates),
        RuleId::GhostCommand => suggest_ghost_command_fix(d),
        RuleId::CompileFailure => suggest_compile_fix(d),
        _ => None,
    }
}

/// Absolute locations are used as they are; relative ones are resolved
/// against the workspace root.
pub fn resolve_fix_path(workspace_root: &str, file: &str) -> (p: String)
    ensures
        p@ == if path_is_absolute(file@) {
            file@
        } else {
            path_join(workspace_root@, file@)
        },
{
    if is_absolute(file) {
        file.to_owned()
    } else {
        join(workspace_root, file)
    }
}

// ---------------------------------------------------------------------------
// Identifier tokens and similarity ingredients
// ---------------------------------------------------------------------------

pub open spec fn ident_char(c: char) -> bool {
    unicode_alphanumeric(c) || c == '_'
}

pub open spec fn ident_start(c: char) -> bool {
    unicode_alphabetic(c) || c == '_'
}

/// Keep the pending run when it starts like an identifier.
pub open spec fn flush_token(toks: Seq<Seq<char>>, cur: Seq<char>) -> Seq<Seq<char>> {
    if cur.len() > 0 && ident_start(cur[0]) {
        toks.push(cur)
    } else {
        toks
    }
}

/// The finished tokens and the pending run after reading `s`: identifier
/// characters extend the run, any other character ends it.
pub open spec fn token_scan(s: Seq<char>) -> (Seq<Seq<char>>, Seq<char>)
    decreases s.len(),
{
    if s.len() == 0 {
        (Seq::empty(), Seq::empty())
    } else {
        let (toks, cur) = token_scan(s.drop_last());
        if ident_char(s.last()) {
            (toks, cur.push(s.last()))
        } else {
            (flush_token(toks, cur), Seq::empty())
        }
    }
}

/// The maximal runs of identifier characters of `s` that start with a letter
/// or `_`, in order.
pub open spec fn rust_tokens(s: Seq<char>) -> Seq<Seq<char>> {
    flush_token(token_scan(s).0, token_scan(s).1)
}

/// Simple tokenizer for Rust identifiers.
pub fn tokenize_rust(src: &str) -> (tokens: Vec<String>)
    ensures
        tokens@.map_values(|t: String| t@) == rust_tokens(src@),
{
    let s = chars_of(src);
    let mut toks: Vec<Vec<char>> = Vec::new();
    let mut cur: Vec<char> = Vec::new();
    for i in 0..s.len()
        invariant
            views(toks@) == token_scan(s@.take(i as int)).0,
            cur@ == token_scan(s@.take(i as int)).1,
    {
        let c = s[i];
        proof {
            assert(s@.take(i + 1).drop_last() =~= s@.take(i as int));
        }
        if is_alphanumeric(c) || c == '_' {
            cur.push(c);
        } else {
            if cur.len() > 0 && (is_alphabetic(cur[0]) || cur[0] == '_') {
                let ghost before = toks@;
                toks.push(cur);
                proof {
                    crate::text::lemma_views_push(before, toks@.last());
                }
            }
            cur = Vec::new();
        }
    }
    assert(s@.take(s.len() as int) =~= s@);
    if cur.len() > 0 && (is_alphabetic(cur[0]) || cur[0] == '_') {
        let ghost before = toks@;
        toks.push(cur);
        proof {
            crate::text::lemma_views_push(before, toks@.last());
        }
    }
    let out = crate::text::strings_of(&toks);
    out
}

/// The alphanumeric characters of `s`, lowercased.
pub open spec fn normalized(s: Seq<char>) -> Seq<char>
    decreases s.len(),
{
    if s.len() == 0 {
        Seq::empty()
    } else if unicode_alphanumeric(s.last()) {
        normalized(s.drop_last()) + unicode_lowercase(s.last())
    } else {
        normalized(s.drop_last())
    }
}

/// Identifier comparison key: separators dropped, lowercased.
pub fn normalize_identifier(s: &str) -> (r: String)
    ensures
        r@ == normalized(s@),
{
    let cs = chars_of(s);
    let mut r = String::new();
    for i in 0..cs.len()
        invariant
            r@ == normalized(cs@.take(i as int)),
    {
        proof {
            assert(cs@.take(i + 1).drop_last() =~= cs@.take(i as int));
        }
        if is_alphanumeric(cs[i]) {
            let low = to_lowercase_chars(cs[i]);
            push_chars(&mut r, low.as_slice());
        }
    }
    assert(cs@.take(cs.len() as int) =~= cs@);
    r
}

/// The length of the longest common prefix.
pub open spec fn common_prefix(a: Seq<char>, b: Seq<char>) -> nat
    decreases a.len(),
{
    if a.len() == 0 || b.len() == 0 || a[0] != b[0] {
        0
    } else {
        1 + common_prefix(a.drop_first(), b.drop_first())
    }
}

pub fn common_prefix_len(a: &str, b: &str) -> (n: usize)
    ensures
        n == common_prefix(a@, b@),
{
    let x = chars_of(a);
    let y = chars_of(b);
    let mut i: usize = 0;
    assert(x@.skip(0) =~= x@);
    assert(y@.skip(0) =~= y@);
    while i < x.len() && i < y.len() && x[i] == y[i]
        invariant
            i <= x.len(),
            i <= y.len(),
            common_prefix(x@, y@) == i + common_prefix(x@.skip(i as int), y@.skip(i as int)),
        decreases x.len() - i,
    {
        assert(x@.skip(i as int).drop_first() =~= x@.skip(i + 1));
        assert(y@.skip(i as int).drop_first() =~= y@.skip(i + 1));
        i = i + 1;
    }
    proof {
        assert(x@.skip(0) =~= x@);
        if i < x.len() && i < y.len() {
            assert(x@.skip(i as int)[0] != y@.skip(i as int)[0]);
        }
    }
    i
}

pub open spec fn min3(a: int, b: int, c: int) -> int {
    if a <= b && a <= c {
        a
    } else if b <= c {
        b
    } else {
        c
    }
}

/// The Levenshtein distance: the fewest single-character insertions,
/// deletions and substitutions that turn `a` into `b`.
pub open spec fn edit_distance(a: Seq<char>, b: Seq<char>) -> int
    decreases a.len() + b.len(),
{
    if a.len() == 0 {
        b.len() as int
    } else if b.len() == 0 {
        a.len() as int
    } else {
        min3(
            edit_distance(a.drop_last(), b) + 1,
            edit_distance(a, b.drop_last()) + 1,
            edit_distance(a.drop_last(), b.drop_last()) + if a.last() == b.last() {
                0int
            } else {
                1int
            },
        )
    }
}

pub proof fn lemma_edit_distance_bounds(a: Seq<char>, b: Seq<char>)
    ensures
        0 <= edit_distance(a, b),
        edit_distance(a, b) <= if a.len() >= b.len() {
            a.len() as int
        } else {
            b.len() as int
        },
    decreases a.len() + b.len(),
{
    if a.len() > 0 && b.len() > 0 {
        lemma_edit_distance_bounds(a.drop_last(), b);
        lemma_edit_distance_bounds(a, b.drop_last());
        lemma_edit_distance_bounds(a.drop_last(), b.drop_last());
    }
}

/// A text is at distance zero from itself.
pub proof fn lemma_edit_distance_self(a: Seq<char>)
    ensures
        edit_distance(a, a) == 0,
    decreases a.len(),
{
    if a.len() > 0 {
        lemma_edit_distance_self(a.drop_last());
        lemma_edit_distance_bounds(a.drop_last(), a);
        lemma_edit_distance_bounds(a, a.drop_last());
    }
}

/// The distance does not depend on the direction of the edit.
pub proof fn lemma_edit_distance_symmetric(a: Seq<char>, b: Seq<char>)
    ensures
        edit_distance(a, b) == edit_distance(b, a),
    decreases a.len() + b.len(),
{
    if a.len() > 0 && b.len() > 0 {
        lemma_edit_distance_symmetric(a.drop_last(), b);
        lemma_edit_distance_symmetric(a, b.drop_last());
        lemma_edit_distance_symmetric(a.drop_last(), b.drop_last());
    }
}

/// At least the difference of the lengths.
pub proof fn lemma_edit_distance_length_gap(a: Seq<char>, b: Seq<char>)
    ensures
        edit_distance(a, b) >= a.len() - b.len(),
        edit_distance(a, b) >= b.len() - a.len(),
    decreases a.len() + b.len(),
{
    if a.len() > 0 && b.len() > 0 {
        lemma_edit_distance_length_gap(a.drop_last(), b);
        lemma_edit_distance_length_gap(a, b.drop_last());
        lemma_edit_distance_length_gap(a.drop_last(), b.drop_last());
    }
}

/// The edit distance of `a` and `b` by the two-row dynamic program.
pub fn levenshtein(a: &str, b: &str) -> (d: usize)
    requires
        a@.len() + b@.len() < usize::MAX,
    ensures
        d == edit_distance(a@, b@),
{
    let x = chars_of(a);
    let y = chars_of(b);
    let n = x.len();
    let m = y.len();
    let mut prev: Vec<usize> = Vec::new();
    for j in 0..m + 1
        invariant
            prev@.len() == j,
            forall|k: int| 0 <= k < j ==> #[trigger] prev@[k] == k,
    {
        prev.push(j);
    }
    proof {
        assert forall|k: int| 0 <= k <= m implies #[trigger] prev@[k] == edit_distance(
            x@.take(0),
            y@.take(k),
        ) by {
            assert(x@.take(0).len() == 0);
        }
    }
    for i in 0..n
        invariant
            n == x@.len(),
            m == y@.len(),
            n + m < usize::MAX,
            prev@.len() == m + 1,
            forall|k: int| 0 <= k <= m ==> #[trigger] prev@[k] == edit_distance(x@.take(i as int), y@.take(k)),
    {
        let mut curr: Vec<usize> = Vec::new();
        curr.push(i + 1);
        proof {
            assert(y@.take(0).len() == 0);
            assert(edit_distance(x@.take(i + 1), y@.take(0)) == i + 1);
        }
        for j in 0..m
            invariant
                n == x@.len(),
                m == y@.len(),
                n + m < usize::MAX,
                i < n,
                prev@.len() == m + 1,
                forall|k: int| 0 <= k <= m ==> #[trigger] prev@[k] == edit_distance(x@.take(i as int), y@.take(k)),
                curr@.len() == j + 1,
                forall|k: int| 0 <= k <= j ==> #[trigger] curr@[k] == edit_distance(x@.take(i + 1), y@.take(k)),
        {
            proof {
                lemma_edit_distance_bounds(x@.take(i + 1), y@.take(j as int));
                lemma_edit_distance_bounds(x@.take(i as int), y@.take(j + 1));
                lemma_edit_distance_bounds(x@.take(i as int), y@.take(j as int));
            }
            let cost: usize = if x[i] != y[j] {
                1
            } else {
                0
            };
            let ins = curr[j] + 1;
            let del = prev[j + 1] + 1;
            let sub = prev[j] + cost;
            let best = if ins <= del && ins <= sub {
                ins
            } else if del <= sub {
                del
            } else {
                sub
            };
            proof {
                let a1 = x@.take(i + 1);
                let b1 = y@.take(j + 1);
                assert(a1.drop_last() =~= x@.take(i as int));
                assert(b1.drop_last() =~= y@.take(j as int));
                assert(a1.last() == x@[i as int]);
                assert(b1.last() == y@[j as int]);
            }
            curr.push(best);
        }
        prev = curr;
    }
    proof {
        assert(x@.take(n as int) =~= x@);
        assert(y@.take(m as int) =~= y@);
    }
    prev[m]
}

// ---------------------------------------------------------------------------
// Comment blocks and prompts
// ---------------------------------------------------------------------------

/// One line of narrative as a comment line.
pub open spec fn comment_line(line: Seq<char>, prefix: Seq<char>) -> Seq<char> {
    if blank(line) {
        prefix + "\n"@
    } else {
        prefix + " "@ + line + "\n"@
    }
}

pub open spec fn comment_lines(lines: Seq<Seq<char>>, prefix: Seq<char>) -> Seq<char>
    decreases lines.len(),
{
    if lines.len() == 0 {
        Seq::empty()
    } else {
        comment_lines(lines.drop_last(), prefix) + comment_line(lines.last(), prefix)
    }
}

/// Each line of `text` behind the comment `prefix`; blank lines become a
/// bare prefix.
pub fn format_as_comments(text: &str, prefix: &str) -> (out: String)
    ensures
        out@ == comment_lines(lines_of(text@), prefix@),
{
    let cs = chars_of(text);
    let lines = split_lines(&cs);
    let ghost ls = views(lines@);
    let mut out = String::new();
    for i in 0..lines.len()
        invariant
            ls == views(lines@),
            ls == lines_of(text@),
            out@ == comment_lines(ls.take(i as int), prefix@),
    {
        proof {
            assert(ls.take(i + 1).drop_last() =~= ls.take(i as int));
        }
        let line = string_of(&lines[i]);
        push_str(&mut out, prefix);
        if is_blank(line.as_str()) {
            push_str(&mut out, "\n");
        } else {
            push_str(&mut out, " ");
            push_str(&mut out, line.as_str());
            push_str(&mut out, "\n");
        }
    }
    assert(ls.take(lines.len() as int) =~= ls);
    out
}

/// `//!` when the narrative's first line is an inner doc comment, else `//`.
pub open spec fn narrative_prefix(first_line: Seq<char>) -> Seq<char> {
    if has_prefix(trim_start_seq(first_line), "//!"@) {
        "//!"@
    } else {
        "//"@
    }
}

pub fn comment_prefix_for(first_line: &str) -> (p: &'static str)
    ensures
        p@ == narrative_prefix(first_line@),
{
    let cs = chars_of(first_line);
    let t = trim_start(&cs);
    if starts_with(&t, &chars_of("//!")) {
        "//!"
    } else {
        "//"
    }
}

pub open spec fn markdown_system_prompt() -> Seq<char> {
    "You are an expert technical writer and programmer. Your task is to update a specific Markdown section of documentation so that it accurately describes the current implementation in the source code.\nYou MUST return ONLY the updated Markdown section (including its heading). Do not include any explanation, conversational text, or markdown code block wrapper (like ```markdown ... ```).\nPreserve the original formatting, headings, style, and tone as much as possible, only editing the parts that are outdated."@
}

pub open spec fn markdown_user_prompt(section: Seq<char>, code: Seq<char>, reality: Seq<char>) -> Seq<char> {
    "Here is the original Markdown section:\n---\n"@ + section
        + "\n---\n\nHere is the current implementation in the source code:\n---\n"@ + code
        + "\n---\n\nAccording to our analysis, this documentation section has drifted from reality because:\n"@
        + reality
        + "\n\nPlease write the corrected Markdown section. Remember to return ONLY the raw corrected Markdown (including its heading, if it had one), with no conversational wrapper."@
}

/// The system and user prompts that ask for a corrected Markdown section.
pub fn build_markdown_correction_prompt(original_section: &str, code_context: &str, reality: &str) -> (r: (
    String,
    String,
))
    ensures
        r.0@ == markdown_system_prompt(),
        r.1@ == markdown_user_prompt(original_section@, code_context@, reality@),
{
    let system = "You are an expert technical writer and programmer. Your task is to update a specific Markdown section of documentation so that it accurately describes the current implementation in the source code.\nYou MUST return ONLY the updated Markdown section (including its heading). Do not include any explanation, conversational text, or markdown code block wrapper (like ```markdown ... ```).\nPreserve the original formatting, headings, style, and tone as much as possible, only editing the parts that are outdated.".to_owned();
    let mut user = String::new();
    push_str(&mut user, "Here is the original Markdown section:\n---\n");
    push_str(&mut user, original_section);
    push_str(&mut user, "\n---\n\nHere is the current implementation in the source code:\n---\n");
    push_str(&mut user, code_context);
    push_str(
        &mut user,
        "\n---\n\nAccording to our analysis, this documentation section has drifted from reality because:\n",
    );
    push_str(&mut user, reality);
    push_str(
        &mut user,
        "\n\nPlease write the corrected Markdown section. Remember to return ONLY the raw corrected Markdown (including its heading, if it had one), with no conversational wrapper.",
    );
    (system, user)
}

pub open spec fn narrative_system_prompt() -> Seq<char> {
    "You are an expert technical writer and programmer. Your task is to update the narrative comment block at the top of a Rust example file so that it accurately describes the current public API of the library.\nYou MUST return ONLY the updated narrative text. Do not include any comment prefixes (like //! or //), conversational text, explanations, or code blocks.\nPreserve the original style and tone as much as possible, only editing the parts that are outdated."@
}

pub open spec fn narrative_user_prompt(narrative: Seq<char>, signatures: Seq<char>, reality: Seq<char>) -> Seq<char> {
    "Here is the original example narrative (excluding comment prefixes):\n---\n"@ + narrative
        + "\n---\n\nHere are the signatures of currently-public functions in the library:\n---\n"@
        + signatures
        + "\n---\n\nAccording to our analysis, this narrative has drifted from the public API because:\n"@
        + reality
        + "\n\nPlease write the corrected narrative text (without comment prefixes). Remember to return ONLY the raw corrected narrative, with no conversational wrapper."@
}

/// The system and user prompts that ask for a corrected example narrative.
pub fn build_example_narrative_prompt(original_narrative: &str, public_signatures: &str, reality: &str) -> (r: (
    String,
    String,
))
    ensures
        r.0@ == narrative_system_prompt(),
        r.1@ == narrative_user_prompt(original_narrative@, public_signatures@, reality@),
{
    let system = "You are an expert technical writer and programmer. Your task is to update the narrative comment block at the top of a Rust example file so that it accurately describes the current public API of the library.\nYou MUST return ONLY the updated narrative text. Do not include any comment prefixes (like //! or //), conversational text, explanations, or code blocks.\nPreserve the original style and tone as much as possible, only editing the parts that are outdated.".to_owned();
    let mut user = String::new();
    push_str(&mut user, "Here is the original example narrative (excluding comment prefixes):\n---\n");
    push_str(&mut user, original_narrative);
    push_str(
        &mut user,
        "\n---\n\nHere are the signatures of currently-public functions in the library:\n---\n",
    );
    push_str(&mut user, public_signatures);
    push_str(
        &mut user,
        "\n---\n\nAccording to our analysis, this narrative has drifted from the public API because:\n",
    );
    push_str(&mut user, reality);
    push_str(
        &mut user,
        "\n\nPlease write the corrected narrative text (without comment prefixes). Remember to return ONLY the raw corrected narrative, with no conversational wrapper.",
    );
    (system, user)
}

// ---------------------------------------------------------------------------
// Applying a text fix
// ---------------------------------------------------------------------------

/// The file text after replacing the first `old` on the 1-based `line` by
/// `new` (line 0 is taken as line 1); nothing when the line does not exist
/// or does not contain `old`. Lines are rejoined with `\n`, and a final
/// newline is kept.
pub open spec fn text_after_fix(contents: Seq<char>, line: int, old: Seq<char>, new: Seq<char>) -> Option<
    Seq<char>,
> {
    let ls = lines_of(contents);
    let idx = if line >= 1 {
        line - 1
    } else {
        0
    };
    if idx >= ls.len() {
        None
    } else {
        match first_occurrence(ls[idx], old) {
            None => None,
            Some(pos) => {
                let fixed = ls[idx].take(pos) + new + ls[idx].skip(pos + old.len());
                let body = joined(ls.update(idx, fixed), "\n"@);
                Some(
                    if contents.len() > 0 && contents.last() == '\n' {
                        body + "\n"@
                    } else {
                        body
                    },
                )
            },
        }
    }
}

/// `target` with `len` characters at `pos` replaced by `new`.
fn splice(target: &Vec<char>, pos: usize, len: usize, new: &Vec<char>) -> (r: Vec<char>)
    requires
        pos + len <= target.len(),
    ensures
        r@ == target@.take(pos as int) + new@ + target@.skip(pos + len),
{
    let mut fixed = slice_chars(target, 0, pos);
    let mut i: usize = 0;
    while i < new.len()
        invariant
            i <= new.len(),
            fixed@ == target@.take(pos as int) + new@.take(i as int),
        decreases new.len() - i,
    {
        fixed.push(new[i]);
        i = i + 1;
        assert(new@.take(i as int) =~= new@.take(i - 1).push(new@[i - 1]));
    }
    assert(new@.take(new.len() as int) =~= new@);
    let mut rest = slice_chars(target, pos + len, target.len());
    fixed.append(&mut rest);
    assert(fixed@ =~= target@.take(pos as int) + new@ + target@.skip(pos + len));
    fixed
}

/// Replace the first `old` on `line` of `contents` by `new`.
#[verifier::rlimit(80)]
pub fn replace_in_line(contents: &str, line: u32, old: &str, new: &str) -> (r: Option<String>)
    ensures
        opt_text(r) == text_after_fix(contents@, line as int, old@, new@),
{
    let cs = chars_of(contents);
    let mut lines = split_lines(&cs);
    let idx: usize = if line >= 1 {
        (line - 1) as usize
    } else {
        0
    };
    if idx >= lines.len() {
        return None;
    }
    let o = chars_of(old);
    let pos = match find_seq(&lines[idx], &o) {
        Some(p) => p,
        None => {
            return None;
        },
    };
    let target = slice_chars(&lines[idx], 0, lines[idx].len());
    assert(target@ =~= lines@[idx as int]@);
    let fixed = splice(&target, pos, o.len(), &chars_of(new));
    let ghost before = views(lines@);
    lines.set(idx, fixed);
    assert(views(lines@) =~= before.update(idx as int, lines@[idx as int]@));
    let ghost ls = lines_of(contents@);
    assert(views(lines@) == ls.update(idx as int, ls[idx as int].take(pos as int) + new@ + ls[idx as int].skip(pos + old@.len())));
    let mut out = join_chars(&lines, "\n");
    if cs.len() > 0 && cs[cs.len() - 1] == '\n' {
        push_str(&mut out, "\n");
    }
    Some(out)
}

// ---------------------------------------------------------------------------
// Sorted, deduplicated name lists
// ---------------------------------------------------------------------------

/// Each text comes strictly before the next (so no text occurs twice).
pub open spec fn strictly_sorted(s: Seq<Seq<char>>) -> bool {
    forall|i: int, j: int| 0 <= i < j < s.len() ==> text_lt(#[trigger] s[i], #[trigger] s[j])
}

/// `a` and `b` hold the same texts.
pub open spec fn same_texts(a: Seq<Seq<char>>, b: Seq<Seq<char>>) -> bool {
    forall|t: Seq<char>| a.contains(t) <==> b.contains(t)
}

/// Insert `x` into a strictly sorted list unless it is already there.
fn insert_sorted(v: &mut Vec<String>, x: String)
    requires
        strictly_sorted(texts(old(v)@)),
    ensures
        strictly_sorted(texts(final(v)@)),
        forall|t: Seq<char>| texts(final(v)@).contains(t) <==> (texts(old(v)@).contains(t) || t == x@),
{
    let ghost old_t = texts(v@);
    let mut p: usize = 0;
    while p < v.len() && text_less(v[p].as_str(), x.as_str())
        invariant
            p <= v.len(),
            old_t == texts(v@),
            strictly_sorted(old_t),
            forall|k: int| 0 <= k < p ==> text_lt(#[trigger] old_t[k], x@),
        decreases v.len() - p,
    {
        p = p + 1;
    }
    if p < v.len() && str_eq(v[p].as_str(), x.as_str()) {
        assert(old_t[p as int] == x@);
        return;
    }
    proof {
        if p < v.len() {
            lemma_text_lt_total(old_t[p as int], x@);
        }
    }
    v.insert(p, x);
    proof {
        let nt = texts(v@);
        assert(nt =~= old_t.insert(p as int, x@));
        assert forall|i: int, j: int| 0 <= i < j < nt.len() implies text_lt(#[trigger] nt[i], #[trigger] nt[j]) by {
            if j == p {
            } else if i == p {
                assert(text_lt(x@, old_t[p as int]));
                if j - 1 > p {
                    lemma_text_lt_transitive(x@, old_t[p as int], old_t[j - 1]);
                }
            } else if i < p && j > p {
                assert(text_lt(old_t[i], x@));
                assert(text_lt(x@, old_t[p as int]));
                if j - 1 > p {
                    lemma_text_lt_transitive(x@, old_t[p as int], old_t[j - 1]);
                }
                lemma_text_lt_transitive(old_t[i], x@, old_t[j - 1]);
            } else if i > p {
                assert(nt[i] == old_t[i - 1]);
                assert(nt[j] == old_t[j - 1]);
            } else {
                assert(nt[i] == old_t[i]);
                assert(nt[j] == old_t[j]);
            }
        }
        assert forall|t: Seq<char>| nt.contains(t) <==> (old_t.contains(t) || t == x@) by {
            if nt.contains(t) {
                let k = choose|k: int| 0 <= k < nt.len() && nt[k] == t;
                if k < p {
                    assert(old_t[k] == t);
                } else if k > p {
                    assert(old_t[k - 1] == t);
                }
            }
            if old_t.contains(t) {
                let k = choose|k: int| 0 <= k < old_t.len() && old_t[k] == t;
                if k < p {
                    assert(nt[k] == t);
                } else {
                    assert(nt[k + 1] == t);
                }
            }
            if t == x@ {
                assert(nt[p as int] == t);
            }
        }
    }
}

/// The texts of `names`, sorted, each once (`sort` then `dedup`).
pub fn sorted_unique(names: &Vec<String>) -> (r: Vec<String>)
    ensures
        strictly_sorted(texts(r@)),
        same_texts(texts(r@), texts(names@)),
{
    let mut r: Vec<String> = Vec::new();
    for i in 0..names.len()
        invariant
            strictly_sorted(texts(r@)),
            forall|t: Seq<char>| texts(r@).contains(t) <==> texts(names@).take(i as int).contains(t),
    {
        insert_sorted(&mut r, names[i].clone());
        proof {
            let tk = texts(names@).take(i + 1);
            assert(tk =~= texts(names@).take(i as int).push(names@[i as int]@));
            assert forall|t: Seq<char>| tk.contains(t) <==> (texts(names@).take(i as int).contains(t) || t == names@[i as int]@) by {
                if tk.contains(t) {
                    let k = choose|k: int| 0 <= k < tk.len() && tk[k] == t;
                    if k < i {
                        assert(texts(names@).take(i as int)[k] == t);
                    }
                }
                if texts(names@).take(i as int).contains(t) {
                    let k = choose|k: int| 0 <= k < i && texts(names@).take(i as int)[k] == t;
                    assert(tk[k] == t);
                }
                if t == names@[i as int]@ {
                    assert(tk[i as int] == t);
                }
            }
        }
    }
    assert(texts(names@).take(names.len() as int) =~= texts(names@));
    r
}

// ---------------------------------------------------------------------------
// Identifiers a text mentions
// ---------------------------------------------------------------------------

/// A bare ASCII identifier.
pub open spec fn ascii_ident(s: Seq<char>) -> bool {
    &&& s.len() > 0
    &&& (ascii_alpha(s[0]) || s[0] == '_')
    &&& forall|k: int| 1 <= k < s.len() ==> ascii_alnum(#[trigger] s[k]) || s[k] == '_'
}

pub fn is_ident(s: &str) -> (b: bool)
    ensures
        b == ascii_ident(s@),
{
    let cs = chars_of(s);
    if cs.len() == 0 {
        return false;
    }
    if !(is_ascii_alpha(cs[0]) || cs[0] == '_') {
        return false;
    }
    for k in 1..cs.len()
        invariant
            cs@ == s@,
            forall|j: int| 1 <= j < k ==> ascii_alnum(#[trigger] cs@[j]) || cs@[j] == '_',
    {
        if !(is_ascii_alnum(cs[k]) || cs[k] == '_') {
            return false;
        }
    }
    true
}

/// `s` with every trailing `p` removed (`trim_end_matches`).
pub open spec fn strip_all_suffix(s: Seq<char>, p: Seq<char>) -> Seq<char>
    decreases s.len(),
{
    if p.len() > 0 && has_suffix(s, p) {
        strip_all_suffix(s.take(s.len() - p.len()), p)
    } else {
        s
    }
}

fn strip_all_suffix_exec(s: &Vec<char>, p: &Vec<char>) -> (r: Vec<char>)
    ensures
        r@ == strip_all_suffix(s@, p@),
{
    let mut cur = slice_chars(s, 0, s.len());
    assert(cur@ =~= s@);
    while p.len() > 0 && ends_with(&cur, p)
        invariant
            strip_all_suffix(cur@, p@) == strip_all_suffix(s@, p@),
        decreases cur.len(),
    {
        cur = slice_chars(&cur, 0, cur.len() - p.len());
    }
    cur
}

/// The last index at which `t` occurs in `s`.
#[verifier::opaque]
pub open spec fn last_occurrence(s: Seq<char>, t: Seq<char>) -> Option<int> {
    if exists|i: int| occurs_at(s, t, i) {
        Some(choose|i: int| occurs_at(s, t, i) && forall|j: int| j > i ==> !occurs_at(s, t, j))
    } else {
        None
    }
}

fn find_last(s: &Vec<char>, t: &Vec<char>) -> (r: Option<usize>)
    ensures
        match r {
            Some(i) => last_occurrence(s@, t@) == Some(i as int) && occurs_at(s@, t@, i as int),
            None => last_occurrence(s@, t@) is None,
        },
{
    reveal(last_occurrence);
    let mut i: usize = s.len();
    loop
        invariant
            i <= s.len(),
            forall|j: int| j > i ==> !occurs_at(s@, t@, j),
        decreases i,
    {
        if matches_at(s, t, i) {
            proof {
                reveal(last_occurrence);
                let c = choose|c: int| occurs_at(s@, t@, c) && forall|j: int| j > c ==> !occurs_at(s@, t@, j);
                assert(occurs_at(s@, t@, c));
                if c < i {
                    assert(occurs_at(s@, t@, i as int));
                }
            }
            return Some(i);
        }
        if i == 0 {
            proof {
                reveal(last_occurrence);
                assert forall|j: int| !occurs_at(s@, t@, j) by {
                    if j == 0 {
                    }
                }
            }
            return None;
        }
        i = i - 1;
    }
}

/// The last `::`-separated segment of `s` (all of `s` without `::`).
pub open spec fn leaf_of(s: Seq<char>) -> Seq<char> {
    match last_occurrence(s, "::"@) {
        Some(i) => s.skip(i + 2),
        None => s,
    }
}

/// The identifiers one backtick-delimited piece contributes: the piece
/// (trimmed, trailing `()` removed) when it is an identifier, and the leaf of
/// a qualified path when that differs from the piece.
pub open spec fn piece_mentions(part: Seq<char>) -> Seq<Seq<char>> {
    let trimmed = strip_all_suffix(trim_seq(part), "()"@);
    let leaf = leaf_of(trimmed);
    (if ascii_ident(trimmed) {
        seq![trimmed]
    } else {
        Seq::empty()
    }) + (if ascii_ident(leaf) && leaf != trimmed {
        seq![leaf]
    } else {
        Seq::empty()
    })
}

/// The identifiers named by the backticked pieces of a text split on its
/// backticks: the pieces at odd positions, in order.
pub open spec fn mentions_of(parts: Seq<Seq<char>>) -> Seq<Seq<char>>
    decreases parts.len(),
{
    if parts.len() == 0 {
        Seq::empty()
    } else if parts.len() % 2 == 0 {
        mentions_of(parts.drop_last()) + piece_mentions(parts.last())
    } else {
        mentions_of(parts.drop_last())
    }
}

fn leaf_exec(trimmed: &Vec<char>) -> (leaf: Vec<char>)
    ensures
        leaf@ == leaf_of(trimmed@),
{
    let sep = chars_of("::");
    proof {
        reveal_strlit("::");
    }
    assert(sep@.len() == 2);
    let found = find_last(trimmed, &sep);
    match found {
        Some(k) => {
            assert(occurs_at(trimmed@, sep@, k as int));
            assert(k + 2 <= trimmed@.len());
            let n = trimmed.len();
            assert(n == trimmed@.len());
            let start: usize = k + 2;
            slice_chars(trimmed, start, n)
        },
        None => {
            let r = slice_chars(trimmed, 0, trimmed.len());
            assert(r@ =~= trimmed@);
            r
        },
    }
}

/// The last `::`-separated segment of a text.
pub fn leaf_of_text(s: &str) -> (leaf: String)
    ensures
        leaf@ == leaf_of(s@),
{
    let cs = chars_of(s);
    string_of(&leaf_exec(&cs))
}

#[verifier::rlimit(30)]
fn mentions_in_piece(part: &Vec<char>) -> (r: Vec<String>)
    ensures
        texts(r@) == piece_mentions(part@),
{
    let parens = chars_of("()");
    let t = trim(part);
    let trimmed = strip_all_suffix_exec(&t, &parens);
    let trimmed_s = string_of(&trimmed);
    let leaf = leaf_exec(&trimmed);
    let leaf_s = string_of(&leaf);
    let first = is_ident(trimmed_s.as_str());
    let second = is_ident(leaf_s.as_str()) && !str_eq(leaf_s.as_str(), trimmed_s.as_str());
    let ghost tr = trimmed@;
    let ghost lf = leaf@;
    let mut found: Vec<String> = Vec::new();
    if first {
        found.push(trimmed_s);
    }
    if second {
        found.push(leaf_s);
    }
    proof {
        let expected = piece_mentions(part@);
        assert(tr == strip_all_suffix(trim_seq(part@), "()"@));
        assert(lf == leaf_of(tr));
        assert(texts(found@) =~= expected);
    }
    found
}

/// Every identifier the backticked spans of `text` name, including the leaf
/// of a qualified path, sorted and each once.
pub fn mentioned_identifiers(text: &str) -> (r: Vec<String>)
    ensures
        strictly_sorted(texts(r@)),
        same_texts(texts(r@), mentions_of(split_seq(text@, '`'))),
{
    let cs = chars_of(text);
    let parts = split_on(&cs, '`');
    let ghost ps = views(parts@);
    let mut found: Vec<String> = Vec::new();
    for i in 0..parts.len()
        invariant
            ps == views(parts@),
            ps == split_seq(text@, '`'),
            texts(found@) == mentions_of(ps.take(i as int)),
    {
        proof {
            assert(ps.take(i + 1).drop_last() =~= ps.take(i as int));
        }
        if i % 2 == 1 {
            let mut more = mentions_in_piece(&parts[i]);
            let ghost before = found@;
            let ghost extra = more@;
            found.append(&mut more);
            assert(texts(found@) =~= texts(before) + texts(extra));
        }
    }
    assert(ps.take(parts.len() as int) =~= ps);
    sorted_unique(&found)
}

// ---------------------------------------------------------------------------
// Public signatures
// ---------------------------------------------------------------------------

/// A function fact outside any `tests` or `examples` directory.
pub open spec fn public_function(f: CodeFact) -> bool {
    &&& f.kind == FactKind::Function
    &&& !path_components(f.location.file@).contains("tests"@)
    &&& !path_components(f.location.file@).contains("examples"@)
}

pub open spec fn public_function_names(facts: Seq<CodeFact>) -> Seq<Seq<char>>
    decreases facts.len(),
{
    if facts.len() == 0 {
        Seq::empty()
    } else if public_function(facts.last()) {
        public_function_names(facts.drop_last()).push(facts.last().name@)
    } else {
        public_function_names(facts.drop_last())
    }
}

fn contains_text_in(v: &Vec<String>, t: &str) -> (b: bool)
    ensures
        b == texts(v@).contains(t@),
{
    for k in 0..v.len()
        invariant
            forall|j: int| 0 <= j < k ==> texts(v@)[j] != t@,
    {
        if str_eq(v[k].as_str(), t) {
            assert(texts(v@)[k as int] == t@);
            return true;
        }
    }
    false
}

/// The names of the public functions, sorted, once each.
pub fn public_names(facts: &Vec<CodeFact>) -> (r: Vec<String>)
    ensures
        strictly_sorted(texts(r@)),
        same_texts(texts(r@), public_function_names(facts@)),
{
    let mut names: Vec<String> = Vec::new();
    for i in 0..facts.len()
        invariant
            texts(names@) == public_function_names(facts@.take(i as int)),
    {
        proof {
            assert(facts@.take(i + 1).drop_last() =~= facts@.take(i as int));
        }
        if facts[i].kind == FactKind::Function {
            let comps = components(facts[i].location.file.as_str());
            if !contains_text_in(&comps, "tests") && !contains_text_in(&comps, "examples") {
                let ghost before = texts(names@);
                names.push(facts[i].name.clone());
                assert(texts(names@) =~= before.push(facts@[i as int].name@));
            }
        }
    }
    assert(facts@.take(facts.len() as int) =~= facts@);
    sorted_unique(&names)
}

/// The names of the public functions, sorted, once each, one per line.
pub fn collect_public_signatures(facts: &Vec<CodeFact>) -> (s: String)
    ensures
        exists|names: Seq<Seq<char>>|
            strictly_sorted(names) && same_texts(names, public_function_names(facts@)) && s@
                == joined(names, "\n"@),
{
    let sorted = public_names(facts);
    crate::text::join_texts(&sorted, "\n")
}

// ---------------------------------------------------------------------------
// Example narratives
// ---------------------------------------------------------------------------

/// The text after a `//!` or `//` comment marker.
pub open spec fn comment_rest(trimmed: Seq<char>) -> Option<Seq<char>> {
    if has_prefix(trimmed, "//!"@) {
        Some(trimmed.skip(3))
    } else if has_prefix(trimmed, "//"@) {
        Some(trimmed.skip(2))
    } else {
        None
    }
}

/// The scan of a file's leading comment block: where it starts (bytes), the
/// offset reached, the narrative so far, blank lines not yet committed, the
/// end of the last comment line, and whether code was reached.
pub struct NarrativeScan {
    pub start: Option<int>,
    pub cur: int,
    pub text: Seq<char>,
    pub pending: Seq<char>,
    pub last: int,
    pub stopped: bool,
}

/// One line (with its newline) of the scan: comment lines add their trimmed
/// text, blank lines inside the block are kept as newlines, anything else
/// ends the block.
pub open spec fn narrative_step(st: NarrativeScan, line: Seq<char>) -> NarrativeScan {
    let t = trim_start_seq(line);
    let n = vstd::utf8::encode_utf8(line).len() as int;
    if st.stopped {
        st
    } else {
        match comment_rest(t) {
            Some(rest) => NarrativeScan {
                start: Some(
                    match st.start {
                        Some(a) => a,
                        None => st.cur,
                    },
                ),
                cur: st.cur + n,
                text: st.text + st.pending + trim_seq(rest) + "\n"@,
                pending: Seq::empty(),
                last: st.cur + n,
                stopped: false,
            },
            None => if t.len() == 0 || t == "\r"@ {
                NarrativeScan {
                    cur: st.cur + n,
                    pending: if st.start is Some {
                        st.pending + "\n"@
                    } else {
                        st.pending
                    },
                    ..st
                }
            } else {
                NarrativeScan { stopped: true, ..st }
            },
        }
    }
}

pub open spec fn narrative_scan(lines: Seq<Seq<char>>) -> NarrativeScan
    decreases lines.len(),
{
    if lines.len() == 0 {
        NarrativeScan {
            start: None,
            cur: 0,
            text: Seq::empty(),
            pending: Seq::empty(),
            last: 0,
            stopped: false,
        }
    } else {
        narrative_step(narrative_scan(lines.drop_last()), lines.last())
    }
}

/// The leading comment narrative of an example file: its trimmed text and
/// the byte range of the comment block, when the text has at least 16 bytes.
pub open spec fn example_narrative(src: Seq<char>) -> Option<(Seq<char>, int, int)> {
    let st = narrative_scan(inclusive_lines(src));
    let t = trim_seq(st.text);
    if vstd::utf8::encode_utf8(t).len() < 16 {
        None
    } else {
        match st.start {
            None => None,
            Some(a) => if a >= st.last {
                None
            } else {
                Some((t, a, st.last))
            },
        }
    }
}

fn narrative_line(
    st_start: &mut Option<usize>,
    cur: usize,
    text: &mut String,
    pending: &mut String,
    last: &mut usize,
    stopped: &mut bool,
    line: &Vec<char>,
    n: usize,
)
    requires
        cur + n <= usize::MAX,
    ensures
        ({
            let before = NarrativeScan {
                start: match *old(st_start) {
                    Some(a) => Some(a as int),
                    None => None,
                },
                cur: cur as int,
                text: old(text)@,
                pending: old(pending)@,
                last: *old(last) as int,
                stopped: *old(stopped),
            };
            let after = narrative_step(before, line@);
            n == vstd::utf8::encode_utf8(line@).len() ==> {
                &&& after.start == match *final(st_start) {
                    Some(a) => Some(a as int),
                    None => None,
                }
                &&& after.text == final(text)@
                &&& after.pending == final(pending)@
                &&& after.last == *final(last) as int
                &&& after.stopped == *final(stopped)
                &&& (!after.stopped ==> after.cur == cur + n)
                &&& (after.stopped ==> after.cur == cur)
            }
        }),
{
    if *stopped {
        return;
    }
    let t = trim_start(line);
    let bang = chars_of("//!");
    let slashes = chars_of("//");
    proof {
        reveal_strlit("//!");
        reveal_strlit("//");
    }
    let rest = if starts_with(&t, &bang) {
        Some(slice_chars(&t, 3, t.len()))
    } else if starts_with(&t, &slashes) {
        Some(slice_chars(&t, 2, t.len()))
    } else {
        None
    };
    match rest {
        Some(r) => {
            if st_start.is_none() {
                *st_start = Some(cur);
            }
            push_str(text, pending.as_str());
            *pending = String::new();
            let tr = trim(&r);
            push_chars(text, tr.as_slice());
            push_str(text, "\n");
            *last = cur + n;
        },
        None => {
            let is_cr = t.len() == 1 && t[0] == '\r';
            proof {
                reveal_strlit("\r");
                if t@ == "\r"@ {
                    assert(t@.len() == 1 && t@[0] == '\r');
                }
                if is_cr {
                    assert(t@ =~= "\r"@);
                }
            }
            if t.len() == 0 || is_cr {
                if st_start.is_some() {
                    push_str(pending, "\n");
                }
            } else {
                *stopped = true;
            }
        },
    }
}

/// The leading `//!` / `//` narrative of an example file, trimmed, with the
/// byte range of its comment block.
pub fn slice_example_narrative(src: &str) -> (r: Option<(String, core::ops::Range<usize>)>)
    requires
        vstd::utf8::encode_utf8(src@).len() < usize::MAX,
    ensures
        match example_narrative(src@) {
            Some((t, a, b)) => r matches Some((text, range)) && text@ == t && range.start == a
                && range.end == b,
            None => r is None,
        },
{
    let s = chars_of(src);
    let ghost total = vstd::utf8::encode_utf8(s@).len();
    let mut start: Option<usize> = None;
    let mut cur: usize = 0;
    let mut text = String::new();
    let mut pending = String::new();
    let mut last: usize = 0;
    let mut stopped = false;
    let ghost mut done: Seq<Seq<char>> = Seq::empty();
    let mut i: usize = 0;
    assert(s@.take(0) =~= Seq::<char>::empty());
    while i < s.len()
        invariant
            s@ == src@,
            total == vstd::utf8::encode_utf8(s@).len(),
            total < usize::MAX,
            0 <= i <= s.len(),
            done + inclusive_lines_from(s@, i as int) == inclusive_lines(s@),
            ({
                let st = narrative_scan(done);
                &&& st.start == match start {
                    Some(a) => Some(a as int),
                    None => None,
                }
                &&& st.text == text@
                &&& st.pending == pending@
                &&& st.last == last as int
                &&& st.stopped == stopped
                &&& (!stopped ==> st.cur == cur as int && cur as int == byte_offset(s@, i as int))
                &&& cur as int <= byte_offset(s@, i as int)
            }),
        decreases s.len() - i,
    {
        let mut e = i;
        while e < s.len() && s[e] != '\n'
            invariant
                i <= e <= s.len(),
                find_from(s@, e as int, is_char('\n')) == find_from(s@, i as int, is_char('\n')),
            decreases s.len() - e,
        {
            e += 1;
        }
        proof {
            lemma_find_from(s@, i as int, is_char('\n'));
        }
        let end = if e >= s.len() {
            s.len()
        } else {
            e + 1
        };
        let line = slice_chars(&s, i, end);
        let n = string_of(&line).as_str().as_bytes().len();
        proof {
            lemma_byte_offset_split(s@, i as int, end as int);
            lemma_byte_offset_split(s@, end as int, s@.len() as int);
            assert(s@.take(s@.len() as int) =~= s@);
            if e >= s.len() {
                assert(inclusive_lines_from(s@, i as int) == seq![line@]);
                assert(inclusive_lines_from(s@, end as int) =~= Seq::<Seq<char>>::empty());
            } else {
                assert(inclusive_lines_from(s@, i as int) == seq![line@] + inclusive_lines_from(
                    s@,
                    end as int,
                ));
            }
        }
        let ghost prev = done;
        narrative_line(&mut start, cur, &mut text, &mut pending, &mut last, &mut stopped, &line, n);
        proof {
            done = done.push(line@);
            assert(done.drop_last() =~= prev);
            assert(done + inclusive_lines_from(s@, end as int) =~= prev + inclusive_lines_from(
                s@,
                i as int,
            ));
        }
        if !stopped {
            cur = cur + n;
        }
        i = end;
    }
    proof {
        assert(inclusive_lines_from(s@, i as int) =~= Seq::<Seq<char>>::empty());
        assert(done =~= inclusive_lines(s@));
    }
    let trimmed = trim(&chars_of(text.as_str()));
    let t = string_of(&trimmed);
    if t.as_str().as_bytes().len() < 16 {
        return None;
    }
    let a = match start {
        Some(a) => a,
        None => {
            return None;
        },
    };
    if a >= last {
        return None;
    }
    Some((t, a..last))
}

// ---------------------------------------------------------------------------
// Function bodies for the LLM
// ---------------------------------------------------------------------------

/// The index of the first function fact named `name` (the length when none).
pub open spec fn first_fn_named(facts: Seq<CodeFact>, name: Seq<char>) -> int
    decreases facts.len(),
{
    if facts.len() == 0 {
        0
    } else if facts[0].name@ == name && facts[0].kind == FactKind::Function {
        0
    } else {
        1 + first_fn_named(facts.drop_first(), name)
    }
}

/// The first line of a fact's window (0-based).
pub open spec fn window_start(line: int) -> int {
    if line >= 1 {
        line - 1
    } else {
        0
    }
}

/// Up to 50 lines of `lines` from the fact's line on, joined with `\n`.
pub open spec fn body_window(lines: Seq<Seq<char>>, line: int) -> Seq<char> {
    let start = window_start(line);
    let end = if start + 50 < lines.len() {
        start + 50
    } else {
        lines.len() as int
    };
    joined(lines.subrange(start, end), "\n"@)
}

/// Every function fact's line lies within its file, when the file was read.
pub open spec fn windows_fit(facts: Seq<CodeFact>, sources: Seq<SourceText>) -> bool {
    forall|k: int|
        0 <= k < facts.len() && (#[trigger] facts[k]).kind == FactKind::Function ==> match source_for(
            sources,
            facts[k].location.file@,
        ) {
            Some(t) => window_start(facts[k].location.line as int) <= lines_of(t).len(),
            None => true,
        }
}

/// The body window of the first function named `name`, when its file was read.
pub open spec fn fn_body(facts: Seq<CodeFact>, sources: Seq<SourceText>, name: Seq<char>) -> Option<Seq<char>> {
    let k = first_fn_named(facts, name);
    if k >= facts.len() {
        None
    } else {
        match source_for(sources, facts[k].location.file@) {
            None => None,
            Some(t) => Some(body_window(lines_of(t), facts[k].location.line as int)),
        }
    }
}

/// About 50 lines of the source of the first function named `name`.
pub fn fetch_fn_body(facts: &Vec<CodeFact>, sources: &Vec<SourceText>, name: &str) -> (r: Option<String>)
    requires
        windows_fit(facts@, sources@),
    ensures
        opt_text(r) == fn_body(facts@, sources@, name@),
{
    let mut k: usize = 0;
    assert(facts@.skip(0) =~= facts@);
    while k < facts.len() && !(str_eq(facts[k].name.as_str(), name) && facts[k].kind == FactKind::Function)
        invariant
            k <= facts.len(),
            first_fn_named(facts@, name@) == k + first_fn_named(facts@.skip(k as int), name@),
        decreases facts.len() - k,
    {
        assert(facts@.skip(k as int).drop_first() =~= facts@.skip(k + 1));
        k = k + 1;
    }
    if k >= facts.len() {
        proof {
            assert(facts@.skip(k as int).len() == 0);
        }
        return None;
    }
    assert(facts@.skip(k as int)[0] == facts@[k as int]);
    let text = match text_of(sources, facts[k].location.file.as_str()) {
        Some(t) => t,
        None => {
            return None;
        },
    };
    let cs = chars_of(text.as_str());
    let lines = split_lines(&cs);
    let line = facts[k].location.line;
    let start: usize = if line >= 1 {
        (line - 1) as usize
    } else {
        0
    };
    assert(start <= lines.len());
    let end = if lines.len() - start > 50 {
        start + 50
    } else {
        lines.len()
    };
    let mut window: Vec<Vec<char>> = Vec::new();
    for j in start..end
        invariant
            start <= end <= lines.len(),
            views(window@) == views(lines@).subrange(start as int, j as int),
    {
        let ghost before = window@;
        window.push(slice_chars(&lines[j], 0, lines[j].len()));
        proof {
            lemma_views_push(before, window@.last());
            assert(lines@[j as int]@.subrange(0, lines@[j as int]@.len() as int) =~= lines@[j as int]@);
            assert(views(window@) =~= views(lines@).subrange(start as int, j + 1));
        }
    }
    Some(join_chars(&window, "\n"))
}

/// The function bodies to show next to a section: a `### fn` block for each
/// name in turn that has a body.
pub open spec fn context_blocks(names: Seq<Seq<char>>, facts: Seq<CodeFact>, sources: Seq<SourceText>) -> Seq<char>
    decreases names.len(),
{
    if names.len() == 0 {
        Seq::empty()
    } else {
        context_blocks(names.drop_last(), facts, sources) + match fn_body(
            facts,
            sources,
            names.last(),
        ) {
            Some(body) => "### fn "@ + names.last() + "\n```rust\n"@ + body + "\n```\n"@,
            None => Seq::empty(),
        }
    }
}

/// `context_blocks` over a list of names.
pub fn render_fn_bodies(names: &Vec<String>, facts: &Vec<CodeFact>, sources: &Vec<SourceText>) -> (out: String)
    requires
        windows_fit(facts@, sources@),
    ensures
        out@ == context_blocks(texts(names@), facts@, sources@),
{
    let ghost ns = texts(names@);
    let mut out = String::new();
    for i in 0..names.len()
        invariant
            windows_fit(facts@, sources@),
            ns == texts(names@),
            out@ == context_blocks(ns.take(i as int), facts@, sources@),
    {
        proof {
            assert(ns.take(i + 1).drop_last() =~= ns.take(i as int));
        }
        match fetch_fn_body(facts, sources, names[i].as_str()) {
            Some(body) => {
                push_str(&mut out, "### fn ");
                push_str(&mut out, names[i].as_str());
                push_str(&mut out, "\n```rust\n");
                push_str(&mut out, body.as_str());
                push_str(&mut out, "\n```\n");
            },
            None => {},
        }
    }
    assert(ns.take(names.len() as int) =~= ns);
    out
}

/// The code a corrected section should be written against: the bodies of
/// the functions the section mentions, in name order.
pub fn build_outdated_logic_context(facts: &Vec<CodeFact>, sources: &Vec<SourceText>, section_text: &str) -> (out: String)
    requires
        windows_fit(facts@, sources@),
    ensures
        exists|names: Seq<Seq<char>>|
            strictly_sorted(names) && same_texts(names, mentions_of(split_seq(section_text@, '`')))
                && out@ == context_blocks(names, facts@, sources@),
{
    let names = mentioned_identifiers(section_text);
    render_fn_bodies(&names, facts, sources)
}

} // verus!
