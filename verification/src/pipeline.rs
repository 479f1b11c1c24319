//! The steps between the analyzers and the reporters: deterministic ordering,
//! strict mode, root-relative locations, diff scoping, analyzer selection and
//! the exit-code decision.
use vstd::prelude::*;
use crate::domain::{
    rule_confidence, rule_name, severity_promoted, severity_rank, Confidence, Divergence, RuleId, Severity,
};
use crate::paths::{
    components, extension, file_name, is_absolute, join, path_components,
    path_extension, path_file_name, path_is_absolute, path_join, path_strip_prefix,
    strip_prefix,
};
use crate::text::{chars_of, str_eq, texts};

verus! {

// ---------------------------------------------------------------------------
// Deterministic ordering
// ---------------------------------------------------------------------------

/// Lexicographic order of texts by code point (the order `str::cmp` gives,
/// since UTF-8 preserves code-point order).
pub open spec fn text_lt(a: Seq<char>, b: Seq<char>) -> bool
    decreases a.len(),
{
    if a.len() == 0 {
        b.len() > 0
    } else if b.len() == 0 {
        false
    } else if a[0] != b[0] {
        (a[0] as int) < (b[0] as int)
    } else {
        text_lt(a.drop_first(), b.drop_first())
    }
}

pub proof fn lemma_text_lt_transitive(a: Seq<char>, b: Seq<char>, c: Seq<char>)
    requires
        text_lt(a, b),
        text_lt(b, c),
    ensures
        text_lt(a, c),
    decreases a.len(),
{
    if a.len() > 0 && b.len() > 0 && c.len() > 0 && a[0] == b[0] && b[0] == c[0] {
        lemma_text_lt_transitive(a.drop_first(), b.drop_first(), c.drop_first());
    }
}

pub proof fn lemma_text_lt_irreflexive(a: Seq<char>)
    ensures
        !text_lt(a, a),
    decreases a.len(),
{
    if a.len() > 0 {
        lemma_text_lt_irreflexive(a.drop_first());
    }
}

pub proof fn lemma_text_lt_total(a: Seq<char>, b: Seq<char>)
    requires
        a != b,
    ensures
        text_lt(a, b) || text_lt(b, a),
    decreases a.len(),
{
    if a.len() > 0 && b.len() > 0 && a[0] == b[0] {
        if a.drop_first() == b.drop_first() {
            assert(a =~= seq![a[0]] + a.drop_first());
            assert(b =~= seq![b[0]] + b.drop_first());
        }
        lemma_text_lt_total(a.drop_first(), b.drop_first());
    } else if a.len() == 0 && b.len() == 0 {
        assert(a =~= b);
    }
}

/// `text_lt` on the suffixes of `a` and `b` from `i` on.
fn text_lt_from(a: &Vec<char>, b: &Vec<char>, i: usize) -> (r: bool)
    requires
        i <= a.len(),
        i <= b.len(),
    ensures
        r == text_lt(a@.skip(i as int), b@.skip(i as int)),
    decreases a.len() - i,
{
    if i == a.len() {
        i < b.len()
    } else if i == b.len() {
        false
    } else if a[i] != b[i] {
        a[i] < b[i]
    } else {
        assert(a@.skip(i as int).drop_first() =~= a@.skip(i + 1));
        assert(b@.skip(i as int).drop_first() =~= b@.skip(i + 1));
        text_lt_from(a, b, i + 1)
    }
}

/// Compares two texts in `str` order.
pub fn text_less(a: &str, b: &str) -> (r: bool)
    ensures
        r == text_lt(a@, b@),
{
    let va = chars_of(a);
    let vb = chars_of(b);
    assert(va@.skip(0) =~= va@);
    assert(vb@.skip(0) =~= vb@);
    text_lt_from(&va, &vb, 0)
}

/// The kind of a path component, in the order `std::path::Component`
/// declares its variants: the root `/`, then `.`, then `..`, then a normal
/// name. (`Path::components` yields `.` only as a leading component and
/// never yields a normal name with a separator in it, so the text of a
/// component tells its kind.)
pub open spec fn component_rank(c: Seq<char>) -> int {
    if c == "/"@ {
        1
    } else if c == "."@ {
        2
    } else if c == ".."@ {
        3
    } else {
        4
    }
}

/// Component order: by kind, then normal names by their text.
pub open spec fn component_lt(a: Seq<char>, b: Seq<char>) -> bool {
    component_rank(a) < component_rank(b) || (component_rank(a) == component_rank(b) && text_lt(a, b))
}

/// Lexicographic order of component lists: the order of `Path` (and
/// `PathBuf`), which compares paths component by component.
pub open spec fn components_lt(a: Seq<Seq<char>>, b: Seq<Seq<char>>) -> bool
    decreases a.len(),
{
    if a.len() == 0 {
        b.len() > 0
    } else if b.len() == 0 {
        false
    } else if a[0] != b[0] {
        component_lt(a[0], b[0])
    } else {
        components_lt(a.drop_first(), b.drop_first())
    }
}

/// Path order on textual paths.
pub open spec fn path_lt(a: Seq<char>, b: Seq<char>) -> bool {
    components_lt(path_components(a), path_components(b))
}

/// Two textual paths name the same `Path`: their components agree.
pub open spec fn same_components(a: Seq<char>, b: Seq<char>) -> bool {
    path_components(a) == path_components(b)
}

pub proof fn lemma_components_lt_transitive(a: Seq<Seq<char>>, b: Seq<Seq<char>>, c: Seq<Seq<char>>)
    requires
        components_lt(a, b),
        components_lt(b, c),
    ensures
        components_lt(a, c),
    decreases a.len(),
{
    if a.len() > 0 && b.len() > 0 && c.len() > 0 {
        if a[0] == b[0] && b[0] == c[0] {
            lemma_components_lt_transitive(a.drop_first(), b.drop_first(), c.drop_first());
        } else if a[0] != b[0] && b[0] != c[0] {
            if text_lt(a[0], b[0]) && text_lt(b[0], c[0]) {
                lemma_text_lt_transitive(a[0], b[0], c[0]);
            }
            if a[0] == c[0] {
                if text_lt(a[0], b[0]) && text_lt(b[0], c[0]) {
                    lemma_text_lt_irreflexive(a[0]);
                }
            }
        }
    }
}

pub proof fn lemma_components_lt_irreflexive(a: Seq<Seq<char>>)
    ensures
        !components_lt(a, a),
    decreases a.len(),
{
    if a.len() > 0 {
        lemma_components_lt_irreflexive(a.drop_first());
    }
}

pub proof fn lemma_components_lt_total(a: Seq<Seq<char>>, b: Seq<Seq<char>>)
    requires
        a != b,
    ensures
        components_lt(a, b) || components_lt(b, a),
    decreases a.len(),
{
    if a.len() > 0 && b.len() > 0 {
        if a[0] == b[0] {
            if a.drop_first() == b.drop_first() {
                assert(a =~= seq![a[0]] + a.drop_first());
                assert(b =~= seq![b[0]] + b.drop_first());
            }
            lemma_components_lt_total(a.drop_first(), b.drop_first());
        } else {
            lemma_text_lt_total(a[0], b[0]);
        }
    } else if a.len() == 0 && b.len() == 0 {
        assert(a =~= b);
    }
}

fn component_rank_of(c: &str) -> (r: u8)
    ensures
        r as int == component_rank(c@),
{
    if str_eq(c, "/") {
        1
    } else if str_eq(c, ".") {
        2
    } else if str_eq(c, "..") {
        3
    } else {
        4
    }
}

/// `components_lt` on the component lists from `i` on.
fn components_lt_from(a: &Vec<String>, b: &Vec<String>, i: usize) -> (r: bool)
    requires
        i <= a.len(),
        i <= b.len(),
    ensures
        r == components_lt(texts(a@).skip(i as int), texts(b@).skip(i as int)),
    decreases a.len() - i,
{
    if i == a.len() {
        i < b.len()
    } else if i == b.len() {
        false
    } else if !str_eq(a[i].as_str(), b[i].as_str()) {
        let ra = component_rank_of(a[i].as_str());
        let rb = component_rank_of(b[i].as_str());
        ra < rb || (ra == rb && text_less(a[i].as_str(), b[i].as_str()))
    } else {
        assert(texts(a@).skip(i as int).drop_first() =~= texts(a@).skip(i + 1));
        assert(texts(b@).skip(i as int).drop_first() =~= texts(b@).skip(i + 1));
        components_lt_from(a, b, i + 1)
    }
}

fn texts_equal(a: &Vec<String>, b: &Vec<String>) -> (r: bool)
    ensures
        r == (texts(a@) == texts(b@)),
{
    if a.len() != b.len() {
        assert(texts(a@).len() != texts(b@).len());
        return false;
    }
    for k in 0..a.len()
        invariant
            a.len() == b.len(),
            forall|j: int| 0 <= j < k ==> texts(a@)[j] == texts(b@)[j],
    {
        if !str_eq(a[k].as_str(), b[k].as_str()) {
            assert(texts(a@)[k as int] != texts(b@)[k as int]);
            return false;
        }
    }
    assert(texts(a@) =~= texts(b@));
    true
}

/// Compares two textual paths in `Path` order.
pub fn path_less(a: &str, b: &str) -> (r: bool)
    ensures
        r == path_lt(a@, b@),
{
    let ca = components(a);
    let cb = components(b);
    assert(texts(ca@).skip(0) =~= texts(ca@));
    assert(texts(cb@).skip(0) =~= texts(cb@));
    components_lt_from(&ca, &cb, 0)
}

/// Whether two textual paths have the same components.
pub fn same_path_components(a: &str, b: &str) -> (r: bool)
    ensures
        r == same_components(a@, b@),
{
    let ca = components(a);
    let cb = components(b);
    texts_equal(&ca, &cb)
}

/// The report order: by file (as a path, component by component), then
/// line, then rule name.
pub open spec fn div_before(a: Divergence, b: Divergence) -> bool {
    ||| path_lt(a.location.file@, b.location.file@)
    ||| (same_components(a.location.file@, b.location.file@) && a.location.line < b.location.line)
    ||| (same_components(a.location.file@, b.location.file@) && a.location.line == b.location.line
        && text_lt(rule_name(a.rule), rule_name(b.rule)))
}

pub proof fn lemma_div_before_transitive(a: Divergence, b: Divergence, c: Divergence)
    requires
        div_before(a, b),
        div_before(b, c),
    ensures
        div_before(a, c),
{
    let pa = path_components(a.location.file@);
    let pb = path_components(b.location.file@);
    let pc = path_components(c.location.file@);
    if components_lt(pa, pb) && components_lt(pb, pc) {
        lemma_components_lt_transitive(pa, pb, pc);
    }
    if text_lt(rule_name(a.rule), rule_name(b.rule)) && text_lt(rule_name(b.rule), rule_name(c.rule)) {
        lemma_text_lt_transitive(rule_name(a.rule), rule_name(b.rule), rule_name(c.rule));
    }
}

/// Nothing comes before itself in the report order.
pub proof fn lemma_div_before_irreflexive(a: Divergence)
    ensures
        !div_before(a, a),
{
    lemma_components_lt_irreflexive(path_components(a.location.file@));
    lemma_text_lt_irreflexive(rule_name(a.rule));
}

/// No element is ordered before an earlier one.
pub open spec fn sorted_for_report(s: Seq<Divergence>) -> bool {
    forall|i: int, j: int| 0 <= i < j < s.len() ==> !div_before(#[trigger] s[j], #[trigger] s[i])
}

/// What the report order compares: the file's components, the line, the
/// rule name.
pub open spec fn report_key(d: Divergence) -> (Seq<Seq<char>>, u32, Seq<char>) {
    (path_components(d.location.file@), d.location.line, rule_name(d.rule))
}

/// No two divergences share a report key.
pub open spec fn distinct_keys(s: Seq<Divergence>) -> bool {
    forall|i: int, j: int| 0 <= i < j < s.len() ==> report_key(#[trigger] s[i]) != report_key(#[trigger] s[j])
}

proof fn lemma_div_before_total(a: Divergence, b: Divergence)
    requires
        report_key(a) != report_key(b),
    ensures
        div_before(a, b) || div_before(b, a),
{
    let pa = path_components(a.location.file@);
    let pb = path_components(b.location.file@);
    if pa != pb {
        lemma_components_lt_total(pa, pb);
    } else if a.location.line == b.location.line {
        lemma_text_lt_total(rule_name(a.rule), rule_name(b.rule));
    }
}

proof fn lemma_sorted_drop_first(s: Seq<Divergence>)
    requires
        s.len() > 0,
        sorted_for_report(s),
    ensures
        sorted_for_report(s.drop_first()),
{
    let d = s.drop_first();
    assert forall|i: int, j: int| 0 <= i < j < d.len() implies !div_before(#[trigger] d[j], #[trigger] d[i]) by {
        assert(d[j] == s[j + 1] && d[i] == s[i + 1]);
    }
}

/// The report order leaves no choice: two sorted arrangements of the same
/// divergences, no two of which share a file, line and rule, are the same
/// sequence. So the report does not depend on the order in which the
/// analyzers delivered their findings.
pub proof fn lemma_report_order_unique(s1: Seq<Divergence>, s2: Seq<Divergence>)
    requires
        sorted_for_report(s1),
        sorted_for_report(s2),
        s1.to_multiset() == s2.to_multiset(),
        distinct_keys(s1),
    ensures
        s1 == s2,
    decreases s1.len(),
{
    broadcast use vstd::seq_lib::group_to_multiset_ensures;

    assert(s1.len() == s2.len()) by {
        vstd::seq_lib::to_multiset_len(s1);
        vstd::seq_lib::to_multiset_len(s2);
    }
    if s1.len() == 0 {
        assert(s1 =~= s2);
    } else {
        let a = s1[0];
        let b = s2[0];
        if a != b {
            assert(s2.contains(b));
            assert(s2.to_multiset().count(b) > 0);
            assert(s1.contains(b));
            let k = choose|k: int| 0 <= k < s1.len() && s1[k] == b;
            assert(s1.contains(a));
            assert(s1.to_multiset().count(a) > 0);
            assert(s2.contains(a));
            let m = choose|m: int| 0 <= m < s2.len() && s2[m] == a;
            assert(k > 0 && m > 0);
            assert(!div_before(s1[k], s1[0]));
            assert(!div_before(s2[m], s2[0]));
            assert(report_key(s1[0]) != report_key(s1[k]));
            lemma_div_before_total(a, b);
        }
        let r1 = s1.drop_first();
        let r2 = s2.drop_first();
        assert(r1 == s1.remove(0));
        assert(r2 == s2.remove(0));
        assert(r1.to_multiset() == r2.to_multiset());
        lemma_sorted_drop_first(s1);
        lemma_sorted_drop_first(s2);
        assert forall|i: int, j: int| 0 <= i < j < r1.len() implies report_key(#[trigger] r1[i]) != report_key(#[trigger] r1[j]) by {
            assert(r1[i] == s1[i + 1] && r1[j] == s1[j + 1]);
        }
        lemma_report_order_unique(r1, r2);
        assert(s1 =~= seq![a] + r1);
        assert(s2 =~= seq![b] + r2);
    }
}

fn before(a: &Divergence, b: &Divergence) -> (r: bool)
    ensures
        r == div_before(*a, *b),
{
    if path_less(a.location.file.as_str(), b.location.file.as_str()) {
        return true;
    }
    if !same_path_components(a.location.file.as_str(), b.location.file.as_str()) {
        return false;
    }
    if a.location.line != b.location.line {
        return a.location.line < b.location.line;
    }
    text_less(a.rule.as_str(), b.rule.as_str())
}

/// Sort divergences by `(file, line, rule)` so that output can be diffed
/// between runs. Equal keys keep their input order.
pub fn sort_divergences(divs: Vec<Divergence>) -> (out: Vec<Divergence>)
    ensures
        sorted_for_report(out@),
        out@.to_multiset() == divs@.to_multiset(),
{
    let mut out: Vec<Divergence> = Vec::new();
    assert(divs@.take(0) =~= out@);
    for i in 0..divs.len()
        invariant
            sorted_for_report(out@),
            out@.to_multiset() == divs@.take(i as int).to_multiset(),
            i <= divs.len(),
    {
        let x = divs[i].duplicate();
        let mut p: usize = 0;
        while p < out.len() && !before(&x, &out[p])
            invariant
                p <= out.len(),
                i < divs.len(),
                x == divs@[i as int],
                forall|k: int| 0 <= k < p ==> !div_before(x, #[trigger] out@[k]),
            decreases out.len() - p,
        {
            p = p + 1;
        }
        let ghost old_out = out@;
        out.insert(p, x);
        proof {
            assert(divs@.take(i + 1) =~= divs@.take(i as int).push(divs@[i as int]));
            assert(out@ == old_out.insert(p as int, x));
            vstd::seq_lib::to_multiset_insert(old_out, p as int, x);
            vstd::seq_lib::to_multiset_build(divs@.take(i as int), x);
            assert forall|a: int, b: int| 0 <= a < b < out@.len() implies !div_before(
                #[trigger] out@[b],
                #[trigger] out@[a],
            ) by {
                if a < p && b == p {
                } else if a == p && b > p {
                    let y = old_out[b - 1];
                    if div_before(y, x) {
                        // x comes before old_out[p], which is not before y
                        assert(div_before(x, old_out[p as int]));
                        assert(p == b - 1 || !div_before(old_out[b - 1], old_out[p as int]));
                        if p < b - 1 {
                            lemma_div_before_transitive(y, x, old_out[p as int]);
                        } else {
                            lemma_div_before_transitive(y, x, y);
                            lemma_div_before_irreflexive(y);
                        }
                    }
                } else if a < p && b > p {
                    assert(out@[a] == old_out[a]);
                    assert(out@[b] == old_out[b - 1]);
                } else if a > p {
                    assert(out@[a] == old_out[a - 1]);
                    assert(out@[b] == old_out[b - 1]);
                } else {
                    assert(out@[a] == old_out[a]);
                    assert(out@[b] == old_out[b]);
                }
            }
        }
    }
    assert(divs@.take(divs.len() as int) =~= divs@);
    out
}

// ---------------------------------------------------------------------------
// Strict mode and root-relative locations
// ---------------------------------------------------------------------------

/// What `--strict` does to one divergence: non-deterministic rules move one
/// severity level up; deterministic ones stay.
pub open spec fn strict_one(d: Divergence) -> Divergence {
    if rule_confidence(d.rule) != Confidence::Deterministic {
        Divergence { severity: severity_promoted(d.severity), ..d }
    } else {
        d
    }
}

/// `--strict` never lowers a severity, so a run that blocks at some `--deny`
/// threshold still blocks at it in strict mode.
pub proof fn lemma_strict_keeps_blocking(divs: Seq<Divergence>, deny: Severity)
    requires
        blocking(divs, deny),
    ensures
        blocking(divs.map_values(|d: Divergence| strict_one(d)), deny),
{
    let k = choose|k: int| 0 <= k < divs.len() && severity_rank(#[trigger] divs[k].severity) >= severity_rank(deny);
    crate::domain::lemma_promoted_never_lowers(divs[k].severity);
    let sd = divs.map_values(|d: Divergence| strict_one(d));
    assert(severity_rank(sd[k].severity) >= severity_rank(deny));
}

/// `--strict` leaves the divergences of deterministic rules untouched and
/// moves every other one exactly one step up, saturating at `Critical`.
pub proof fn lemma_strict_promotes_only_heuristics(d: Divergence)
    ensures
        rule_confidence(d.rule) == Confidence::Deterministic ==> strict_one(d) == d,
        rule_confidence(d.rule) != Confidence::Deterministic ==> severity_rank(strict_one(d).severity)
            == if severity_rank(d.severity) < 2 { severity_rank(d.severity) + 1 } else { 2 },
        strict_one(d).rule == d.rule && strict_one(d).location == d.location,
{
}

/// Promote every non-deterministic divergence one severity level. Mirrors the
/// `--strict` CLI flag.
pub fn apply_strict(divs: Vec<Divergence>) -> (out: Vec<Divergence>)
    ensures
        out@ == divs@.map_values(|d: Divergence| strict_one(d)),
{
    let mut out: Vec<Divergence> = Vec::new();
    for i in 0..divs.len()
        invariant
            out@ == divs@.take(i as int).map_values(|d: Divergence| strict_one(d)),
    {
        let mut d = divs[i].duplicate();
        if d.rule.confidence() != Confidence::Deterministic {
            d.severity = d.severity.promoted();
        }
        out.push(d);
        assert(divs@.take(i + 1) =~= divs@.take(i as int).push(divs@[i as int]));
    }
    assert(divs@.take(divs.len() as int) =~= divs@);
    out
}

/// `out` is `d` with its file replaced by its path relative to `root`, when
/// `root` is a prefix of it, and `d` otherwise.
pub open spec fn made_relative(out: Divergence, d: Divergence, root: Seq<char>) -> bool {
    &&& out.rule == d.rule
    &&& out.severity == d.severity
    &&& out.location.line == d.location.line
    &&& out.stated == d.stated
    &&& out.reality == d.reality
    &&& out.risk == d.risk
    &&& out.attribution == d.attribution
    &&& match path_strip_prefix(d.location.file@, root) {
        Some(rel) => out.location.file@ == rel,
        None => out.location.file == d.location.file,
    }
}

/// Render and baseline locations relative to the workspace root when possible.
pub fn normalize_locations(divs: Vec<Divergence>, root: &str) -> (out: Vec<Divergence>)
    ensures
        out.len() == divs.len(),
        forall|i: int| 0 <= i < divs.len() ==> made_relative(#[trigger] out[i], divs[i], root@),
{
    let mut out: Vec<Divergence> = Vec::new();
    for i in 0..divs.len()
        invariant
            out.len() == i,
            forall|k: int| 0 <= k < i ==> made_relative(#[trigger] out[k], divs[k], root@),
    {
        let mut d = divs[i].duplicate();
        match strip_prefix(d.location.file.as_str(), root) {
            Some(rel) => {
                d.location.file = rel;
            },
            None => {},
        }
        out.push(d);
    }
    out
}

// ---------------------------------------------------------------------------
// Diff scoping (`--diff`)
// ---------------------------------------------------------------------------

/// Some changed path equals `p` (as paths).
pub open spec fn among(changed: Seq<String>, p: Seq<char>) -> bool {
    exists|k: int| 0 <= k < changed.len() && same_components(#[trigger] changed[k]@, p)
}

/// A `.rs` file under `root` outside any `tests` or `examples` directory.
pub open spec fn rust_implementation_path(root: Seq<char>, path: Seq<char>) -> bool {
    let rel = match path_strip_prefix(path, root) {
        Some(r) => r,
        None => path,
    };
    &&& path_extension(path) == Some("rs"@)
    &&& !path_components(rel).contains("tests"@)
    &&& !path_components(rel).contains("examples"@)
}

/// A path whose file name is `Cargo.toml`.
pub open spec fn cargo_manifest_path(path: Seq<char>) -> bool {
    path_file_name(path) == Some("Cargo.toml"@)
}

/// The files a `--diff` run was narrowed to, and what kinds of files changed.
pub struct DiffScope {
    pub changed: Vec<String>,
    pub implementation_changed: bool,
    pub cargo_metadata_changed: bool,
}

fn contains_text(v: &Vec<String>, t: &str) -> (b: bool)
    ensures
        b == v@.map_values(|s: String| s@).contains(t@),
{
    let ghost vs = v@.map_values(|s: String| s@);
    for k in 0..v.len()
        invariant
            vs == v@.map_values(|s: String| s@),
            forall|j: int| 0 <= j < k ==> vs[j] != t@,
    {
        if str_eq(v[k].as_str(), t) {
            assert(vs[k as int] == t@);
            return true;
        }
    }
    false
}

/// A `.rs` file outside `tests/` and `examples/` (relative to `root`).
pub fn is_rust_implementation_path(root: &str, path: &str) -> (b: bool)
    ensures
        b == rust_implementation_path(root@, path@),
{
    match extension(path) {
        Some(e) => {
            if !str_eq(e.as_str(), "rs") {
                return false;
            }
        },
        None => {
            return false;
        },
    }
    let rel = match strip_prefix(path, root) {
        Some(r) => r,
        None => path.to_owned(),
    };
    let comps = components(rel.as_str());
    !contains_text(&comps, "tests") && !contains_text(&comps, "examples")
}

/// A path naming a `Cargo.toml`.
pub fn is_cargo_manifest_path(path: &str) -> (b: bool)
    ensures
        b == cargo_manifest_path(path@),
{
    match file_name(path) {
        Some(n) => str_eq(n.as_str(), "Cargo.toml"),
        None => false,
    }
}

impl DiffScope {
    pub open spec fn wf(&self, root: Seq<char>) -> bool {
        &&& self.implementation_changed == (exists|k: int|
            0 <= k < self.changed.len() && rust_implementation_path(root, #[trigger] self.changed@[k]@))
        &&& self.cargo_metadata_changed == (exists|k: int|
            0 <= k < self.changed.len() && cargo_manifest_path(#[trigger] self.changed@[k]@))
    }

    pub fn new(root: &str, changed: Vec<String>) -> (s: DiffScope)
        ensures
            s.changed@ == changed@,
            s.wf(root@),
    {
        let mut implementation_changed = false;
        let mut cargo_metadata_changed = false;
        for k in 0..changed.len()
            invariant
                implementation_changed == (exists|j: int|
                    0 <= j < k && rust_implementation_path(root@, #[trigger] changed@[j]@)),
                cargo_metadata_changed == (exists|j: int|
                    0 <= j < k && cargo_manifest_path(#[trigger] changed@[j]@)),
        {
            if is_rust_implementation_path(root, changed[k].as_str()) {
                implementation_changed = true;
            }
            if is_cargo_manifest_path(changed[k].as_str()) {
                cargo_metadata_changed = true;
            }
        }
        let s = DiffScope { changed, implementation_changed, cargo_metadata_changed };
        assert(s.changed@ == changed@);
        s
    }
}

/// The divergence's file is among the changed files: as given, joined to the
/// root when relative, or relative to the root when under it.
pub open spec fn in_changed_file(file: Seq<char>, root: Seq<char>, changed: Seq<String>) -> bool {
    if among(changed, file) {
        true
    } else if !path_is_absolute(file) {
        among(changed, path_join(root, file))
    } else {
        match path_strip_prefix(file, root) {
            Some(rel) => among(changed, rel),
            None => false,
        }
    }
}

/// Which rules a change to the implementation or to Cargo metadata can
/// produce even in files the diff did not touch.
pub open spec fn diff_induced(rule: RuleId, implementation_changed: bool, cargo_changed: bool) -> bool {
    match rule {
        RuleId::SymbolAbsence | RuleId::CompileFailure | RuleId::DeprecatedUsage
        | RuleId::OutdatedLogic | RuleId::LogicGap => implementation_changed || cargo_changed,
        RuleId::ConstraintViolation => implementation_changed,
        RuleId::GhostCommand => cargo_changed,
        RuleId::MissingCoverage | RuleId::LyingTest | RuleId::EnvMismatch => false,
    }
}

/// A divergence survives `--diff` scoping.
pub open spec fn kept_by_scope(d: Divergence, root: Seq<char>, scope: DiffScope) -> bool {
    in_changed_file(d.location.file@, root, scope.changed@)
        || diff_induced(d.rule, scope.implementation_changed, scope.cargo_metadata_changed)
}

fn among_changed(changed: &Vec<String>, p: &str) -> (b: bool)
    ensures
        b == among(changed@, p@),
{
    for k in 0..changed.len()
        invariant
            forall|j: int| 0 <= j < k ==> !same_components(#[trigger] changed@[j]@, p@),
    {
        if same_path_components(changed[k].as_str(), p) {
            return true;
        }
    }
    false
}

pub fn divergence_is_in_changed_file(d: &Divergence, root: &str, changed: &Vec<String>) -> (b: bool)
    ensures
        b == in_changed_file(d.location.file@, root@, changed@),
{
    let file = d.location.file.as_str();
    if among_changed(changed, file) {
        return true;
    }
    if !is_absolute(file) {
        let joined = join(root, file);
        return among_changed(changed, joined.as_str());
    }
    match strip_prefix(file, root) {
        Some(rel) => among_changed(changed, rel.as_str()),
        None => false,
    }
}

pub fn could_be_diff_induced(d: &Divergence, scope: &DiffScope) -> (b: bool)
    ensures
        b == diff_induced(d.rule, scope.implementation_changed, scope.cargo_metadata_changed),
{
    match d.rule {
        RuleId::SymbolAbsence | RuleId::CompileFailure | RuleId::DeprecatedUsage
        | RuleId::OutdatedLogic | RuleId::LogicGap => scope.implementation_changed
            || scope.cargo_metadata_changed,
        RuleId::ConstraintViolation => scope.implementation_changed,
        RuleId::GhostCommand => scope.cargo_metadata_changed,
        RuleId::MissingCoverage | RuleId::LyingTest | RuleId::EnvMismatch => false,
    }
}

/// Keep the divergences in changed files, and those a change elsewhere could
/// have caused; order is kept.
pub fn filter_to_diff_scope(divs: Vec<Divergence>, root: &str, scope: &DiffScope) -> (out: Vec<
    Divergence,
>)
    ensures
        out@ == divs@.filter(|d: Divergence| kept_by_scope(d, root@, *scope)),
{
    let ghost pred = |d: Divergence| kept_by_scope(d, root@, *scope);
    let mut out: Vec<Divergence> = Vec::new();
    for i in 0..divs.len()
        invariant
            pred == (|d: Divergence| kept_by_scope(d, root@, *scope)),
            out@ == divs@.take(i as int).filter(pred),
    {
        let keep = divergence_is_in_changed_file(&divs[i], root, &scope.changed)
            || could_be_diff_induced(&divs[i], scope);
        proof {
            assert(divs@.take(i + 1).drop_last() =~= divs@.take(i as int));
            reveal(Seq::filter);
        }
        if keep {
            out.push(divs[i].duplicate());
        }
    }
    assert(divs@.take(divs.len() as int) =~= divs@);
    out
}

// ---------------------------------------------------------------------------
// Gate decisions
// ---------------------------------------------------------------------------

/// Some divergence is at or above the `deny` threshold.
pub open spec fn blocking(divs: Seq<Divergence>, deny: Severity) -> bool {
    exists|k: int| 0 <= k < divs.len() && severity_rank(#[trigger] divs[k].severity) >= severity_rank(deny)
}

/// The run fails (exit code 1) exactly when some divergence reaches `deny`.
pub fn has_blocking(divs: &Vec<Divergence>, deny: Severity) -> (b: bool)
    ensures
        b == blocking(divs@, deny),
{
    for k in 0..divs.len()
        invariant
            forall|j: int| 0 <= j < k ==> severity_rank(#[trigger] divs@[j].severity) < severity_rank(deny),
    {
        if divs[k].severity.at_least(&deny) {
            return true;
        }
    }
    false
}

/// A corrected file is kept only when re-analysis finds no compile failure
/// and nothing critical.
pub open spec fn validation_clean(divs: Seq<Divergence>) -> bool {
    forall|k: int| 0 <= k < divs.len() ==> (#[trigger] divs[k]).rule != RuleId::CompileFailure
        && divs[k].severity != Severity::Critical
}

pub fn validation_passes(divs: &Vec<Divergence>) -> (b: bool)
    ensures
        b == validation_clean(divs@),
{
    for k in 0..divs.len()
        invariant
            forall|j: int| 0 <= j < k ==> (#[trigger] divs@[j]).rule != RuleId::CompileFailure
                && divs@[j].severity != Severity::Critical,
    {
        if divs[k].rule == RuleId::CompileFailure || divs[k].severity == Severity::Critical {
            return false;
        }
    }
    true
}

// ---------------------------------------------------------------------------
// Analyzer selection
// ---------------------------------------------------------------------------

/// Pillar selection mirrors the CLI `--docs` / `--examples` / `--tests` / `--ci` flags.
#[derive(Debug, Clone, Copy, PartialEq, Eq, Structural)]
pub enum Pillar {
    All,
    Docs,
    Examples,
    Tests,
    Ci,
}

/// The analyzers a run can use.
#[derive(Debug, Clone, Copy, PartialEq, Eq, Structural)]
pub enum AnalyzerKind {
    Docs,
    MissingCoverage,
    Constraint,
    OutdatedLogic,
    Examples,
    DeprecatedUsage,
    LogicGap,
    Tests,
    Ci,
    EnvMismatch,
}

pub open spec fn docs_plan(has_constraints: bool) -> Seq<AnalyzerKind> {
    if has_constraints {
        seq![AnalyzerKind::Docs, AnalyzerKind::MissingCoverage, AnalyzerKind::Constraint,
            AnalyzerKind::OutdatedLogic]
    } else {
        seq![AnalyzerKind::Docs, AnalyzerKind::MissingCoverage, AnalyzerKind::OutdatedLogic]
    }
}

pub open spec fn examples_plan() -> Seq<AnalyzerKind> {
    seq![AnalyzerKind::Examples, AnalyzerKind::DeprecatedUsage, AnalyzerKind::LogicGap]
}

pub open spec fn ci_plan() -> Seq<AnalyzerKind> {
    seq![AnalyzerKind::Ci, AnalyzerKind::EnvMismatch]
}

/// The analyzers of a pillar, in the order they run.
pub open spec fn plan_for(pillar: Pillar, has_constraints: bool) -> Seq<AnalyzerKind> {
    match pillar {
        Pillar::All => docs_plan(has_constraints) + examples_plan() + seq![AnalyzerKind::Tests]
            + ci_plan(),
        Pillar::Docs => docs_plan(has_constraints),
        Pillar::Examples => examples_plan(),
        Pillar::Tests => seq![AnalyzerKind::Tests],
        Pillar::Ci => ci_plan(),
    }
}

/// The analyzer list for the selected pillar; the constraint analyzer only
/// runs when the configuration has constraint rules.
pub fn analyzer_plan(pillar: Pillar, has_constraints: bool) -> (v: Vec<AnalyzerKind>)
    ensures
        v@ == plan_for(pillar, has_constraints),
{
    let docs = pillar == Pillar::All || pillar == Pillar::Docs;
    let examples = pillar == Pillar::All || pillar == Pillar::Examples;
    let tests = pillar == Pillar::All || pillar == Pillar::Tests;
    let ci = pillar == Pillar::All || pillar == Pillar::Ci;
    let mut v: Vec<AnalyzerKind> = Vec::new();
    if docs {
        v.push(AnalyzerKind::Docs);
        v.push(AnalyzerKind::MissingCoverage);
        if has_constraints {
            v.push(AnalyzerKind::Constraint);
        }
        v.push(AnalyzerKind::OutdatedLogic);
    }
    if examples {
        v.push(AnalyzerKind::Examples);
        v.push(AnalyzerKind::DeprecatedUsage);
        v.push(AnalyzerKind::LogicGap);
    }
    if tests {
        v.push(AnalyzerKind::Tests);
    }
    if ci {
        v.push(AnalyzerKind::Ci);
        v.push(AnalyzerKind::EnvMismatch);
    }
    assert(v@ =~= plan_for(pillar, has_constraints));
    v
}

} // verus!
