//! `env_mismatch`: system packages the README requires that CI never installs.
use vstd::prelude::*;
use crate::analyzers::analyzer::DriftAnalyzer;
use crate::analyzers::ci::{is_workflow_path, workflow_path};
use crate::analyzers::constraint::{append_findings, opt_seq, push_finding};
use crate::analyzers::coverage::{file_claims, ClaimAt};
use crate::context::{lemma_source_fits, source_for, ProjectContext};
use crate::domain::{are_findings, finding, is_finding, Divergence, Finding, RuleId, Severity};
use crate::parsers::markdown::{claims_from, markdown_events, MarkdownParser};
use crate::patterns::{capture, is_match, regex_group, regex_matches};
use crate::text::{
    chars_of, is_alphanumeric, is_whitespace, lines_of, lower_chars, lower_seq, push_str, slice_chars,
    split_lines, str_eq, string_of, texts, trim, trim_seq, unicode_alphanumeric, unicode_whitespace,
    views,
};

verus! {

/// EnvMismatchAnalyzer — enforces `env_mismatch` (heuristic, Notice).
///
/// System-package names mentioned in Markdown inline code spans must be
/// installed by some `.github/workflows/*` install line (`apt-get install`,
/// `apk add`, `yum install`, `dnf install`, `brew install`), directly or
/// under a known cross-distro equivalent like `libssl-dev` ≡
/// `openssl-devel`.
pub struct EnvMismatchAnalyzer;

pub open spec fn equivalence_class_0() -> Seq<Seq<char>> {
    seq!["libssl-dev"@, "openssl-dev"@, "openssl-devel"@]
}

pub open spec fn equivalence_class_1() -> Seq<Seq<char>> {
    seq!["libpq-dev"@, "postgresql-dev"@, "postgresql-devel"@]
}

pub open spec fn equivalence_class_2() -> Seq<Seq<char>> {
    seq!["zlib1g-dev"@, "zlib-dev"@, "zlib-devel"@]
}

pub open spec fn equivalence_class_3() -> Seq<Seq<char>> {
    seq!["libsqlite3-dev"@, "sqlite-dev"@, "sqlite-devel"@]
}

pub open spec fn equivalence_class_4() -> Seq<Seq<char>> {
    seq!["libcurl4-openssl-dev"@, "libcurl-dev"@, "curl-dev"@, "libcurl-devel"@]
}

pub open spec fn equivalence_class_5() -> Seq<Seq<char>> {
    seq!["pkg-config"@, "pkgconf"@, "pkgconfig"@]
}

pub open spec fn equivalence_class_6() -> Seq<Seq<char>> {
    seq!["build-essential"@, "base-devel"@, "Development Tools"@]
}

pub open spec fn equivalence_class_7() -> Seq<Seq<char>> {
    seq!["libxml2-dev"@, "libxml2-devel"@]
}

pub open spec fn equivalence_class_8() -> Seq<Seq<char>> {
    seq!["libffi-dev"@, "libffi-devel"@]
}

/// Some member of `class` equals `lower` ignoring ASCII case.
pub open spec fn in_class(class: Seq<Seq<char>>, lower: Seq<char>) -> bool {
    exists|k: int| 0 <= k < class.len() && lower_seq(#[trigger] class[k]) == lower
}

/// The cross-distro equivalence class of a package name (ASCII case
/// ignored); empty when it has none.
pub open spec fn canonical_class(name: Seq<char>) -> Seq<Seq<char>> {
    let l = lower_seq(name);
    if in_class(equivalence_class_0(), l) {
        equivalence_class_0()
    } else     if in_class(equivalence_class_1(), l) {
        equivalence_class_1()
    } else     if in_class(equivalence_class_2(), l) {
        equivalence_class_2()
    } else     if in_class(equivalence_class_3(), l) {
        equivalence_class_3()
    } else     if in_class(equivalence_class_4(), l) {
        equivalence_class_4()
    } else     if in_class(equivalence_class_5(), l) {
        equivalence_class_5()
    } else     if in_class(equivalence_class_6(), l) {
        equivalence_class_6()
    } else     if in_class(equivalence_class_7(), l) {
        equivalence_class_7()
    } else     if in_class(equivalence_class_8(), l) {
        equivalence_class_8()
    } else {
        Seq::empty()
    }
}

fn lower_eq(l: &Vec<char>, n: &str) -> (b: bool)
    ensures
        b == (lower_seq(n@) == l@),
{
    let m = lower_chars(&chars_of(n));
    if m.len() != l.len() {
        return false;
    }
    for k in 0..m.len()
        invariant
            m.len() == l.len(),
            m@ == lower_seq(n@),
            forall|j: int| 0 <= j < k ==> m@[j] == l@[j],
    {
        if m[k] != l[k] {
            assert(m@[k as int] != l@[k as int]);
            return false;
        }
    }
    assert(m@ =~= l@);
    true
}

/// The names equivalent to `name` (its class), or none.
#[verifier::rlimit(60)]
pub fn canonical_forms(name: &str) -> (r: Vec<&'static str>)
    ensures
        r@.map_values(|s: &str| s@) == canonical_class(name@),
{
    let l = lower_chars(&chars_of(name));
    if lower_eq(&l, "libssl-dev") || lower_eq(&l, "openssl-dev") || lower_eq(&l, "openssl-devel") {
        proof {
            assert(in_class(equivalence_class_0(), l@)) by {
                if lower_seq("libssl-dev"@) == l@ { assert(equivalence_class_0()[0] == "libssl-dev"@); } if lower_seq("openssl-dev"@) == l@ { assert(equivalence_class_0()[1] == "openssl-dev"@); } if lower_seq("openssl-devel"@) == l@ { assert(equivalence_class_0()[2] == "openssl-devel"@); }
            }
        }
        let mut v: Vec<&'static str> = Vec::new();
        v.push("libssl-dev");
        v.push("openssl-dev");
        v.push("openssl-devel");
        proof {
            assert(v@.map_values(|s: &str| s@) =~= equivalence_class_0());
        }
        return v;
    }
    proof {
        assert(!in_class(equivalence_class_0(), l@)) by {
            if in_class(equivalence_class_0(), l@) {
                let k = choose|k: int| 0 <= k < equivalence_class_0().len() && lower_seq(equivalence_class_0()[k]) == l@;
                if k == 0 { assert(equivalence_class_0()[0] == "libssl-dev"@); } if k == 1 { assert(equivalence_class_0()[1] == "openssl-dev"@); } if k == 2 { assert(equivalence_class_0()[2] == "openssl-devel"@); }
            }
        }
    }
    if lower_eq(&l, "libpq-dev") || lower_eq(&l, "postgresql-dev") || lower_eq(&l, "postgresql-devel") {
        proof {
            assert(in_class(equivalence_class_1(), l@)) by {
                if lower_seq("libpq-dev"@) == l@ { assert(equivalence_class_1()[0] == "libpq-dev"@); } if lower_seq("postgresql-dev"@) == l@ { assert(equivalence_class_1()[1] == "postgresql-dev"@); } if lower_seq("postgresql-devel"@) == l@ { assert(equivalence_class_1()[2] == "postgresql-devel"@); }
            }
        }
        let mut v: Vec<&'static str> = Vec::new();
        v.push("libpq-dev");
        v.push("postgresql-dev");
        v.push("postgresql-devel");
        proof {
            assert(v@.map_values(|s: &str| s@) =~= equivalence_class_1());
        }
        return v;
    }
    proof {
        assert(!in_class(equivalence_class_1(), l@)) by {
            if in_class(equivalence_class_1(), l@) {
                let k = choose|k: int| 0 <= k < equivalence_class_1().len() && lower_seq(equivalence_class_1()[k]) == l@;
                if k == 0 { assert(equivalence_class_1()[0] == "libpq-dev"@); } if k == 1 { assert(equivalence_class_1()[1] == "postgresql-dev"@); } if k == 2 { assert(equivalence_class_1()[2] == "postgresql-devel"@); }
            }
        }
    }
    if lower_eq(&l, "zlib1g-dev") || lower_eq(&l, "zlib-dev") || lower_eq(&l, "zlib-devel") {
        proof {
            assert(in_class(equivalence_class_2(), l@)) by {
                if lower_seq("zlib1g-dev"@) == l@ { assert(equivalence_class_2()[0] == "zlib1g-dev"@); } if lower_seq("zlib-dev"@) == l@ { assert(equivalence_class_2()[1] == "zlib-dev"@); } if lower_seq("zlib-devel"@) == l@ { assert(equivalence_class_2()[2] == "zlib-devel"@); }
            }
        }
        let mut v: Vec<&'static str> = Vec::new();
        v.push("zlib1g-dev");
        v.push("zlib-dev");
        v.push("zlib-devel");
        proof {
            assert(v@.map_values(|s: &str| s@) =~= equivalence_class_2());
        }
        return v;
    }
    proof {
        assert(!in_class(equivalence_class_2(), l@)) by {
            if in_class(equivalence_class_2(), l@) {
                let k = choose|k: int| 0 <= k < equivalence_class_2().len() && lower_seq(equivalence_class_2()[k]) == l@;
                if k == 0 { assert(equivalence_class_2()[0] == "zlib1g-dev"@); } if k == 1 { assert(equivalence_class_2()[1] == "zlib-dev"@); } if k == 2 { assert(equivalence_class_2()[2] == "zlib-devel"@); }
            }
        }
    }
    if lower_eq(&l, "libsqlite3-dev") || lower_eq(&l, "sqlite-dev") || lower_eq(&l, "sqlite-devel") {
        proof {
            assert(in_class(equivalence_class_3(), l@)) by {
                if lower_seq("libsqlite3-dev"@) == l@ { assert(equivalence_class_3()[0] == "libsqlite3-dev"@); } if lower_seq("sqlite-dev"@) == l@ { assert(equivalence_class_3()[1] == "sqlite-dev"@); } if lower_seq("sqlite-devel"@) == l@ { assert(equivalence_class_3()[2] == "sqlite-devel"@); }
            }
        }
        let mut v: Vec<&'static str> = Vec::new();
        v.push("libsqlite3-dev");
        v.push("sqlite-dev");
        v.push("sqlite-devel");
        proof {
            assert(v@.map_values(|s: &str| s@) =~= equivalence_class_3());
        }
        return v;
    }
    proof {
        assert(!in_class(equivalence_class_3(), l@)) by {
            if in_class(equivalence_class_3(), l@) {
                let k = choose|k: int| 0 <= k < equivalence_class_3().len() && lower_seq(equivalence_class_3()[k]) == l@;
                if k == 0 { assert(equivalence_class_3()[0] == "libsqlite3-dev"@); } if k == 1 { assert(equivalence_class_3()[1] == "sqlite-dev"@); } if k == 2 { assert(equivalence_class_3()[2] == "sqlite-devel"@); }
            }
        }
    }
    if lower_eq(&l, "libcurl4-openssl-dev") || lower_eq(&l, "libcurl-dev") || lower_eq(&l, "curl-dev") || lower_eq(&l, "libcurl-devel") {
        proof {
            assert(in_class(equivalence_class_4(), l@)) by {
                if lower_seq("libcurl4-openssl-dev"@) == l@ { assert(equivalence_class_4()[0] == "libcurl4-openssl-dev"@); } if lower_seq("libcurl-dev"@) == l@ { assert(equivalence_class_4()[1] == "libcurl-dev"@); } if lower_seq("curl-dev"@) == l@ { assert(equivalence_class_4()[2] == "curl-dev"@); } if lower_seq("libcurl-devel"@) == l@ { assert(equivalence_class_4()[3] == "libcurl-devel"@); }
            }
        }
        let mut v: Vec<&'static str> = Vec::new();
        v.push("libcurl4-openssl-dev");
        v.push("libcurl-dev");
        v.push("curl-dev");
        v.push("libcurl-devel");
        proof {
            assert(v@.map_values(|s: &str| s@) =~= equivalence_class_4());
        }
        return v;
    }
    proof {
        assert(!in_class(equivalence_class_4(), l@)) by {
            if in_class(equivalence_class_4(), l@) {
                let k = choose|k: int| 0 <= k < equivalence_class_4().len() && lower_seq(equivalence_class_4()[k]) == l@;
                if k == 0 { assert(equivalence_class_4()[0] == "libcurl4-openssl-dev"@); } if k == 1 { assert(equivalence_class_4()[1] == "libcurl-dev"@); } if k == 2 { assert(equivalence_class_4()[2] == "curl-dev"@); } if k == 3 { assert(equivalence_class_4()[3] == "libcurl-devel"@); }
            }
        }
    }
    if lower_eq(&l, "pkg-config") || lower_eq(&l, "pkgconf") || lower_eq(&l, "pkgconfig") {
        proof {
            assert(in_class(equivalence_class_5(), l@)) by {
                if lower_seq("pkg-config"@) == l@ { assert(equivalence_class_5()[0] == "pkg-config"@); } if lower_seq("pkgconf"@) == l@ { assert(equivalence_class_5()[1] == "pkgconf"@); } if lower_seq("pkgconfig"@) == l@ { assert(equivalence_class_5()[2] == "pkgconfig"@); }
            }
        }
        let mut v: Vec<&'static str> = Vec::new();
        v.push("pkg-config");
        v.push("pkgconf");
        v.push("pkgconfig");
        proof {
            assert(v@.map_values(|s: &str| s@) =~= equivalence_class_5());
        }
        return v;
    }
    proof {
        assert(!in_class(equivalence_class_5(), l@)) by {
            if in_class(equivalence_class_5(), l@) {
                let k = choose|k: int| 0 <= k < equivalence_class_5().len() && lower_seq(equivalence_class_5()[k]) == l@;
                if k == 0 { assert(equivalence_class_5()[0] == "pkg-config"@); } if k == 1 { assert(equivalence_class_5()[1] == "pkgconf"@); } if k == 2 { assert(equivalence_class_5()[2] == "pkgconfig"@); }
            }
        }
    }
    if lower_eq(&l, "build-essential") || lower_eq(&l, "base-devel") || lower_eq(&l, "Development Tools") {
        proof {
            assert(in_class(equivalence_class_6(), l@)) by {
                if lower_seq("build-essential"@) == l@ { assert(equivalence_class_6()[0] == "build-essential"@); } if lower_seq("base-devel"@) == l@ { assert(equivalence_class_6()[1] == "base-devel"@); } if lower_seq("Development Tools"@) == l@ { assert(equivalence_class_6()[2] == "Development Tools"@); }
            }
        }
        let mut v: Vec<&'static str> = Vec::new();
        v.push("build-essential");
        v.push("base-devel");
        v.push("Development Tools");
        proof {
            assert(v@.map_values(|s: &str| s@) =~= equivalence_class_6());
        }
        return v;
    }
    proof {
        assert(!in_class(equivalence_class_6(), l@)) by {
            if in_class(equivalence_class_6(), l@) {
                let k = choose|k: int| 0 <= k < equivalence_class_6().len() && lower_seq(equivalence_class_6()[k]) == l@;
                if k == 0 { assert(equivalence_class_6()[0] == "build-essential"@); } if k == 1 { assert(equivalence_class_6()[1] == "base-devel"@); } if k == 2 { assert(equivalence_class_6()[2] == "Development Tools"@); }
            }
        }
    }
    if lower_eq(&l, "libxml2-dev") || lower_eq(&l, "libxml2-devel") {
        proof {
            assert(in_class(equivalence_class_7(), l@)) by {
                if lower_seq("libxml2-dev"@) == l@ { assert(equivalence_class_7()[0] == "libxml2-dev"@); } if lower_seq("libxml2-devel"@) == l@ { assert(equivalence_class_7()[1] == "libxml2-devel"@); }
            }
        }
        let mut v: Vec<&'static str> = Vec::new();
        v.push("libxml2-dev");
        v.push("libxml2-devel");
        proof {
            assert(v@.map_values(|s: &str| s@) =~= equivalence_class_7());
        }
        return v;
    }
    proof {
        assert(!in_class(equivalence_class_7(), l@)) by {
            if in_class(equivalence_class_7(), l@) {
                let k = choose|k: int| 0 <= k < equivalence_class_7().len() && lower_seq(equivalence_class_7()[k]) == l@;
                if k == 0 { assert(equivalence_class_7()[0] == "libxml2-dev"@); } if k == 1 { assert(equivalence_class_7()[1] == "libxml2-devel"@); }
            }
        }
    }
    if lower_eq(&l, "libffi-dev") || lower_eq(&l, "libffi-devel") {
        proof {
            assert(in_class(equivalence_class_8(), l@)) by {
                if lower_seq("libffi-dev"@) == l@ { assert(equivalence_class_8()[0] == "libffi-dev"@); } if lower_seq("libffi-devel"@) == l@ { assert(equivalence_class_8()[1] == "libffi-devel"@); }
            }
        }
        let mut v: Vec<&'static str> = Vec::new();
        v.push("libffi-dev");
        v.push("libffi-devel");
        proof {
            assert(v@.map_values(|s: &str| s@) =~= equivalence_class_8());
        }
        return v;
    }
    proof {
        assert(!in_class(equivalence_class_8(), l@)) by {
            if in_class(equivalence_class_8(), l@) {
                let k = choose|k: int| 0 <= k < equivalence_class_8().len() && lower_seq(equivalence_class_8()[k]) == l@;
                if k == 0 { assert(equivalence_class_8()[0] == "libffi-dev"@); } if k == 1 { assert(equivalence_class_8()[1] == "libffi-devel"@); }
            }
        }
    }
    let v: Vec<&'static str> = Vec::new();
    proof {
        assert(v@.map_values(|s: &str| s@) =~= Seq::<Seq<char>>::empty());
    }
    v
}

/// Distro package-name conventions: `libfoo`, `libfoo-dev`, `foo-dev`,
/// `foo-devel`, `foo-essential`.
pub open spec fn system_package_pattern() -> Seq<char> {
    "^(?:lib[a-z0-9][a-z0-9\\-]*|[a-z][a-z0-9]*-(?:dev|devel|essential))$"@
}

fn system_package_text() -> (p: &'static str)
    ensures
        p@ == system_package_pattern(),
{
    "^(?:lib[a-z0-9][a-z0-9\\-]*|[a-z][a-z0-9]*-(?:dev|devel|essential))$"
}

pub fn looks_like_system_package(s: &str) -> (b: bool)
    ensures
        b == regex_matches(system_package_pattern(), s@),
{
    is_match(system_package_text(), s)
}

/// The CI installs `package` (ASCII case ignored) or an equivalent of it.
pub open spec fn covered(package: Seq<char>, installed: Seq<Seq<char>>) -> bool {
    ||| installed.contains(lower_seq(package))
    ||| exists|k: int| 0 <= k < canonical_class(package).len() && installed.contains(lower_seq(#[trigger] canonical_class(package)[k]))
}

fn installed_has(installed: &Vec<String>, name: &Vec<char>) -> (b: bool)
    ensures
        b == texts(installed@).contains(name@),
{
    let ghost ts = texts(installed@);
    for k in 0..installed.len()
        invariant
            ts == texts(installed@),
            forall|j: int| 0 <= j < k ==> ts[j] != name@,
    {
        let c = chars_of(installed[k].as_str());
        if c.len() == name.len() {
            let mut same = true;
            let mut j: usize = 0;
            while j < c.len()
                invariant
                    c.len() == name.len(),
                    j <= c.len(),
                    same == (forall|m: int| 0 <= m < j ==> c@[m] == name@[m]),
                decreases c.len() - j,
            {
                if c[j] != name[j] {
                    same = false;
                }
                j = j + 1;
            }
            if same {
                assert(c@ =~= name@);
                assert(ts[k as int] == name@);
                return true;
            } else {
                assert(c@ != name@) by {
                    let m = choose|m: int| 0 <= m < j && c@[m] != name@[m];
                }
            }
        }
    }
    false
}

pub fn coverage_present(package: &str, installed: &Vec<String>) -> (b: bool)
    ensures
        b == covered(package@, texts(installed@)),
{
    let lower = lower_chars(&chars_of(package));
    if installed_has(installed, &lower) {
        return true;
    }
    let forms = canonical_forms(package);
    let ghost cls = canonical_class(package@);
    for k in 0..forms.len()
        invariant
            forms@.map_values(|s: &str| s@) == cls,
            cls == canonical_class(package@),
            forall|j: int| 0 <= j < k ==> !texts(installed@).contains(lower_seq(#[trigger] cls[j])),
    {
        let l = lower_chars(&chars_of(forms[k]));
        assert(cls[k as int] == forms@[k as int]@);
        if installed_has(installed, &l) {
            return true;
        }
    }
    false
}

/// The package list an install command names.
pub open spec fn install_pattern() -> Seq<char> {
    "(?:apt(?:-get)?|apk|yum|dnf|brew)\\s+(?:-[^\\s]+\\s+)*(?:install|add)\\s+([^\\n#]*)"@
}

fn install_text() -> (p: &'static str)
    ensures
        p@ == install_pattern(),
{
    "(?:apt(?:-get)?|apk|yum|dnf|brew)\\s+(?:-[^\\s]+\\s+)*(?:install|add)\\s+([^\\n#]*)"
}

pub open spec fn package_sep(c: char) -> bool {
    unicode_whitespace(c) || c == ','
}

pub open spec fn not_package_char(c: char) -> bool {
    !(unicode_alphanumeric(c) || c == '-' || c == '_')
}

/// The pieces of `s` from `i` between whitespace and commas.
pub open spec fn sep_pieces(s: Seq<char>, i: int) -> Seq<Seq<char>>
    decreases s.len() - i,
{
    if i < 0 || i > s.len() {
        Seq::empty()
    } else {
        let e = crate::text::find_from(s, i, |c: char| package_sep(c));
        if e >= s.len() || e < i {
            seq![s.subrange(i, s.len() as int)]
        } else {
            seq![s.subrange(i, e)] + sep_pieces(s, e + 1)
        }
    }
}

fn split_packages(s: &Vec<char>) -> (r: Vec<Vec<char>>)
    ensures
        views(r@) == sep_pieces(s@, 0),
{
    let mut r: Vec<Vec<char>> = Vec::new();
    let mut i: usize = 0;
    loop
        invariant
            0 <= i <= s.len(),
            views(r@) + sep_pieces(s@, i as int) == sep_pieces(s@, 0),
        decreases s.len() - i,
    {
        let mut e = i;
        while e < s.len() && !(is_whitespace(s[e]) || s[e] == ',')
            invariant
                i <= e <= s.len(),
                crate::text::find_from(s@, e as int, |c: char| package_sep(c)) == crate::text::find_from(s@, i as int, |c: char| package_sep(c)),
            decreases s.len() - e,
        {
            e += 1;
        }
        proof {
            crate::text::lemma_find_from(s@, i as int, |c: char| package_sep(c));
        }
        let piece = slice_chars(s, i, e);
        let ghost before = views(r@);
        let ghost old_r = r@;
        r.push(piece);
        proof {
            crate::text::lemma_views_push(old_r, piece);
        }
        if e >= s.len() {
            proof {
                assert(sep_pieces(s@, i as int) == seq![piece@]);
                assert(before + sep_pieces(s@, i as int) == views(r@));
            }
            return r;
        }
        proof {
            assert(sep_pieces(s@, i as int) == seq![piece@] + sep_pieces(s@, e + 1));
            assert(before + sep_pieces(s@, i as int) =~= views(r@) + sep_pieces(s@, e + 1));
        }
        i = e + 1;
    }
}

/// A piece with its non-package characters trimmed from both ends.
pub open spec fn package_token(piece: Seq<char>) -> Seq<char> {
    crate::text::trim_by(piece, |c: char| not_package_char(c))
}

fn trim_package(p: &Vec<char>) -> (r: Vec<char>)
    ensures
        r@ == package_token(p@),
{
    let mut a: usize = 0;
    while a < p.len() && !(is_alphanumeric(p[a]) || p[a] == '-' || p[a] == '_')
        invariant
            a <= p.len(),
            crate::text::skip_from(p@, a as int, |c: char| not_package_char(c)) == crate::text::skip_from(p@, 0, |c: char| not_package_char(c)),
        decreases p.len() - a,
    {
        a = a + 1;
    }
    let t = slice_chars(p, a, p.len());
    assert(t@ =~= p@.skip(a as int));
    let mut b: usize = t.len();
    while b > 0 && !(is_alphanumeric(t[b - 1]) || t[b - 1] == '-' || t[b - 1] == '_')
        invariant
            b <= t.len(),
            crate::text::back_from(t@, b as int, |c: char| not_package_char(c)) == crate::text::back_from(t@, t@.len() as int, |c: char| not_package_char(c)),
        decreases b,
    {
        b = b - 1;
    }
    let r = slice_chars(&t, 0, b);
    assert(r@ =~= t@.take(b as int));
    r
}

/// The packages a list of install arguments names, lowercased; flags are
/// skipped.
pub open spec fn package_names(pieces: Seq<Seq<char>>) -> Seq<Seq<char>>
    decreases pieces.len(),
{
    if pieces.len() == 0 {
        Seq::empty()
    } else {
        let t = package_token(pieces.last());
        package_names(pieces.drop_last()) + if t.len() == 0 || t[0] == '-' || t[0] == '=' {
            Seq::empty()
        } else {
            seq![lower_seq(t)]
        }
    }
}

/// The packages an install line of CI installs.
pub open spec fn line_packages(line: Seq<char>) -> Seq<Seq<char>> {
    match regex_group(install_pattern(), line, 1) {
        None => Seq::empty(),
        Some(list) => package_names(sep_pieces(list, 0)),
    }
}

pub fn extract_packages_from_line(line: &str, out: &mut Vec<String>)
    ensures
        texts(final(out)@) == texts(old(out)@) + line_packages(line@),
{
    let list = match capture(install_text(), line, 1) {
        None => {
            assert(texts(out@) + Seq::<Seq<char>>::empty() =~= texts(out@));
            return;
        },
        Some(l) => l,
    };
    let pieces = split_packages(&chars_of(list.as_str()));
    let ghost ps = views(pieces@);
    let ghost start = texts(out@);
    for k in 0..pieces.len()
        invariant
            ps == views(pieces@),
            texts(out@) == start + package_names(ps.take(k as int)),
    {
        assert(ps.take(k + 1).drop_last() =~= ps.take(k as int));
        let t = trim_package(&pieces[k]);
        if t.len() == 0 || t[0] == '-' || t[0] == '=' {
            assert(texts(out@) =~= start + package_names(ps.take(k + 1)));
        } else {
            let ghost before = texts(out@);
            out.push(string_of(&lower_chars(&t)));
            assert(texts(out@) =~= before.push(lower_seq(t@)));
            assert(texts(out@) =~= start + package_names(ps.take(k + 1)));
        }
    }
    assert(ps.take(pieces.len() as int) =~= ps);
}

/// Every package the workflow files install, line by line, file by file.
pub open spec fn lines_packages(lines: Seq<Seq<char>>) -> Seq<Seq<char>>
    decreases lines.len(),
{
    if lines.len() == 0 {
        Seq::empty()
    } else {
        lines_packages(lines.drop_last()) + line_packages(lines.last())
    }
}

pub open spec fn installed_packages(files: Seq<String>, ctx: ProjectContext) -> Seq<Seq<char>>
    decreases files.len(),
{
    if files.len() == 0 {
        Seq::empty()
    } else {
        installed_packages(files.drop_last(), ctx) + if workflow_path(files.last()@) {
            match source_for(ctx.sources@, files.last()@) {
                Some(t) => lines_packages(lines_of(t)),
                None => Seq::empty(),
            }
        } else {
            Seq::empty()
        }
    }
}

pub fn collect_installed_packages(ctx: &ProjectContext) -> (r: Vec<String>)
    ensures
        texts(r@) == installed_packages(ctx.yaml_files@, *ctx),
{
    let mut out: Vec<String> = Vec::new();
    for i in 0..ctx.yaml_files.len()
        invariant
            texts(out@) == installed_packages(ctx.yaml_files@.take(i as int), *ctx),
    {
        assert(ctx.yaml_files@.take(i + 1).drop_last() =~= ctx.yaml_files@.take(i as int));
        let path = ctx.yaml_files[i].as_str();
        let ghost before = texts(out@);
        if is_workflow_path(path) {
            match ctx.source(path) {
                Some(text) => {
                    let lines = split_lines(&chars_of(text.as_str()));
                    let ghost ls = views(lines@);
                    for k in 0..lines.len()
                        invariant
                            ls == views(lines@),
                            ls == lines_of(text@),
                            texts(out@) == before + lines_packages(ls.take(k as int)),
                    {
                        assert(ls.take(k + 1).drop_last() =~= ls.take(k as int));
                        let line = string_of(&lines[k]);
                        extract_packages_from_line(line.as_str(), &mut out);
                    }
                    assert(ls.take(lines.len() as int) =~= ls);
                },
                None => {
                    assert(texts(out@) =~= before + Seq::<Seq<char>>::empty());
                },
            }
        } else {
            assert(texts(out@) =~= before + Seq::<Seq<char>>::empty());
        }
    }
    assert(ctx.yaml_files@.take(ctx.yaml_files.len() as int) =~= ctx.yaml_files@);
    out
}

/// The findings so far and the `(file, line, token)` keys already flagged.
pub open spec fn env_scan(claims: Seq<ClaimAt>, installed: Seq<Seq<char>>) -> (Seq<Finding>, Seq<(Seq<char>, int, Seq<char>)>)
    decreases claims.len(),
{
    if claims.len() == 0 {
        (Seq::empty(), Seq::empty())
    } else {
        let (out, seen) = env_scan(claims.drop_last(), installed);
        let c = claims.last();
        let token = trim_seq(c.2);
        if !regex_matches(system_package_pattern(), token) || covered(token, installed) || seen.contains((c.0, c.1, token)) {
            (out, seen)
        } else {
            (
                out.push(
                    Finding {
                        rule: RuleId::EnvMismatch,
                        severity: Severity::Notice,
                        file: c.0,
                        line: c.1 as u32,
                        stated: "project requires `"@ + token + "`"@,
                        reality: "no CI install line covers `"@ + token + "` (or a known cross-distro equivalent)"@,
                        risk: "CI may pass on a box missing a dependency the docs promise."@,
                    },
                ),
                seen.push((c.0, c.1, token)),
            )
        }
    }
}

/// Nothing when CI installs nothing; else each uncovered package claim once
/// per file, line and name.
pub open spec fn env_findings(ctx: ProjectContext) -> Seq<Finding> {
    let installed = installed_packages(ctx.yaml_files@, ctx);
    if installed.len() == 0 {
        Seq::empty()
    } else {
        env_scan(file_claims(ctx.markdown_files@, ctx.sources@), installed).0
    }
}

/// Without any install line in the CI workflows the analyzer makes no claim.
pub proof fn lemma_env_silent_without_install_lines(ctx: ProjectContext)
    requires
        installed_packages(ctx.yaml_files@, ctx).len() == 0,
    ensures
        env_findings(ctx) == Seq::<Finding>::empty(),
{
}

fn key_seen(seen: &Vec<(String, u32, String)>, file: &str, line: u32, token: &str) -> (b: bool)
    ensures
        b == seen@.map_values(|k: (String, u32, String)| (k.0@, k.1 as int, k.2@)).contains((file@, line as int, token@)),
{
    let ghost ks = seen@.map_values(|k: (String, u32, String)| (k.0@, k.1 as int, k.2@));
    for j in 0..seen.len()
        invariant
            ks == seen@.map_values(|k: (String, u32, String)| (k.0@, k.1 as int, k.2@)),
            forall|m: int| 0 <= m < j ==> ks[m] != (file@, line as int, token@),
    {
        if str_eq(seen[j].0.as_str(), file) && seen[j].1 == line && str_eq(seen[j].2.as_str(), token) {
            assert(ks[j as int] == (file@, line as int, token@));
            return true;
        }
    }
    false
}

impl DriftAnalyzer for EnvMismatchAnalyzer {
    fn id(&self) -> (s: &'static str)
        ensures
            s@ == "env_mismatch"@,
    {
        "env_mismatch"
    }

    #[verifier::rlimit(40)]
    fn analyze(&self, ctx: &ProjectContext) -> (out: Vec<Divergence>)
        ensures
            are_findings(out@, env_findings(*ctx)),
    {
        let installed = collect_installed_packages(ctx);
        let mut out: Vec<Divergence> = Vec::new();
        if installed.len() == 0 {
            return out;
        }
        let ghost inst = texts(installed@);
        let mut seen: Vec<(String, u32, String)> = Vec::new();
        let ghost mut done: Seq<ClaimAt> = Seq::empty();
        for i in 0..ctx.markdown_files.len()
            invariant
                ctx.wf(),
                inst == texts(installed@),
                inst == installed_packages(ctx.yaml_files@, *ctx),
                done == file_claims(ctx.markdown_files@.take(i as int), ctx.sources@),
                are_findings(out@, env_scan(done, inst).0),
                seen@.map_values(|k: (String, u32, String)| (k.0@, k.1 as int, k.2@)) == env_scan(done, inst).1,
        {
            proof {
                assert(ctx.markdown_files@.take(i + 1).drop_last() =~= ctx.markdown_files@.take(i as int));
            }
            let md = ctx.markdown_files[i].as_str();
            match ctx.source(md) {
                None => {
                    proof {
                        assert(done =~= file_claims(ctx.markdown_files@.take(i + 1), ctx.sources@));
                    }
                },
                Some(text) => {
                    proof {
                        lemma_source_fits(ctx.sources@, md@);
                    }
                    let claims = MarkdownParser::parse(md, text.as_str());
                    let ghost expected = claims_from(markdown_events(text@), vstd::utf8::encode_utf8(text@)).map_values(
                        |c: (int, Seq<char>)| (md@, c.0, c.1),
                    );
                    let ghost start = done;
                    for k in 0..claims.len()
                        invariant
                            crate::parsers::markdown::claims_match(claims@, md@, text@),
                            expected == claims_from(markdown_events(text@), vstd::utf8::encode_utf8(text@)).map_values(
                                |c: (int, Seq<char>)| (md@, c.0, c.1),
                            ),
                            inst == texts(installed@),
                            done == start + expected.take(k as int),
                            are_findings(out@, env_scan(done, inst).0),
                            seen@.map_values(|k: (String, u32, String)| (k.0@, k.1 as int, k.2@)) == env_scan(done, inst).1,
                    {
                        let ghost prev = done;
                        proof {
                            done = done.push(expected[k as int]);
                            assert(done =~= start + expected.take(k + 1));
                            assert(done.drop_last() =~= prev);
                        }
                        let line = claims[k].location.line;
                        let token = string_of(&trim(&chars_of(claims[k].text.as_str())));
                        if looks_like_system_package(token.as_str()) && !coverage_present(token.as_str(), &installed)
                            && !key_seen(&seen, md, line, token.as_str()) {
                            let mut stated = String::new();
                            push_str(&mut stated, "project requires `");
                            push_str(&mut stated, token.as_str());
                            push_str(&mut stated, "`");
                            let mut reality = String::new();
                            push_str(&mut reality, "no CI install line covers `");
                            push_str(&mut reality, token.as_str());
                            push_str(&mut reality, "` (or a known cross-distro equivalent)");
                            let d = finding(RuleId::EnvMismatch, Severity::Notice, md, line, stated, reality, "CI may pass on a box missing a dependency the docs promise.");
                            let ghost before = out@;
                            out.push(d);
                            let ghost sb = seen@;
                            seen.push((md.to_owned(), line, token.clone()));
                            proof {
                                let expected_out = env_scan(done, inst).0;
                                assert(out@ =~= before.push(d));
                                assert forall|m: int| 0 <= m < out@.len() implies is_finding(#[trigger] out@[m], expected_out[m]) by {
                                    if m < before.len() {
                                        assert(out@[m] == before[m]);
                                    }
                                }
                                assert(seen@.map_values(|k: (String, u32, String)| (k.0@, k.1 as int, k.2@)) =~= sb.map_values(|k: (String, u32, String)| (k.0@, k.1 as int, k.2@)).push((md@, line as int, token@)));
                            }
                        }
                    }
                    proof {
                        assert(expected.take(claims.len() as int) =~= expected);
                        assert(done =~= file_claims(ctx.markdown_files@.take(i + 1), ctx.sources@));
                    }
                },
            }
        }
        proof {
            assert(ctx.markdown_files@.take(ctx.markdown_files.len() as int) =~= ctx.markdown_files@);
        }
        out
    }
}

/// A package a CI install line names verbatim, ASCII case ignored, is
/// covered, whether or not it has known equivalents.
pub proof fn lemma_verbatim_install_covers(package: Seq<char>, installed: Seq<Seq<char>>)
    requires
        installed.contains(lower_seq(package)),
    ensures
        covered(package, installed),
{
}

/// When CI installs, verbatim, every package the documentation claims, the
/// analyzer reports nothing.
pub proof fn lemma_verbatim_installs_silence(claims: Seq<ClaimAt>, installed: Seq<Seq<char>>)
    requires
        forall|k: int| 0 <= k < claims.len() ==> installed.contains(lower_seq(trim_seq(#[trigger] claims[k].2))),
    ensures
        env_scan(claims, installed).0.len() == 0,
    decreases claims.len(),
{
    if claims.len() > 0 {
        assert forall|k: int| 0 <= k < claims.drop_last().len() implies installed.contains(lower_seq(trim_seq(#[trigger] claims.drop_last()[k].2))) by {
            assert(claims.drop_last()[k] == claims[k]);
        }
        lemma_verbatim_installs_silence(claims.drop_last(), installed);
        let t = trim_seq(claims.last().2);
        assert(installed.contains(lower_seq(trim_seq(claims[claims.len() - 1].2))));
        lemma_verbatim_install_covers(t, installed);
    }
}

/// The same over a whole project: the documentation's package claims all
/// installed verbatim by the workflows means no env_mismatch divergence.
pub proof fn lemma_env_silent_when_all_installed(ctx: ProjectContext)
    requires
        forall|k: int| 0 <= k < file_claims(ctx.markdown_files@, ctx.sources@).len() ==>
            installed_packages(ctx.yaml_files@, ctx).contains(lower_seq(trim_seq(#[trigger] file_claims(ctx.markdown_files@, ctx.sources@)[k].2))),
    ensures
        env_findings(ctx).len() == 0,
{
    let installed = installed_packages(ctx.yaml_files@, ctx);
    if installed.len() > 0 {
        lemma_verbatim_installs_silence(file_claims(ctx.markdown_files@, ctx.sources@), installed);
    }
}

} // verus!
