use spec_drift::analyzers::analyzer::DriftAnalyzer;
use spec_drift::analyzers::env::{
    canonical_forms, collect_installed_packages, coverage_present, extract_packages_from_line,
    looks_like_system_package, EnvMismatchAnalyzer,
};
use spec_drift::context::{ProjectContext, SourceText};
use spec_drift::domain::Severity;

fn ctx_with(md: &str, yml: &str) -> ProjectContext {
    let md_path = "/tmp/proj/README.md";
    let yml_path = "/tmp/proj/.github/workflows/ci.yml";
    let mut ctx = ProjectContext::new("/tmp/proj");
    ctx.markdown_files.push(md_path.to_string());
    ctx.yaml_files.push(yml_path.to_string());
    ctx.sources.push(SourceText { path: md_path.to_string(), text: md.to_string() });
    ctx.sources.push(SourceText { path: yml_path.to_string(), text: yml.to_string() });
    ctx
}

#[test]
fn flags_readme_dep_not_in_ci_install_lines() {
    let ctx = ctx_with(
        "Requires `libssl-dev` and `libpq-dev` to build.\n",
        "jobs:\n  test:\n    steps:\n      - run: apt-get install libssl-dev\n",
    );
    let divs = EnvMismatchAnalyzer.analyze(&ctx);
    assert_eq!(divs.len(), 1);
    assert!(divs[0].stated.contains("libpq-dev"));
    assert_eq!(divs[0].severity, Severity::Notice);
}

#[test]
fn accepts_cross_distro_equivalent() {
    // README says libssl-dev, CI installs openssl-devel — these are the
    // same library, just named for different distros.
    let ctx = ctx_with(
        "Requires `libssl-dev` to build.\n",
        "jobs:\n  test:\n    steps:\n      - run: dnf install openssl-devel\n",
    );
    assert!(EnvMismatchAnalyzer.analyze(&ctx).is_empty());
}

#[test]
fn silent_when_ci_has_no_install_lines() {
    let ctx = ctx_with(
        "Requires `libssl-dev`.\n",
        "jobs:\n  test:\n    steps:\n      - run: cargo test\n",
    );
    // No install command → can't make a claim → stay quiet.
    assert!(EnvMismatchAnalyzer.analyze(&ctx).is_empty());
}

#[test]
fn ignores_prose_and_non_package_tokens() {
    let ctx = ctx_with(
        "Uses `Client::new()` and `Option<String>` extensively.\n",
        "jobs:\n  test:\n    steps:\n      - run: apt-get install libssl-dev\n",
    );
    // `Client::new()` and `Option<String>` aren't package-shaped — must
    // not be mistaken for missing deps.
    assert!(EnvMismatchAnalyzer.analyze(&ctx).is_empty());
}

#[test]
fn accepts_multi_package_install_line() {
    let ctx = ctx_with(
        "Requires `libssl-dev`, `pkg-config`, and `build-essential`.\n",
        "jobs:\n  t:\n    steps:\n      - run: apt-get install -y libssl-dev pkg-config build-essential\n",
    );
    assert!(EnvMismatchAnalyzer.analyze(&ctx).is_empty());
}

#[test]
fn looks_like_system_package_accepts_common_shapes() {
    assert!(looks_like_system_package("libssl-dev"));
    assert!(looks_like_system_package("openssl-devel"));
    assert!(looks_like_system_package("libpq-dev"));
    assert!(looks_like_system_package("build-essential"));
    assert!(!looks_like_system_package("Client"));
    assert!(!looks_like_system_package("Option<T>"));
    assert!(!looks_like_system_package("fn_name"));
}

#[test]
fn extract_packages_skips_flags_and_lowercases() {
    let mut out: Vec<String> = Vec::new();
    extract_packages_from_line("sudo apt-get install -y LibSSL-dev pkg-config", &mut out);
    assert!(out.contains(&"libssl-dev".to_string()));
    assert!(out.contains(&"pkg-config".to_string()));
    assert!(!out.iter().any(|p| p.starts_with('-')));
    let mut none: Vec<String> = Vec::new();
    extract_packages_from_line("cargo test --all", &mut none);
    assert!(none.is_empty());
}

#[test]
fn installed_packages_come_only_from_workflows() {
    let mut ctx = ctx_with("x\n", "- run: brew install pkg-config\n");
    ctx.yaml_files.push("/tmp/proj/deploy.yml".to_string());
    ctx.sources.push(SourceText {
        path: "/tmp/proj/deploy.yml".to_string(),
        text: "run: apt-get install libfoo-dev\n".to_string(),
    });
    let installed = collect_installed_packages(&ctx);
    assert!(installed.contains(&"pkg-config".to_string()));
    assert!(!installed.contains(&"libfoo-dev".to_string()));
}

#[test]
fn coverage_uses_canonical_forms() {
    let installed = vec!["openssl-devel".to_string()];
    assert!(coverage_present("libssl-dev", &installed));
    assert!(coverage_present("OpenSSL-Devel", &installed));
    assert!(!coverage_present("libpq-dev", &installed));
    assert!(!canonical_forms("libssl-dev").is_empty());
}

#[test]
fn env_divergence_wording() {
    let ctx = ctx_with("Needs `libpq-dev`.\n", "- run: apt-get install libssl-dev\n");
    let divs = EnvMismatchAnalyzer.analyze(&ctx);
    assert_eq!(divs.len(), 1);
    assert_eq!(divs[0].location.line, 1);
    assert_eq!(divs[0].location.file, "/tmp/proj/README.md");
}
