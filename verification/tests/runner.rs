use bevy_fluent_typed::checks::{
    assess_check_output, check_build_facade, check_engine_versions, check_runtime_graph,
    check_target_graph, failure_observed, mutability_probe_valid, ArtifactCheckError,
};
use bevy_fluent_typed::graph::{parse_dependency_tree, release_family};
use bevy_fluent_typed::matrix::{audit_metadata, official_packages, PackageRecord};
use bevy_fluent_typed::runner::{
    fixture_manifest, host_triple, parse_arguments, pin_manifest, skipped_entry, workspace_manifest,
    Invocation,
};

fn strings(items: &[&str]) -> Vec<String> {
    items.iter().map(|item| item.to_string()).collect()
}

fn pair(name: &str, version: &str) -> (String, String) {
    (name.to_string(), version.to_string())
}

fn record(name: &str, version: &str, repository: &str) -> PackageRecord {
    PackageRecord {
        name: Some(name.into()),
        version: Some(version.into()),
        source_is_string: true,
        repository: Some(repository.into()),
    }
}

#[test]
fn arguments_are_read_in_order() {
    let parsed = parse_arguments(&strings(&[
        "--generator",
        "../gen",
        "--offline",
        "0.17.0",
        "--target-dir",
        "out",
        "0.19.1",
    ]));
    match parsed {
        Ok(Invocation::Run(options)) => {
            assert_eq!(options.generator, "../gen");
            assert_eq!(options.target_dir.as_deref(), Some("out"));
            assert!(options.offline);
            assert_eq!(options.versions, strings(&["0.17.0", "0.19.1"]));
        }
        _ => panic!("valid arguments were refused"),
    }
    assert!(matches!(
        parse_arguments(&strings(&["0.17.0", "--help", "--bogus"])),
        Ok(Invocation::Help)
    ));
}

#[test]
fn argument_errors_name_the_problem() {
    let error = |args: &[&str]| match parse_arguments(&strings(args)) {
        Err(e) => e,
        Ok(_) => panic!("accepted {args:?}"),
    };
    assert_eq!(error(&["--generator"]), "missing generator path");
    assert_eq!(error(&["--target-dir"]), "missing target directory");
    assert_eq!(error(&["--bogus", "0.17.0"]), "unknown option: --bogus");
    assert_eq!(
        error(&["--generator", "g"]),
        "provide at least one supported exact Bevy version"
    );
    assert_eq!(
        error(&["--generator", "g", "0.17.0", "0.16.0"]),
        "unsupported exact stable release: 0.16.0"
    );
    assert_eq!(
        error(&["0.17.0"]),
        "--generator PATH is required to verify an explicit generator checkout"
    );
}

#[test]
fn fixture_manifests_pin_and_patch() {
    assert_eq!(
        pin_manifest(&strings(&["bevy", "bevy_ecs"]), "0.17.0"),
        "[package]\nname = \"bevy-version-pins\"\nversion = \"0.0.0\"\nedition = \"2024\"\n[lib]\npath = \"lib.rs\"\n[dependencies]\nbevy = { version = \"=0.17.0\", default-features = false }\nbevy_ecs = { version = \"=0.17.0\", default-features = false }\n"
    );
    let expected = "[package]\n\n[workspace]\nmembers = [\"codegen_bridge\", \"examples/minimal\", \"version-pins\"]\nresolver = \"3\"\n[patch.crates-io]\nfluent_typed_codegen = { path = \"/gen \\\"x\\\"\" }\n[profile.dev]\ndebug = 0\n";
    assert_eq!(
        fixture_manifest("[package]\n", "/gen \"x\"").unwrap(),
        expected
    );
    assert_eq!(
        workspace_manifest("[package]\n", "\"/gen \\\"x\\\"\""),
        expected
    );
    assert!(skipped_entry("target"));
    assert!(skipped_entry("Cargo.lock"));
    assert!(skipped_entry(".git"));
    assert!(!skipped_entry("src"));
}

#[test]
fn dependency_trees_become_sorted_sets() {
    let set = parse_dependency_tree("bevy v0.17.0\nbevy_ecs v0.17.0 (proc-macro)\nbevy v0.17.0\nanyhow v1.0.0\n")
        .unwrap();
    assert_eq!(
        set,
        vec![
            pair("anyhow", "1.0.0"),
            pair("bevy", "0.17.0"),
            pair("bevy_ecs", "0.17.0")
        ]
    );
    assert_eq!(
        parse_dependency_tree("bevy\n").unwrap_err(),
        "missing package version in cargo tree"
    );
    assert_eq!(
        parse_dependency_tree("bevy 0.17.0\n").unwrap_err(),
        "missing package version in cargo tree"
    );
    assert_eq!(
        parse_dependency_tree("bevy v1\n\n").unwrap_err(),
        "missing package name in cargo tree"
    );
}

#[test]
fn the_release_family_is_what_the_consumer_resolves() {
    let engine = "https://github.com/bevyengine/bevy";
    let packages = vec![
        record("bevy_render", "0.17.0", engine),
        record("bevy", "0.17.0", engine),
        record("bevy_ecs", "0.16.1", engine),
        record("serde", "1.0.0", "https://github.com/serde-rs/serde"),
    ];
    let official = official_packages(&packages);
    let active = vec![
        pair("bevy", "0.17.0"),
        pair("bevy_ecs", "0.17.0"),
        pair("bevy_render", "0.17.0"),
        pair("serde", "1.0.0"),
    ];
    assert_eq!(release_family(&official, &active), strings(&["bevy", "bevy_render"]));
}

#[test]
fn engine_versions_must_match_the_family() {
    let official = strings(&["bevy", "bevy_color"]);
    assert!(check_engine_versions(
        &[pair("bevy", "0.16.1"), pair("bevy_color", "0.16.2"), pair("serde", "1.0.0")],
        &official,
        "0.16.1"
    )
    .is_ok());
    assert_eq!(
        check_engine_versions(&[pair("bevy_color", "0.16.1")], &official, "0.16.1").unwrap_err(),
        "wrong engine package: bevy_color 0.16.1 (expected 0.16.2)"
    );
}

#[test]
fn graph_checks_name_their_failure() {
    assert!(check_build_facade(&[pair("fluent_typed_codegen", "0.2.0")]).is_ok());
    assert_eq!(
        check_build_facade(&[pair("fluent_typed_codegen", "0.2.0"), pair("bevy_0_17", "0.1.0")])
            .unwrap_err(),
        "build-only facade unexpectedly depends on Bevy"
    );
    assert_eq!(
        check_build_facade(&[pair("syn", "2.0.0")]).unwrap_err(),
        "build facade is missing its generator"
    );
    assert!(check_runtime_graph(&[pair("bevy", "0.17.0")]).is_ok());
    assert_eq!(
        check_runtime_graph(&[pair("bevy_fluent_codegen_bridge", "0.1.0")]).unwrap_err(),
        "runtime without codegen unexpectedly depends on the bridge/generator"
    );
    assert!(check_target_graph("bevy v0.17.0\nfluent_typed v0.9.0\n").is_ok());
    assert_eq!(
        check_target_graph("bevy v0.17.0\n  tempfile v3.0.0\n").unwrap_err(),
        "host-only generator dependency entered target graph:   tempfile v3.0.0"
    );
}

#[test]
fn probes_are_judged_by_backend_and_output() {
    let error = "error[E0271]: `<Translations as Component>::Mutability == Mutable`\nrequired by a bound in `ResMut`";
    assert!(mutability_probe_valid("bevy-0-19", false, error));
    assert!(!mutability_probe_valid("bevy-0-19", true, error));
    assert!(!mutability_probe_valid("bevy-0-19", false, "error[E0433]"));
    assert!(mutability_probe_valid("bevy-0-17", true, ""));
    assert!(!mutability_probe_valid("bevy-0-17", false, error));
    assert!(failure_observed(false, "", "missing OUT_DIR here", "OUT_DIR"));
    assert!(failure_observed(false, "extra.ftl", "", "extra.ftl"));
    assert!(!failure_observed(true, "", "OUT_DIR", "OUT_DIR"));
    assert!(!failure_observed(false, "", "other", "OUT_DIR"));
}

const BUILD: &str = r#"{"reason":"compiler-artifact","target":{"name":"bevy_fluent_typed"},"features":["build"],"fresh":true}"#;
const RUNTIME: &str = r#"{"reason":"compiler-artifact","target":{"name":"bevy_fluent_typed"},"features":["runtime","watch"],"fresh":true}"#;
const STALE: &str = r#"{"reason":"compiler-artifact","target":{"name":"localization-codegen-example"},"features":[],"fresh":false}"#;

#[test]
fn check_output_reports_freshness_and_each_failure() {
    let output = format!("{BUILD}\n{RUNTIME}\n{STALE}\n{{\"reason\":\"build-finished\"}}\n");
    assert_eq!(assess_check_output(&output, None).ok(), Some(false));
    assert_eq!(assess_check_output(&output, Some(false)).ok(), Some(false));
    assert!(matches!(
        assess_check_output(&output, Some(true)),
        Err(ArtifactCheckError::Freshness {
            expected: true,
            actual: false
        })
    ));
    assert!(matches!(
        assess_check_output(&format!("{BUILD}\n{STALE}\n"), None),
        Err(ArtifactCheckError::FacadesMissing)
    ));
    assert!(matches!(
        assess_check_output(&format!("{BUILD}\n{RUNTIME}\n"), None),
        Err(ArtifactCheckError::ArtifactMissing)
    ));
    assert!(matches!(
        assess_check_output("not json\n", None),
        Err(ArtifactCheckError::Parse(_))
    ));
    assert!(matches!(
        assess_check_output(
            r#"{"reason":"compiler-artifact","target":{"name":"bevy_fluent_typed"}}"#,
            None
        ),
        Err(ArtifactCheckError::FeaturesMissing)
    ));
    match assess_check_output(
        r#"{"reason":"compiler-artifact","target":{"name":"bevy_fluent_typed"},"features":["build","runtime"]}"#,
        None,
    ) {
        Err(ArtifactCheckError::LeakedFeatures(features)) => assert_eq!(
            features,
            vec![Some("build".to_string()), Some("runtime".to_string())]
        ),
        _ => panic!("leaked features were not reported"),
    }
}

#[test]
fn the_host_is_read_from_the_compiler_report() {
    let report = "rustc 1.95.0 (abc 2026-01-01)\nbinary: rustc\nhost: x86_64-unknown-linux-gnu\nrelease: 1.95.0\n";
    assert_eq!(host_triple(report).as_deref(), Some("x86_64-unknown-linux-gnu"));
    assert_eq!(host_triple("host: a\r\nhost: b\n").as_deref(), Some("a"));
    assert_eq!(host_triple("binary: rustc\n"), None);
    assert_eq!(host_triple(" host: a"), None);
}

#[test]
fn generator_paths_are_escaped_as_json() {
    let manifest = fixture_manifest("", "a\\b\tc\u{1}d").unwrap();
    assert!(manifest.contains("path = \"a\\\\b\\tc\\u0001d\" }"));
}

#[test]
fn audited_metadata_is_pretty_printed() {
    assert_eq!(
        audit_metadata(br#"{"packages":[]}"#).unwrap(),
        b"{\n  \"packages\": []\n}".to_vec()
    );
    assert!(audit_metadata(b"not json").is_err());
}

#[test]
fn the_first_host_only_line_is_named() {
    assert_eq!(
        check_target_graph("prettyplease v0.2.0\ntempfile v3.0.0\n").unwrap_err(),
        "host-only generator dependency entered target graph: prettyplease v0.2.0"
    );
    assert_eq!(
        check_engine_versions(
            &[pair("bevy", "0.17.1"), pair("bevy_ecs", "0.17.2")],
            &strings(&["bevy", "bevy_ecs"]),
            "0.17.0"
        )
        .unwrap_err(),
        "wrong engine package: bevy 0.17.1 (expected 0.17.0)"
    );
}
