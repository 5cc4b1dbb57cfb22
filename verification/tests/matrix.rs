use bevy_fluent_typed::matrix::{
    backend, immutable_resource_error, official_packages, package_version, read_metadata_packages,
};

#[test]
fn color_patch_is_specific_to_the_published_0161_release_family() {
    assert_eq!(package_version("bevy_color", "0.16.1"), "0.16.2");
    assert_eq!(package_version("bevy_ecs", "0.16.1"), "0.16.1");
    assert_eq!(package_version("bevy_color", "0.17.0"), "0.17.0");
}

#[test]
fn mutability_probe_requires_the_actual_resource_bound_failure() {
    assert!(immutable_resource_error(
        "error[E0271]: type mismatch resolving `<Translations as Component>::Mutability == Mutable`\nnote: required by a bound in `ResMut`"
    ));
    assert!(!immutable_resource_error(
        "error[E0433]: could not find Immutable or Mutable"
    ));
}

#[test]
fn official_family_includes_unlabelled_ecs_macros_but_not_separate_projects() {
    let graph = r#"{ "packages": [
        {"name": "bevy", "repository": "https://github.com/bevyengine/bevy"},
        {"name": "bevy_ecs_macros", "source": "registry+https://github.com/rust-lang/crates.io-index"},
        {"name": "bevy_mikktspace", "repository": "https://github.com/bevyengine/bevy_mikktspace"},
        {"name": "bevy_fluent_typed", "repository": "https://github.com/SDA-31/bevy_fluent_typed"}
    ] }"#;
    let packages = read_metadata_packages(graph.as_bytes()).unwrap();
    let names: Vec<_> = official_packages(&packages)
        .into_iter()
        .map(|package| package.name.as_deref().unwrap())
        .collect();
    assert_eq!(names, ["bevy", "bevy_ecs_macros"]);
}

#[test]
fn runner_accepts_concrete_releases_within_supported_backend_ranges() {
    // The runner pins one reproducible release; library requirements admit patches.
    for version in ["0.16.1", "0.17.0", "0.17.3", "0.18.1", "0.19.1"] {
        assert!(backend(version).is_ok());
    }

    for version in [
        "0.15.0",
        "0.16.0",
        "0.20.0",
        "0.19",
        "0.19.*",
        "0.19.+1",
        "0.19.0-rc.1",
        "0.19.0\n",
    ] {
        assert!(backend(version).is_err());
    }
}

#[test]
fn backend_names_the_feature_and_rejects_out_of_range_patches() {
    assert_eq!(backend("0.19.1").unwrap(), "bevy-0-19");
    assert_eq!(backend("0.16.01").unwrap(), "bevy-0-16");
    assert!(backend("0.16.00").is_err());
    assert!(backend("0.17.4294967295").is_ok());
    assert!(backend("0.17.4294967296").is_err());
    assert_eq!(
        backend("1.0.0").unwrap_err(),
        "unsupported exact stable release: 1.0.0"
    );
}

#[test]
fn repository_suffixes_are_trimmed_before_comparison() {
    let graph = r#"{ "packages": [
        {"name": "bevy_app", "repository": "https://github.com/bevyengine/bevy.git//"},
        {"name": "bevy_ecs_macros"},
        {"name": "other", "source": "registry", "repository": "https://github.com/bevyengine/bevy.gitx"}
    ] }"#;
    let packages = read_metadata_packages(graph.as_bytes()).unwrap();
    let names: Vec<_> = official_packages(&packages)
        .into_iter()
        .map(|package| package.name.as_deref().unwrap())
        .collect();
    assert_eq!(names, ["bevy_app"]);
    assert!(read_metadata_packages(b"{}").is_err());
    assert!(read_metadata_packages(b"not json").is_err());
}
