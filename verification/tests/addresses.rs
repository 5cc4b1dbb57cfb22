use bevy_fluent_typed::addresses::{validate_directory, validate_locale, validate_module, AddressError};

#[test]
fn provider_addresses_cannot_escape_or_switch_asset_sources() {
    assert!(validate_directory(".").is_ok());
    assert!(validate_directory("translations/nested").is_ok());
    assert!(validate_locale("pt-BR").is_ok());
    assert!(validate_module("ui/main.ftl").is_ok());

    for invalid in [
        "",
        "../other",
        "/absolute",
        "other://file",
        "file#label",
        "folder\\file",
    ] {
        assert!(validate_directory(invalid).is_err(), "{invalid}");
    }

    for invalid in [".", "en/other", "en/", "../en"] {
        assert!(validate_locale(invalid).is_err(), "{invalid}");
    }

    assert!(validate_module(".").is_err());
    assert!(validate_module("ui/").is_err());
}

#[test]
fn refusals_name_the_reason() {
    assert_eq!(
        validate_directory("../other"),
        Err(AddressError::InvalidAddress("../other".to_string()))
    );
    assert_eq!(validate_locale("en/other"), Err(AddressError::NotOneDirectory));
    assert_eq!(validate_locale("."), Err(AddressError::NotOneDirectory));
    assert_eq!(
        validate_locale("../en"),
        Err(AddressError::InvalidAddress("../en".to_string()))
    );
    assert_eq!(validate_module("ui/"), Err(AddressError::NotAFile));
    assert_eq!(validate_module("./."), Err(AddressError::NotAFile));
    assert!(validate_module("a/./b.ftl").is_ok());
    assert!(validate_module("...").is_ok());
    assert!(validate_directory("a//b/./c").is_ok());
    assert!(validate_directory("a/b/..").is_err());
    assert_eq!(
        AddressError::InvalidAddress("x:y".to_string()).message(),
        "invalid relative catalog asset address: \"x:y\""
    );
    assert_eq!(
        AddressError::InvalidAddress("a\\b".to_string()).message(),
        "invalid relative catalog asset address: \"a\\\\b\""
    );
    assert_eq!(
        AddressError::NotOneDirectory.message(),
        "catalog locale must be one directory name"
    );
    assert_eq!(AddressError::NotAFile.message(), "catalog module must name a file");
}
