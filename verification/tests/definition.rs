use bevy_fluent_typed::validate_definition;

#[test]
fn definitions_accept_formatting_but_reject_changed_contracts() {
    let expected = [
        ("languages-directory", "translations"),
        ("source-language", "en"),
        ("default-language", "es"),
    ];
    let valid = "# comment\ndefault-language='es'\nsource-language = 'en'\nlanguages-directory = 'translations'\n";
    assert!(validate_definition(valid.as_bytes(), &expected).is_ok());

    for equivalent in ["translations/", "translations/.", "translations//"] {
        assert!(
            validate_definition(
                valid
                    .replace("'translations'", &format!("'{equivalent}'"))
                    .as_bytes(),
                &expected
            )
            .is_ok()
        );
    }

    for invalid in [
        valid.replace("'es'", "'ru'"),
        valid.replace("'en'", "7"),
        valid.replace("source-language", "source-langauge"),
        valid.replace("source-language = 'en'\n", ""),
        format!("{valid}\nunknown = 'field'"),
        format!("{valid}\n[extra]"),
        valid.replace("'translations'", "'../outside'"),
        valid.replace("'translations'", "'different'"),
    ] {
        assert!(
            validate_definition(invalid.as_bytes(), &expected).is_err(),
            "{invalid}"
        );
    }

    assert!(validate_definition(&[0xff], &expected).is_err());
}

#[test]
fn changed_definitions_report_a_rebuild() {
    let expected = [("source-language", "en")];
    assert_eq!(
        validate_definition(b"source-language = 'fr'", &expected).unwrap_err(),
        "localization configuration changed; rebuild required"
    );
    assert!(validate_definition(b"source-language = 'en'", &expected).is_ok());
    assert!(validate_definition(b"source-language = ", &expected).is_err());
}

#[test]
fn both_directory_keys_compare_as_paths() {
    let expected = [
        ("translations-directory", "translations"),
        ("source-language", "en"),
        ("default-language", "en"),
    ];
    assert!(validate_definition(
        b"translations-directory = 'translations/'\nsource-language = 'en'\ndefault-language = 'en'\n",
        &expected
    )
    .is_ok());
    assert!(validate_definition(
        b"translations-directory = 'translations/./'\nsource-language = 'en'\ndefault-language = 'en'\n",
        &expected
    )
    .is_ok());
    assert!(validate_definition(
        b"translations-directory = 'other'\nsource-language = 'en'\ndefault-language = 'en'\n",
        &expected
    )
    .is_err());
    let languages = [("source-language", "en/")];
    assert!(validate_definition(b"source-language = 'en'", &languages).is_err());
}

#[test]
fn the_directory_may_use_the_legacy_name_or_default_to_the_definition_folder() {
    let expected = [
        ("translations-directory", "translations"),
        ("source-language", "en"),
        ("default-language", "en"),
    ];
    assert!(validate_definition(
        b"languages-directory = 'translations'\nsource-language = 'en'\ndefault-language = 'en'\n",
        &expected
    )
    .is_ok());
    assert!(validate_definition(
        b"translations-directory = 'translations'\nlanguages-directory = 'translations'\nsource-language = 'en'\ndefault-language = 'en'\n",
        &expected
    )
    .is_err());
    assert!(validate_definition(b"source-language = 'en'\ndefault-language = 'en'\n", &expected).is_err());

    let beside = [
        ("translations-directory", "."),
        ("source-language", "en"),
        ("default-language", "en"),
    ];
    assert!(validate_definition(b"source-language = 'en'\ndefault-language = 'en'\n", &beside).is_ok());
    assert!(validate_definition(
        b"translations-directory = '.'\nsource-language = 'en'\ndefault-language = 'en'\n",
        &beside
    )
    .is_ok());
    assert!(validate_definition(
        b"source-language = 'en'\ndefault-language = 'en'\nextra = 'x'\n",
        &beside
    )
    .is_err());
}
