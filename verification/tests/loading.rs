use bevy_fluent_typed::addresses::AddressError;
use bevy_fluent_typed::loading::{
    aggregate_failure, apply_candidates, collect_reads, failure_report, join_address,
    modules_root, plan_locale, Candidate, ModulePlan,
};
use bevy_fluent_typed::{
    CatalogDescriptor, CatalogUpdate, FluentCatalog, Localization, Module, ModuleSource,
};

struct Texts(String);

impl FluentCatalog for Texts {
    type Locale = &'static str;

    fn locales() -> &'static [Self::Locale] {
        &["en", "es", "ru"]
    }

    fn default_locale() -> Self::Locale {
        "en"
    }

    fn embedded(locale: Self::Locale) -> Self {
        Self(format!("embedded {locale}"))
    }

    fn descriptor(_: &[u8]) -> Result<CatalogDescriptor, String> {
        Ok(CatalogDescriptor {
            modules_directory: "translations".into(),
        })
    }

    fn modules(_: Self::Locale) -> Vec<Module> {
        vec![
            Module {
                path: "ui.ftl",
                embedded: "hello = Hi\n",
            },
            Module {
                path: "menu/hud.ftl",
                embedded: "score = Score\n",
            },
        ]
    }

    fn parse(locale: Self::Locale, sources: &[ModuleSource<'_>]) -> Result<Self, String> {
        if sources.iter().any(|module| module.source.contains("broken")) {
            return Err(format!("{locale}: syntax error"));
        }
        Ok(Self(
            sources
                .iter()
                .map(|module| format!("{}={}", module.path, module.source))
                .collect::<Vec<_>>()
                .join(";"),
        ))
    }
}

fn plans() -> Vec<ModulePlan> {
    plan_locale("assets/translations", "es", &Texts::modules("es")).unwrap()
}

#[test]
fn join_adds_one_separator_and_keeps_absolute_tails() {
    assert_eq!(join_address("assets", "en"), "assets/en");
    assert_eq!(join_address("assets/", "en"), "assets/en");
    assert_eq!(join_address("", "en"), "en");
    assert_eq!(join_address("assets", "/en"), "/en");
}

#[test]
fn modules_root_joins_a_valid_directory_and_names_an_invalid_one() {
    let descriptor = CatalogDescriptor {
        modules_directory: "translations".into(),
    };
    assert_eq!(
        modules_root("localization", &descriptor).unwrap(),
        "localization/translations"
    );
    let escaping = CatalogDescriptor {
        modules_directory: "../elsewhere".into(),
    };
    assert_eq!(
        modules_root("localization", &escaping),
        Err(AddressError::InvalidAddress("../elsewhere".into()))
    );
}

#[test]
fn plans_address_every_module_below_its_locale() {
    let plans = plans();
    assert_eq!(plans.len(), 2);
    assert_eq!(plans[0].path, "ui.ftl");
    assert_eq!(plans[0].address, "assets/translations/es/ui.ftl");
    assert_eq!(plans[1].path, "menu/hud.ftl");
    assert_eq!(plans[1].address, "assets/translations/es/menu/hud.ftl");
}

#[test]
fn plans_refuse_bad_locales_and_modules() {
    let modules = Texts::modules("en");
    assert_eq!(
        plan_locale("root", "en/us", &modules).err(),
        Some(AddressError::NotOneDirectory)
    );
    assert_eq!(
        plan_locale("root", "../en", &modules).err(),
        Some(AddressError::InvalidAddress("../en".into()))
    );
    let folder = [
        Module {
            path: "ui.ftl",
            embedded: "",
        },
        Module {
            path: "menu/",
            embedded: "",
        },
    ];
    assert_eq!(
        plan_locale("root", "en", &folder).err(),
        Some(AddressError::NotAFile)
    );
}

#[test]
fn failed_reads_become_address_lines_and_successful_reads_stay() {
    let reads = collect_reads(
        &plans(),
        vec![Ok("hello = Hola\n".into()), Err("not found".into())],
    );
    assert_eq!(reads.sources, vec![("ui.ftl", "hello = Hola\n".to_string())]);
    assert_eq!(
        reads.failures,
        vec!["assets/translations/es/menu/hud.ftl: not found".to_string()]
    );
    assert_eq!(
        failure_report(&["a: x".to_string(), "b: y".to_string()]),
        "a: x\nb: y"
    );
    assert_eq!(failure_report(&[]), "");
}

#[test]
fn incomplete_languages_are_rejected_without_parsing() {
    let reads = collect_reads(&plans(), vec![Err("gone".into()), Err("denied".into())]);
    let candidate = Candidate::<Texts>::assemble("es", reads);
    assert_eq!(candidate.locale, "es");
    assert_eq!(
        candidate.catalog.err(),
        Some(
            "assets/translations/es/ui.ftl: gone\nassets/translations/es/menu/hud.ftl: denied"
                .to_string()
        )
    );
    assert!(candidate.sources.is_empty());

    let reads = collect_reads(&plans(), vec![Ok("a".into()), Ok("b".into())]);
    let candidate = Candidate::<Texts>::assemble("es", reads);
    assert_eq!(candidate.catalog.unwrap().0, "ui.ftl=a;menu/hud.ftl=b");
}

#[test]
fn rejected_languages_keep_their_last_good_catalog() {
    let mut state = Localization::<Texts>::new("es");
    let accepted = Candidate::<Texts>::assemble(
        "ru",
        collect_reads(&plans(), vec![Ok("x".into()), Ok("y".into())]),
    );
    let rejected = Candidate::<Texts>::assemble(
        "es",
        collect_reads(&plans(), vec![Ok("broken".into()), Ok("y".into())]),
    );
    let updates = apply_candidates(&mut state, &[accepted, rejected], "i18n/texts.ftl.toml");
    assert_eq!(updates.len(), 2);
    assert!(matches!(updates[0], CatalogUpdate::Loaded { locale: "ru" }));
    match &updates[1] {
        CatalogUpdate::Rejected {
            locale,
            path,
            error,
        } => {
            assert_eq!(*locale, Some("es"));
            assert_eq!(path, "i18n/texts.ftl.toml");
            assert_eq!(error, "es: syntax error");
        }
        CatalogUpdate::Loaded { .. } => panic!("the broken language was accepted"),
    }
    assert_eq!(state.locale(), "es");
    assert_eq!(state.catalog().0, "embedded es");
    state.set_locale("ru");
    assert_eq!(state.catalog().0, "ui.ftl=x;menu/hud.ftl=y");
}

#[test]
fn aggregate_failures_name_no_language() {
    match aggregate_failure::<Texts>("texts.ftl.toml", "bad definition") {
        CatalogUpdate::Rejected {
            locale,
            path,
            error,
        } => {
            assert_eq!(locale, None);
            assert_eq!(path, "texts.ftl.toml");
            assert_eq!(error, "bad definition");
        }
        CatalogUpdate::Loaded { .. } => panic!("an aggregate failure loaded a language"),
    }
}
