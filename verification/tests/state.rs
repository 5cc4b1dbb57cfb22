use bevy_fluent_typed::{CatalogDescriptor, FluentCatalog, Localization, Module, ModuleSource};
use std::sync::Arc;

// Deliberately no Clone, Default or TypePath: generated catalogs need none.
struct TestCatalog(String);

impl FluentCatalog for TestCatalog {
    type Locale = &'static str;

    fn locales() -> &'static [Self::Locale] {
        &["de", "es", "ja"]
    }

    fn default_locale() -> Self::Locale {
        "ja"
    }

    fn embedded(locale: Self::Locale) -> Self {
        Self(locale.into())
    }

    fn descriptor(_: &[u8]) -> Result<CatalogDescriptor, String> {
        Ok(CatalogDescriptor {
            modules_directory: ".".into(),
        })
    }

    fn modules(_: Self::Locale) -> Vec<Module> {
        vec![Module {
            path: "ui.ftl",
            embedded: "hello = Hi\n",
        }]
    }

    fn parse(_: Self::Locale, sources: &[ModuleSource<'_>]) -> Result<Self, String> {
        Ok(Self(sources.iter().map(|module| module.source).collect()))
    }
}

#[test]
fn arbitrary_locales_default_and_inactive_reload_keep_their_own_catalogs() {
    let mut state = Localization::<TestCatalog>::default();
    assert_eq!(state.locale(), "ja");
    state.publish(
        "es",
        Arc::new(TestCatalog("changed".into())),
        &[("ui.ftl", "changed".into())],
    );
    assert_eq!(state.catalog().0, "ja");
    state.set_locale("es");
    assert_eq!(state.catalog().0, "changed");
    state.set_locale("de");
    assert_eq!(state.catalog().0, "de");
}

#[test]
fn unchanged_sources_keep_the_published_snapshot() {
    let mut state = Localization::<TestCatalog>::new("es");
    assert_eq!(state.locale(), "es");
    let before = state.snapshot();
    // The embedded sources are republished unchanged: the snapshot stays.
    state.publish(
        "es",
        Arc::new(TestCatalog("ignored".into())),
        &[("ui.ftl", "hello = Hi\n".into())],
    );
    assert!(Arc::ptr_eq(&before, &state.snapshot()));
    assert_eq!(state.catalog().0, "es");
    // Changed sources replace it.
    state.publish(
        "es",
        Arc::new(TestCatalog("replaced".into())),
        &[("ui.ftl", "hello = Hola\n".into())],
    );
    assert_eq!(state.catalog().0, "replaced");
    assert_eq!(state.locale(), "es");
}
