use bevy_fluent_typed::bindings::refreshed_text;
use bevy_fluent_typed::{
    CatalogDescriptor, FluentCatalog, Localization, LocalizedText, Message, Module, ModuleSource,
};

struct TestCatalog(String);

impl FluentCatalog for TestCatalog {
    type Locale = &'static str;

    fn locales() -> &'static [Self::Locale] {
        &["de", "es", "ja"]
    }

    fn default_locale() -> Self::Locale {
        "ja"
    }

    fn embedded(locale: Self::Locale) -> Self {
        Self(locale.into())
    }

    fn descriptor(_: &[u8]) -> Result<CatalogDescriptor, String> {
        Ok(CatalogDescriptor {
            modules_directory: ".".into(),
        })
    }

    fn modules(_: Self::Locale) -> Vec<Module> {
        vec![Module {
            path: "ui.ftl",
            embedded: "hello = Hi\n",
        }]
    }

    fn parse(_: Self::Locale, sources: &[ModuleSource<'_>]) -> Result<Self, String> {
        Ok(Self(sources.iter().map(|module| module.source).collect()))
    }
}

/// One refresh pass over a bound label, as the engine systems run it.
fn refresh(
    label: &mut String,
    binding: &LocalizedText<TestCatalog>,
    state: &Localization<TestCatalog>,
    localization_changed: bool,
    binding_changed: bool,
) {
    if let Some(text) = refreshed_text(localization_changed, binding_changed, label, binding, state) {
        *label = text;
    }
}

#[test]
fn deferred_messages_and_existing_ui_world_labels_follow_the_active_catalog() {
    let message = Message::<TestCatalog>::new(|catalog| catalog.0.clone());
    let cloned = message.clone();
    let mut state = Localization::<TestCatalog>::default();
    let ui = LocalizedText::from(message);
    let world = LocalizedText::from(cloned.clone());
    let mut ui_label = String::new();
    let mut world_label = String::new();
    refresh(&mut ui_label, &ui, &state, true, true);
    refresh(&mut world_label, &world, &state, true, true);
    assert_eq!(ui_label, "ja");
    state.set_locale("es");
    refresh(&mut ui_label, &ui, &state, true, false);
    refresh(&mut world_label, &world, &state, true, false);
    assert_eq!(ui_label, "es");
    assert_eq!(world_label, "es");
    assert_eq!(cloned.render(state.catalog()), "es");
}

#[test]
fn unchanged_frames_and_literals_leave_labels_alone() {
    let state = Localization::<TestCatalog>::default();
    let binding = LocalizedText::from(Message::<TestCatalog>::literal("fixed"));
    assert_eq!(refreshed_text(false, false, "stale", &binding, &state), None);
    assert_eq!(
        refreshed_text(false, true, "stale", &binding, &state),
        Some("fixed".to_string())
    );
    assert_eq!(refreshed_text(true, false, "fixed", &binding, &state), None);
    assert_eq!(Message::<TestCatalog>::literal("x").render(state.catalog()), "x");
    let formatted = LocalizedText::<TestCatalog>::new(|catalog| format!("{}!", catalog.0));
    assert_eq!(formatted.binding().render(state.catalog()), "ja!");
}

#[test]
fn messages_describe_themselves_without_formatting() {
    let message = Message::<TestCatalog>::new(|_| panic!("formatted while described"));
    assert_eq!(message.describe(), "Message(<typed formatter>)");
    assert_eq!(
        Message::<TestCatalog>::literal("x").describe(),
        "Message(<typed formatter>)"
    );
}
