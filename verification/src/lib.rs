//! Typed Fluent localization catalogs for a game engine: safe asset addresses,
//! the active language with last-known-good catalogs per language, deferred
//! messages, aggregate reloads that publish each language atomically, and the
//! checks of the release-compatibility tool.
use vstd::prelude::*;

pub mod text;
pub mod addresses;
pub mod catalog;
pub mod state;
pub mod message;
pub mod loading;
pub mod bindings;
pub mod plugin;
pub mod definition;
pub mod matrix;
pub mod graph;
pub mod checks;
pub mod runner;

pub use catalog::{CatalogDescriptor, FluentCatalog, Module, ModuleSource};
pub use definition::validate_definition;
pub use message::{CatalogUpdate, LocalizedText, Message, ReloadCatalogs};
pub use plugin::{LocalizationPlugin, LocalizationSystems};
pub use state::Localization;

verus! {
} // verus!
