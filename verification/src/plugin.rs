//! Registration data for one provider; scheduling belongs to the host engine.
use std::marker::PhantomData;
use vstd::prelude::*;
use crate::catalog::FluentCatalog;

verus! {

/// Scheduling hooks for application-specific reload reporting and text consumers.
#[derive(Clone, Copy, Debug, PartialEq, Eq, Hash, Structural)]
pub enum LocalizationSystems {
    /// Before the frame's update: process reloads, report outcomes and synchronize
    /// module resources.
    Publish,
    /// After the frame's update: synchronize resources after locale changes, then
    /// refresh bindings before text layout.
    Refresh,
}

/// Typed catalog loading and in-place text bindings for one provider.
///
/// The definition path is authoritative: no conventional filename is assumed.
/// Its bytes are interpreted by [`FluentCatalog::descriptor`].
#[verifier::reject_recursive_types(C)]
pub struct LocalizationPlugin<C: FluentCatalog> {
    definition_path: String,
    marker: PhantomData<C>,
}

impl<C: FluentCatalog> LocalizationPlugin<C> {
    /// The path of the provider's definition asset, relative to the asset root.
    pub closed spec fn path(self) -> Seq<char> {
        self.definition_path@
    }

    /// Store the path of the provider's definition asset. Later load failures
    /// arrive as reload notifications, preserving embedded or last good catalogs.
    pub fn new(definition_path: &str) -> (r: Self)
        ensures
            r.path() == definition_path@,
    {
        LocalizationPlugin { definition_path: definition_path.to_owned(), marker: PhantomData }
    }

    /// The stored definition path.
    pub fn definition_path(&self) -> (r: &str)
        ensures
            r@ == self.path(),
    {
        self.definition_path.as_str()
    }
}

} // verus!
