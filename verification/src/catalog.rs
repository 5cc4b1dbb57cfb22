//! Application-supplied generated API and its modular source catalogs.
use vstd::prelude::*;
use vstd::std_specs::cmp::PartialEqSpec;

verus! {

/// Validated source layout, relative to the loaded definition asset's directory.
///
/// A provider interprets its own definition format. The runtime validates these
/// asset addresses, watches declared modules and publishes checked snapshots.
pub struct CatalogDescriptor {
    /// Directory containing locale subdirectories; `.` means the definition's parent.
    /// Must be a nonempty relative path without parent or root components,
    /// backslashes, `#` or `:`. Modules inherit the definition's named asset source.
    pub modules_directory: String,
}

/// One source module relative to a language directory, with its embedded text.
#[derive(Clone, Copy, Debug)]
pub struct Module {
    /// Relative path below a locale directory, e.g. `ui/menu.ftl`.
    /// Must name a file, with no parent or root components, backslashes, `#` or `:`.
    pub path: &'static str,
    /// Embedded source, used to recognize unchanged external modules.
    pub embedded: &'static str,
}

/// One external Fluent module, identified by path rather than input order.
#[derive(Clone, Copy, Debug)]
pub struct ModuleSource<'a> {
    /// Relative path below the language directory.
    pub path: &'a str,
    /// Unmodified Fluent source for this module.
    pub source: &'a str,
}

/// A provider's locale list as the runtime requires it: nonempty, compared by the
/// locale type's own `==` (an equivalence), and without two equal entries.
pub open spec fn declared_locales<L: PartialEq>(locales: Seq<L>) -> bool {
    &&& locales.len() > 0
    &&& L::obeys_eq_spec()
    &&& forall|i: int, j: int|
        0 <= i < locales.len() && 0 <= j < locales.len() ==> (#[trigger] locales[i].eq_spec(
            &locales[j],
        ) <==> i == j)
}

/// `locale` is one of `locales`, as the locale type's `==` decides.
pub open spec fn declares<L: PartialEq>(locales: Seq<L>, locale: L) -> bool {
    exists|k: int| 0 <= k < locales.len() && #[trigger] locales[k].eq_spec(&locale)
}

/// Runtime contract for an application's typed catalog.
///
/// Providers supply descriptors and checked snapshots; generation and definition
/// formats are not part of this runtime contract.
///
/// Locale identifiers must be unique nonempty directory names. The locale list
/// must include the default, and every locale must provide the same module/API
/// schema. Embedded catalogs are trusted build-time-validated fallbacks.
///
/// The runtime relies on two promises of every implementation, stated on
/// [`FluentCatalog::locales`] and [`FluentCatalog::default_locale`]: the list is
/// stable, nonempty and its entries are pairwise different under the locale
/// type's `==`, which behaves as an equivalence; the default locale is one of
/// them. Nothing checks these promises; they are the documented duty of the
/// provider.
pub trait FluentCatalog: Send + Sync + Sized + 'static {
    /// Stable locale identifier.
    type Locale: Copy + Eq + Send + Sync + 'static;

    /// The compiled locales, in order: what [`Self::locales`] returns on every call.
    /// A provider checked by Verus defines it as its list; for any other provider
    /// it stays one unspecified sequence, which the promise on [`Self::locales`]
    /// ties to the list returned.
    closed spec fn locale_list() -> Seq<Self::Locale> {
        arbitrary()
    }

    /// All compiled locales, in a stable, nonempty order, with no duplicates.
    fn locales() -> (r: &'static [Self::Locale])
        ensures
            r@ == Self::locale_list(),
            declared_locales(r@),
    ;

    /// The startup language: what [`Self::default_locale`] returns on every call.
    /// As with [`Self::locale_list`], a provider not checked by Verus leaves it
    /// unspecified, tied to the real value by the promise on [`Self::default_locale`].
    closed spec fn startup_locale() -> Self::Locale {
        arbitrary()
    }

    /// Startup language, which must belong to [`Self::locales`].
    fn default_locale() -> (r: Self::Locale)
        ensures
            r == Self::startup_locale(),
            declares(Self::locale_list(), r),
    ;

    /// Interpret and validate an opaque definition asset before loading its modules.
    ///
    /// # Errors
    /// Reject incompatible definitions without changing any published language.
    fn descriptor(definition: &[u8]) -> Result<CatalogDescriptor, String>;

    /// Load a build-validated embedded catalog without filesystem access.
    fn embedded(locale: Self::Locale) -> Self;

    /// Every source module for a locale; paths and schemas must match across locales.
    /// Paths must be unique and iteration order stable across calls.
    fn modules(locale: Self::Locale) -> Vec<Module>;

    /// Parse external modules without discarding their namespaces.
    ///
    /// # Errors
    /// Return a diagnostic when any source cannot supply this catalog's typed API.
    fn parse(locale: Self::Locale, sources: &[ModuleSource<'_>]) -> Result<Self, String>;
}

/// `k` is the first position of `locale` among `locales`.
pub open spec fn is_first_position<L: PartialEq>(locales: Seq<L>, locale: L, k: int) -> bool {
    &&& 0 <= k < locales.len()
    &&& locales[k].eq_spec(&locale)
    &&& forall|j: int| 0 <= j < k ==> !(#[trigger] locales[j].eq_spec(&locale))
}

/// The first position of a declared `locale` among `locales`.
pub open spec fn position<L: PartialEq>(locales: Seq<L>, locale: L) -> int {
    choose|k: int| is_first_position(locales, locale, k)
}

pub proof fn lemma_position<L: PartialEq>(locales: Seq<L>, locale: L, k: int)
    requires
        is_first_position(locales, locale, k),
    ensures
        position(locales, locale) == k,
{
    let p = position(locales, locale);
    assert(is_first_position(locales, locale, p));
    if p < k {
        assert(!locales[p].eq_spec(&locale));
    } else if k < p {
        assert(!locales[k].eq_spec(&locale));
    }
}

/// A declared locale has a first position, and [`position`] finds it.
pub proof fn lemma_position_exists<L: PartialEq>(locales: Seq<L>, locale: L)
    requires
        declares(locales, locale),
    ensures
        is_first_position(locales, locale, position(locales, locale)),
{
    let k = choose|k: int| 0 <= k < locales.len() && #[trigger] locales[k].eq_spec(&locale);
    lemma_first_below(locales, locale, k);
}

proof fn lemma_first_below<L: PartialEq>(locales: Seq<L>, locale: L, k: int)
    requires
        0 <= k < locales.len(),
        locales[k].eq_spec(&locale),
    ensures
        is_first_position(locales, locale, position(locales, locale)),
    decreases k,
{
    if exists|j: int| 0 <= j < k && #[trigger] locales[j].eq_spec(&locale) {
        let j = choose|j: int| 0 <= j < k && #[trigger] locales[j].eq_spec(&locale);
        lemma_first_below(locales, locale, j);
    } else {
        assert(is_first_position(locales, locale, k));
    }
}

/// In a declared locale list, every entry's first position is its own index.
pub proof fn lemma_position_of_entry<L: PartialEq>(locales: Seq<L>, k: int)
    requires
        declared_locales(locales),
        0 <= k < locales.len(),
    ensures
        position(locales, locales[k]) == k,
        declares(locales, locales[k]),
{
    assert(locales[k].eq_spec(&locales[k]));
    assert forall|j: int| 0 <= j < k implies !(#[trigger] locales[j].eq_spec(&locales[k])) by {}
    lemma_position(locales, locales[k], k);
}

/// Position of `locale` among `locales`, by the locale type's `==`.
pub fn index<L: PartialEq + Copy>(locales: &[L], locale: L) -> (r: Option<usize>)
    requires
        declared_locales(locales@),
    ensures
        declares(locales@, locale) ==> (r matches Some(k) && k == position(locales@, locale)),
        !declares(locales@, locale) ==> r is None,
{
    let mut i: usize = 0;
    while i < locales.len()
        invariant
            i <= locales@.len(),
            declared_locales(locales@),
            forall|k: int| 0 <= k < i ==> !(#[trigger] locales@[k].eq_spec(&locale)),
        decreases locales@.len() - i,
    {
        if locales[i] == locale {
            proof {
                lemma_position(locales@, locale, i as int);
            }
            return Some(i);
        }
        i = i + 1;
    }
    proof {
        if declares(locales@, locale) {
            let k = choose|k: int| 0 <= k < locales@.len() && #[trigger] locales@[k].eq_spec(&locale);
            assert(!locales@[k].eq_spec(&locale));
        }
    }
    None
}

} // verus!
