//! Active language and immutable last-known-good catalogs of an arbitrary provider.
use std::sync::Arc;
use vstd::prelude::*;
use vstd::std_specs::cmp::PartialEqSpec;
use crate::catalog::{
    declared_locales, declares, index, lemma_position_exists, lemma_position_of_entry, position,
    FluentCatalog, Module,
};
use crate::text::str_equal;

verus! {

/// The text of an ordered module-source list: `(path, source)` pairs.
pub open spec fn sources_view(sources: Seq<(&'static str, String)>) -> Seq<(Seq<char>, Seq<char>)> {
    sources.map_values(|p: (&'static str, String)| (p.0@, p.1@))
}

/// The embedded module sources of one locale, as `(path, source)` pairs.
pub open spec fn embedded_sources_view(modules: Seq<Module>) -> Seq<(Seq<char>, Seq<char>)> {
    modules.map_values(|m: Module| (m.path@, m.embedded@))
}

/// The catalogs and sources after publishing `catalog` with `sources` at
/// position `k`: unchanged when the sources equal the stored ones, else both
/// replaced at `k`.
pub open spec fn after_publish<C>(
    catalogs: Seq<C>,
    sources: Seq<Seq<(Seq<char>, Seq<char>)>>,
    k: int,
    catalog: C,
    new_sources: Seq<(Seq<char>, Seq<char>)>,
) -> (Seq<C>, Seq<Seq<(Seq<char>, Seq<char>)>>) {
    if sources[k] == new_sources {
        (catalogs, sources)
    } else {
        (catalogs.update(k, catalog), sources.update(k, new_sources))
    }
}

/// `catalog` and `sources` are what the provider embeds for `locale`: the result
/// of [`FluentCatalog::embedded`] and the embedded texts of [`FluentCatalog::modules`].
pub open spec fn holds_embedded<C: FluentCatalog>(
    locale: C::Locale,
    catalog: C,
    sources: Seq<(Seq<char>, Seq<char>)>,
) -> bool {
    &&& call_ensures(C::embedded, (locale,), catalog)
    &&& exists|modules: Vec<Module>|
        call_ensures(C::modules, (locale,), modules) && sources == embedded_sources_view(
            #[trigger] modules@,
        )
}

/// Share an immutable snapshot: the clone points at the same value.
#[verifier::external_body]
pub(crate) fn share<T: ?Sized>(snapshot: &Arc<T>) -> (r: Arc<T>)
    ensures
        r == *snapshot,
{
    Arc::clone(snapshot)
}

/// Whether two ordered module-source lists hold the same paths and texts.
pub fn same_sources(a: &[(&'static str, String)], b: &[(&'static str, String)]) -> (r: bool)
    ensures
        r == (sources_view(a@) == sources_view(b@)),
{
    if a.len() != b.len() {
        assert(sources_view(a@).len() != sources_view(b@).len());
        return false;
    }
    let mut i: usize = 0;
    while i < a.len()
        invariant
            a@.len() == b@.len(),
            i <= a@.len(),
            forall|k: int| 0 <= k < i ==> #[trigger] sources_view(a@)[k] == sources_view(b@)[k],
        decreases a@.len() - i,
    {
        let path_equal = str_equal(a[i].0, b[i].0);
        let text_equal = a[i].1 == b[i].1;
        if !path_equal || !text_equal {
            assert(sources_view(a@)[i as int] != sources_view(b@)[i as int]);
            return false;
        }
        i = i + 1;
    }
    assert(sources_view(a@) =~= sources_view(b@));
    true
}

/// Copy an ordered module-source list.
pub fn copy_sources(sources: &[(&'static str, String)]) -> (r: Vec<(&'static str, String)>)
    ensures
        sources_view(r@) == sources_view(sources@),
{
    let mut r: Vec<(&'static str, String)> = Vec::new();
    let mut i: usize = 0;
    while i < sources.len()
        invariant
            i <= sources@.len(),
            r@.len() == i,
            forall|k: int| 0 <= k < i ==> #[trigger] sources_view(r@)[k] == sources_view(sources@)[k],
        decreases sources@.len() - i,
    {
        let path = sources[i].0;
        let text = sources[i].1.clone();
        let ghost prev = r@;
        r.push((path, text));
        proof {
            assert forall|k: int| 0 <= k < i + 1 implies #[trigger] sources_view(r@)[k]
                == sources_view(sources@)[k] by {
                if k < i {
                    assert(r@[k] == prev[k]);
                    assert(sources_view(prev)[k] == sources_view(sources@)[k]);
                }
            }
        }
        i = i + 1;
    }
    assert(sources_view(r@) =~= sources_view(sources@));
    r
}

/// The embedded sources of a locale's modules, as `(path, text)` pairs.
pub fn embedded_sources(modules: &[Module]) -> (r: Vec<(&'static str, String)>)
    ensures
        sources_view(r@) == embedded_sources_view(modules@),
{
    let mut r: Vec<(&'static str, String)> = Vec::new();
    let mut i: usize = 0;
    while i < modules.len()
        invariant
            i <= modules@.len(),
            r@.len() == i,
            forall|k: int| 0 <= k < i ==> #[trigger] sources_view(r@)[k] == embedded_sources_view(modules@)[k],
        decreases modules@.len() - i,
    {
        let module = modules[i];
        let ghost prev = r@;
        r.push((module.path, module.embedded.to_owned()));
        proof {
            assert forall|k: int| 0 <= k < i + 1 implies #[trigger] sources_view(r@)[k]
                == embedded_sources_view(modules@)[k] by {
                if k < i {
                    assert(r@[k] == prev[k]);
                    assert(sources_view(prev)[k] == embedded_sources_view(modules@)[k]);
                }
            }
        }
        i = i + 1;
    }
    assert(sources_view(r@) =~= embedded_sources_view(modules@));
    r
}

/// Active language and independently replaceable last-known-good catalogs.
///
/// Initialized from embedded data. Replacing an inactive locale does not select it.
#[verifier::reject_recursive_types(C)]
pub struct Localization<C: FluentCatalog> {
    active: usize,
    locales: &'static [C::Locale],
    catalogs: Vec<Arc<C>>,
    sources: Vec<Vec<(&'static str, String)>>,
}

/// The catalogs and sources after publishing each `(locale, catalog, sources)`
/// in order, as [`Localization::publish`] does; selecting a language between
/// publications changes neither.
pub open spec fn after_publishes<C: FluentCatalog>(
    declared: Seq<C::Locale>,
    catalogs: Seq<C>,
    sources: Seq<Seq<(Seq<char>, Seq<char>)>>,
    publications: Seq<(C::Locale, C, Seq<(Seq<char>, Seq<char>)>)>,
) -> (Seq<C>, Seq<Seq<(Seq<char>, Seq<char>)>>)
    decreases publications.len(),
{
    if publications.len() == 0 {
        (catalogs, sources)
    } else {
        let prev = after_publishes(declared, catalogs, sources, publications.drop_last());
        let last = publications.last();
        after_publish(prev.0, prev.1, position(declared, last.0), last.1, last.2)
    }
}

proof fn lemma_after_publishes_lengths<C: FluentCatalog>(
    declared: Seq<C::Locale>,
    catalogs: Seq<C>,
    sources: Seq<Seq<(Seq<char>, Seq<char>)>>,
    publications: Seq<(C::Locale, C, Seq<(Seq<char>, Seq<char>)>)>,
)
    requires
        declared_locales(declared),
        catalogs.len() == declared.len(),
        sources.len() == declared.len(),
        forall|i: int| 0 <= i < publications.len() ==> declares(declared, #[trigger] publications[i].0),
    ensures
        after_publishes(declared, catalogs, sources, publications).0.len() == declared.len(),
        after_publishes(declared, catalogs, sources, publications).1.len() == declared.len(),
    decreases publications.len(),
{
    if publications.len() > 0 {
        let shorter = publications.drop_last();
        assert forall|i: int| 0 <= i < shorter.len() implies declares(declared, #[trigger] shorter[i].0) by {
            assert(shorter[i] == publications[i]);
        }
        lemma_after_publishes_lengths(declared, catalogs, sources, shorter);
        lemma_position_exists(declared, publications.last().0);
    }
}

/// A language keeps its catalog and sources through any publications that,
/// for it, only bring the sources it already has: a catalog changes only by
/// publishing that language with new sources. With [`Localization::new`], a
/// language shows its embedded catalog until such a publication.
pub proof fn law_catalog_changes_only_with_new_sources<C: FluentCatalog>(
    declared: Seq<C::Locale>,
    catalogs: Seq<C>,
    sources: Seq<Seq<(Seq<char>, Seq<char>)>>,
    publications: Seq<(C::Locale, C, Seq<(Seq<char>, Seq<char>)>)>,
    k: int,
)
    requires
        declared_locales(declared),
        catalogs.len() == declared.len(),
        sources.len() == declared.len(),
        0 <= k < declared.len(),
        forall|i: int| 0 <= i < publications.len() ==> declares(declared, #[trigger] publications[i].0),
        forall|i: int|
            0 <= i < publications.len() && position(declared, (#[trigger] publications[i]).0) == k
                ==> after_publishes(declared, catalogs, sources, publications.take(i)).1[k]
                == publications[i].2,
    ensures
        after_publishes(declared, catalogs, sources, publications).0[k] == catalogs[k],
        after_publishes(declared, catalogs, sources, publications).1[k] == sources[k],
    decreases publications.len(),
{
    if publications.len() > 0 {
        let n = publications.len() - 1;
        let shorter = publications.drop_last();
        assert forall|i: int| 0 <= i < shorter.len() implies declares(declared, #[trigger] shorter[i].0) by {
            assert(shorter[i] == publications[i]);
        }
        assert forall|i: int|
            0 <= i < shorter.len() && position(declared, (#[trigger] shorter[i]).0) == k implies after_publishes(
                declared,
                catalogs,
                sources,
                shorter.take(i),
            ).1[k] == shorter[i].2 by {
            assert(shorter[i] == publications[i]);
            assert(shorter.take(i) =~= publications.take(i));
        }
        law_catalog_changes_only_with_new_sources(declared, catalogs, sources, shorter, k);
        lemma_after_publishes_lengths(declared, catalogs, sources, shorter);
        let last = publications.last();
        assert(last == publications[n]);
        assert(publications.take(n) =~= shorter);
        lemma_position_exists(declared, last.0);
        let pos = position(declared, last.0);
        let prev = after_publishes(declared, catalogs, sources, shorter);
        if prev.1[pos] != last.2 {
            assert(pos != k);
            assert(prev.0.update(pos, last.1)[k] == prev.0[k]);
            assert(prev.1.update(pos, last.2)[k] == prev.1[k]);
        }
    }
}

/// After publishing a language with new sources, it shows that catalog as long
/// as later publications bring it only the sources it then has: the catalog of
/// a language is the one of its latest publication with new sources.
pub proof fn law_latest_new_publication_is_shown<C: FluentCatalog>(
    declared: Seq<C::Locale>,
    catalogs: Seq<C>,
    sources: Seq<Seq<(Seq<char>, Seq<char>)>>,
    publications: Seq<(C::Locale, C, Seq<(Seq<char>, Seq<char>)>)>,
    j: int,
)
    requires
        declared_locales(declared),
        catalogs.len() == declared.len(),
        sources.len() == declared.len(),
        forall|i: int| 0 <= i < publications.len() ==> declares(declared, #[trigger] publications[i].0),
        0 <= j < publications.len(),
        after_publishes(declared, catalogs, sources, publications.take(j)).1[position(
            declared,
            publications[j].0,
        )] != publications[j].2,
        forall|i: int|
            j < i < publications.len() && position(declared, (#[trigger] publications[i]).0)
                == position(declared, publications[j].0) ==> after_publishes(
                declared,
                catalogs,
                sources,
                publications.take(i),
            ).1[position(declared, publications[j].0)] == publications[i].2,
    ensures
        after_publishes(declared, catalogs, sources, publications).0[position(
            declared,
            publications[j].0,
        )] == publications[j].1,
        after_publishes(declared, catalogs, sources, publications).1[position(
            declared,
            publications[j].0,
        )] == publications[j].2,
    decreases publications.len(),
{
    let n = publications.len() - 1;
    let k = position(declared, publications[j].0);
    lemma_position_exists(declared, publications[j].0);
    let shorter = publications.drop_last();
    assert forall|i: int| 0 <= i < shorter.len() implies declares(declared, #[trigger] shorter[i].0) by {
        assert(shorter[i] == publications[i]);
    }
    lemma_after_publishes_lengths(declared, catalogs, sources, shorter);
    let last = publications.last();
    assert(last == publications[n]);
    assert(publications.take(n) =~= shorter);
    lemma_position_exists(declared, last.0);
    let pos = position(declared, last.0);
    let prev = after_publishes(declared, catalogs, sources, shorter);
    if j < n {
        assert(shorter[j] == publications[j]);
        assert(shorter.take(j) =~= publications.take(j));
        assert forall|i: int|
            j < i < shorter.len() && position(declared, (#[trigger] shorter[i]).0) == position(
                declared,
                shorter[j].0,
            ) implies after_publishes(declared, catalogs, sources, shorter.take(i)).1[position(
                declared,
                shorter[j].0,
            )] == shorter[i].2 by {
            assert(shorter[i] == publications[i]);
            assert(shorter.take(i) =~= publications.take(i));
        }
        law_latest_new_publication_is_shown(declared, catalogs, sources, shorter, j);
        if prev.1[pos] != last.2 {
            assert(pos != k);
            assert(prev.0.update(pos, last.1)[k] == prev.0[k]);
            assert(prev.1.update(pos, last.2)[k] == prev.1[k]);
        }
    }
}

impl<C: FluentCatalog> Localization<C> {
    /// Position of the active locale in [`Self::declared`].
    pub closed spec fn active_index(self) -> int {
        self.active as int
    }

    /// The provider's locales, in declaration order.
    pub closed spec fn declared(self) -> Seq<C::Locale> {
        self.locales@
    }

    /// The last-known-good catalog of each declared locale.
    pub closed spec fn catalogs(self) -> Seq<C> {
        self.catalogs@.map_values(|a: Arc<C>| *a)
    }

    /// The module sources behind each catalog, as `(path, text)` pairs.
    pub closed spec fn sources(self) -> Seq<Seq<(Seq<char>, Seq<char>)>> {
        self.sources@.map_values(|v: Vec<(&'static str, String)>| sources_view(v@))
    }

    /// The currently selected language.
    pub open spec fn active_locale(self) -> C::Locale {
        self.declared()[self.active_index()]
    }

    /// The catalog of the currently selected language.
    pub open spec fn active_catalog(self) -> C {
        self.catalogs()[self.active_index()]
    }

    /// The well-formedness every value of this type keeps: a valid locale list,
    /// one catalog and one source list per locale, and an active locale among them.
    pub open spec fn valid(self) -> bool {
        &&& declared_locales(self.declared())
        &&& self.catalogs().len() == self.declared().len()
        &&& self.sources().len() == self.declared().len()
        &&& 0 <= self.active_index() < self.declared().len()
    }

    /// Selecting the active language again changes nothing: the active locale is
    /// declared and its first position is the active index.
    pub proof fn law_reselecting_the_active_locale_keeps_the_state(self)
        requires
            self.valid(),
        ensures
            declares(self.declared(), self.active_locale()),
            position(self.declared(), self.active_locale()) == self.active_index(),
    {
        lemma_position_of_entry(self.declared(), self.active_index());
    }

    /// Publishing a language other than the active one leaves the active catalog
    /// as it was.
    pub proof fn law_publishing_another_locale_keeps_the_active_catalog(
        self,
        locale: C::Locale,
        catalog: C,
        sources: Seq<(Seq<char>, Seq<char>)>,
    )
        requires
            self.valid(),
            declares(self.declared(), locale),
            !self.active_locale().eq_spec(&locale),
        ensures
            after_publish(
                self.catalogs(),
                self.sources(),
                position(self.declared(), locale),
                catalog,
                sources,
            ).0[self.active_index()] == self.active_catalog(),
    {
        lemma_position_exists(self.declared(), locale);
    }

    /// Publishing the sources a language already has keeps every catalog and
    /// source list, so the existing snapshot stays in place.
    pub proof fn law_unchanged_sources_keep_every_catalog(
        self,
        locale: C::Locale,
        catalog: C,
        sources: Seq<(Seq<char>, Seq<char>)>,
    )
        requires
            self.valid(),
            declares(self.declared(), locale),
            self.sources()[position(self.declared(), locale)] == sources,
        ensures
            after_publish(
                self.catalogs(),
                self.sources(),
                position(self.declared(), locale),
                catalog,
                sources,
            ) == (self.catalogs(), self.sources()),
    {
    }

    /// A language published with new sources shows the new catalog once it is
    /// selected: its position holds the new catalog and sources.
    pub proof fn law_published_catalog_is_read_back(
        self,
        locale: C::Locale,
        catalog: C,
        sources: Seq<(Seq<char>, Seq<char>)>,
    )
        requires
            self.valid(),
            declares(self.declared(), locale),
            self.sources()[position(self.declared(), locale)] != sources,
        ensures
            after_publish(
                self.catalogs(),
                self.sources(),
                position(self.declared(), locale),
                catalog,
                sources,
            ).0[position(self.declared(), locale)] == catalog,
            after_publish(
                self.catalogs(),
                self.sources(),
                position(self.declared(), locale),
                catalog,
                sources,
            ).1[position(self.declared(), locale)] == sources,
    {
        lemma_position_exists(self.declared(), locale);
    }

    /// Build a state from provider data already gathered: one catalog and one
    /// source list per locale, selecting `locale`.
    pub fn from_parts(
        locales: &'static [C::Locale],
        catalogs: Vec<Arc<C>>,
        sources: Vec<Vec<(&'static str, String)>>,
        locale: C::Locale,
    ) -> (r: Self)
        requires
            declared_locales(locales@),
            catalogs@.len() == locales@.len(),
            sources@.len() == locales@.len(),
            declares(locales@, locale),
        ensures
            r.declared() == locales@,
            r.catalogs() == catalogs@.map_values(|a: Arc<C>| *a),
            r.sources() == sources@.map_values(|v: Vec<(&'static str, String)>| sources_view(v@)),
            r.active_index() == position(locales@, locale),
            r.active_locale().eq_spec(&locale),
            r.valid(),
    {
        proof {
            lemma_position_exists(locales@, locale);
        }
        let found = index(locales, locale);
        let active = match found {
            Some(k) => k,
            None => 0,
        };
        Localization { active, locales, catalogs, sources }
    }

    /// Initialize every declared locale with the provider's embedded catalog and
    /// module texts, and select `locale`.
    pub fn new(locale: C::Locale) -> (r: Self)
        requires
            declares(C::locale_list(), locale),
        ensures
            r.valid(),
            r.declared() == C::locale_list(),
            r.active_index() == position(C::locale_list(), locale),
            r.active_locale().eq_spec(&locale),
            forall|i: int| 0 <= i < r.declared().len() ==> holds_embedded::<C>(
                r.declared()[i],
                #[trigger] r.catalogs()[i],
                r.sources()[i],
            ),
    {
        let locales = C::locales();
        let embed = C::embedded;
        let modules_of = C::modules;
        let mut catalogs: Vec<Arc<C>> = Vec::new();
        let mut sources: Vec<Vec<(&'static str, String)>> = Vec::new();
        let mut i: usize = 0;
        while i < locales.len()
            invariant
                i <= locales@.len(),
                catalogs@.len() == i,
                sources@.len() == i,
                forall|k: int| 0 <= k < i ==> holds_embedded::<C>(
                    locales@[k],
                    *#[trigger] catalogs@[k],
                    sources_view(sources@[k]@),
                ),
            decreases locales@.len() - i,
        {
            let l = locales[i];
            let catalog = embed(l);
            catalogs.push(Arc::new(catalog));
            let modules = modules_of(l);
            sources.push(embedded_sources(modules.as_slice()));
            proof {
                assert(holds_embedded::<C>(locales@[i as int], *catalogs@[i as int], sources_view(sources@[i as int]@)));
            }
            i = i + 1;
        }
        let r = Self::from_parts(locales, catalogs, sources, locale);
        proof {
            assert forall|i: int| 0 <= i < r.declared().len() implies holds_embedded::<C>(
                r.declared()[i],
                #[trigger] r.catalogs()[i],
                r.sources()[i],
            ) by {
                assert(r.catalogs()[i] == *catalogs@[i]);
                assert(r.sources()[i] == sources_view(sources@[i]@));
            }
        }
        r
    }

    /// Return the currently selected language.
    pub fn locale(&self) -> (r: C::Locale)
        requires
            self.valid(),
        ensures
            r == self.active_locale(),
    {
        self.locales[self.active]
    }

    /// Select a language without discarding any valid loaded catalogs.
    pub fn set_locale(&mut self, locale: C::Locale)
        requires
            old(self).valid(),
            declares(old(self).declared(), locale),
        ensures
            final(self).valid(),
            final(self).active_index() == position(old(self).declared(), locale),
            final(self).active_locale().eq_spec(&locale),
            final(self).declared() == old(self).declared(),
            final(self).catalogs() == old(self).catalogs(),
            final(self).sources() == old(self).sources(),
    {
        proof {
            lemma_position_exists(self.locales@, locale);
        }
        match index(self.locales, locale) {
            Some(k) => {
                self.active = k;
            },
            None => {},
        }
    }

    /// Borrow the active typed catalog for formatting at the presentation boundary.
    pub fn catalog(&self) -> (r: &C)
        requires
            self.valid(),
        ensures
            *r == self.active_catalog(),
    {
        &self.catalogs[self.active]
    }

    /// Share the active immutable snapshot.
    pub fn snapshot(&self) -> (r: Arc<C>)
        requires
            self.valid(),
        ensures
            *r == self.active_catalog(),
    {
        share(&self.catalogs[self.active])
    }

    /// Accept a fully validated locale without changing the active selection.
    /// Matching ordered sources keep the previous snapshot.
    pub fn publish(
        &mut self,
        locale: C::Locale,
        catalog: Arc<C>,
        sources: &[(&'static str, String)],
    )
        requires
            old(self).valid(),
            declares(old(self).declared(), locale),
        ensures
            final(self).valid(),
            final(self).declared() == old(self).declared(),
            final(self).active_index() == old(self).active_index(),
            (final(self).catalogs(), final(self).sources()) == after_publish(
                old(self).catalogs(),
                old(self).sources(),
                position(old(self).declared(), locale),
                *catalog,
                sources_view(sources@),
            ),
    {
        proof {
            lemma_position_exists(self.locales@, locale);
        }
        let k = match index(self.locales, locale) {
            Some(k) => k,
            None => {
                return;
            },
        };
        if same_sources(self.sources[k].as_slice(), sources) {
            return;
        }
        let copied = copy_sources(sources);
        self.sources.set(k, copied);
        self.catalogs.set(k, catalog);
        proof {
            assert(self.catalogs() =~= old(self).catalogs().update(k as int, *catalog));
            assert(self.sources() =~= old(self).sources().update(k as int, sources_view(sources@)));
        }
    }
}

impl<C: FluentCatalog> Default for Localization<C> {
    fn default() -> (r: Self)
        ensures
            r.valid(),
            r.declared() == C::locale_list(),
            r.active_index() == position(C::locale_list(), C::startup_locale()),
            r.active_locale().eq_spec(&C::startup_locale()),
            forall|i: int| 0 <= i < r.declared().len() ==> holds_embedded::<C>(
                r.declared()[i],
                #[trigger] r.catalogs()[i],
                r.sources()[i],
            ),
    {
        Self::new(C::default_locale())
    }
}

} // verus!
