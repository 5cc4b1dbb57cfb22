//! Deferred typed messages and catalog reload notifications.
use std::marker::PhantomData;
use std::sync::Arc;
use vstd::prelude::*;
use crate::catalog::FluentCatalog;
use crate::state::share;
use crate::text::push_str;

verus! {

/// A formatter that can be shared behind a trait object.
pub trait Render<C>: Send + Sync {
    /// `text` is a text the formatter may return for `catalog`.
    spec fn produces(&self, catalog: &C, text: String) -> bool;

    fn render(&self, catalog: &C) -> (r: String)
        ensures
            self.produces(catalog, r),
    ;
}

/// A closure used as a formatter; it accepts every catalog.
#[verifier::reject_recursive_types(C)]
pub struct ClosureRender<C, F: Fn(&C) -> String> {
    format: F,
    catalog: PhantomData<C>,
}

impl<C, F: Fn(&C) -> String> ClosureRender<C, F> {
    /// The closure can be called with any catalog.
    #[verifier::type_invariant]
    closed spec fn callable(self) -> bool {
        forall|catalog: &C| call_requires(self.format, (catalog,))
    }
}

impl<C: Send + Sync, F: Fn(&C) -> String + Send + Sync> Render<C> for ClosureRender<C, F> {
    /// What the closure may return for `catalog`.
    closed spec fn produces(&self, catalog: &C, text: String) -> bool {
        call_ensures(self.format, (catalog,), text)
    }

    fn render(&self, catalog: &C) -> (r: String) {
        proof {
            use_type_invariant(self);
        }
        (self.format)(catalog)
    }
}

#[verifier::reject_recursive_types(C)]
enum MessageFormat<C> {
    Literal(&'static str),
    Deferred(Arc<Box<dyn Render<C>>>),
}

/// Cloneable deferred typed formatting, evaluated against the current catalog.
///
/// Capture owned argument values, not an already translated string. This allows
/// stored notices to follow later language switches and hot reloads.
/// Changing another resource does not invalidate captured values automatically;
/// replace the binding when its value or formatter settings change.
#[verifier::reject_recursive_types(C)]
pub struct Message<C: FluentCatalog> {
    format: MessageFormat<C>,
}

impl<C: FluentCatalog> Message<C> {
    /// The fixed text of a literal message; `None` for a formatting closure.
    pub closed spec fn literal_text(self) -> Option<Seq<char>> {
        match self.format {
            MessageFormat::Literal(s) => Some(s@),
            MessageFormat::Deferred(_) => None,
        }
    }

    /// `text` is what rendering this message may give for `catalog`: the fixed
    /// text of a literal, or a result of the stored closure.
    pub closed spec fn produces(self, catalog: &C, text: String) -> bool {
        match self.format {
            MessageFormat::Literal(s) => text@ == s@,
            MessageFormat::Deferred(g) => g.produces(catalog, text),
        }
    }

    /// Store a thread-safe formatting closure; cloning shares the closure.
    /// The closure is called once per rendering and never while storing it.
    pub fn new<F: Fn(&C) -> String + Send + Sync + 'static>(format: F) -> (r: Self)
        requires
            forall|catalog: &C| call_requires(format, (catalog,)),
        ensures
            r.literal_text() is None,
            forall|catalog: &C, text: String|
                r.produces(catalog, text) <==> call_ensures(format, (catalog,), text),
    {
        let closure = ClosureRender { format, catalog: PhantomData };
        let boxed: Box<dyn Render<C>> = Box::new(closure);
        let shared = Arc::new(boxed);
        let r = Message { format: MessageFormat::Deferred(shared) };
        assert forall|catalog: &C, text: String|
            r.produces(catalog, text) <==> call_ensures(format, (catalog,), text) by {
            assert(r.produces(catalog, text) == closure.produces(catalog, text));
        }
        r
    }

    /// Store fixed text returned unchanged for every locale and catalog snapshot.
    pub fn literal(value: &'static str) -> (r: Self)
        ensures
            r.literal_text() == Some(value@),
    {
        Message { format: MessageFormat::Literal(value) }
    }

    /// Invoke the stored formatter with this catalog; results are not cached.
    pub fn render(&self, catalog: &C) -> (r: String)
        ensures
            self.produces(catalog, r),
            self.literal_text() matches Some(t) ==> r@ == t,
    {
        match &self.format {
            MessageFormat::Literal(s) => (*s).to_owned(),
            MessageFormat::Deferred(g) => {
                let formatter: &Box<dyn Render<C>> = &**g;
                formatter.render(catalog)
            },
        }
    }
}

impl<C: FluentCatalog> Message<C> {
    /// The debugging text of any message: it names a typed formatter and never
    /// runs it.
    pub fn describe(&self) -> (r: String)
        ensures
            r@ == "Message(<typed formatter>)"@,
    {
        let mut r = String::new();
        push_str(&mut r, "Message(<typed formatter>)");
        r
    }
}

impl<C: FluentCatalog> Clone for Message<C> {
    fn clone(&self) -> (r: Self)
        ensures
            r == *self,
    {
        match &self.format {
            MessageFormat::Literal(s) => Message { format: MessageFormat::Literal(*s) },
            MessageFormat::Deferred(g) => Message { format: MessageFormat::Deferred(share(g)) },
        }
    }
}

/// Bind an existing text entity to a deferred message.
///
/// The plugin changes text in place when the catalog or binding changes. It does
/// not spawn or despawn the entity. Bound text contents are replaced.
#[verifier::reject_recursive_types(C)]
pub struct LocalizedText<C: FluentCatalog>(Message<C>);

impl<C: FluentCatalog> LocalizedText<C> {
    /// Construct a binding; replace the component when captured arguments change.
    pub fn new<F: Fn(&C) -> String + Send + Sync + 'static>(format: F) -> (r: Self)
        requires
            forall|catalog: &C| call_requires(format, (catalog,)),
        ensures
            r.message().literal_text() is None,
            forall|catalog: &C, text: String|
                r.message().produces(catalog, text) <==> call_ensures(format, (catalog,), text),
    {
        LocalizedText(Message::new(format))
    }

    /// The bound message.
    pub closed spec fn message(self) -> Message<C> {
        self.0
    }

    /// Borrow the bound message.
    pub fn binding(&self) -> (r: &Message<C>)
        ensures
            *r == self.message(),
    {
        &self.0
    }
}

impl<C: FluentCatalog> From<Message<C>> for LocalizedText<C> {
    fn from(message: Message<C>) -> (r: Self)
        ensures
            r.message() == message,
    {
        LocalizedText(message)
    }
}

impl<C: FluentCatalog> vstd::std_specs::convert::FromSpecImpl<Message<C>> for LocalizedText<C> {
    open spec fn obeys_from_spec() -> bool {
        true
    }

    closed spec fn from_spec(message: Message<C>) -> Self {
        LocalizedText(message)
    }
}

/// The outcome of one language's reload, for the host application to present.
#[allow(inconsistent_fields)]
pub enum CatalogUpdate<C: FluentCatalog> {
    /// A complete language passed loading and validation; it need not be active.
    /// Unchanged sources retain the existing snapshot instead of replacing it.
    Loaded {
        /// Language whose candidate was accepted, including unchanged loads.
        locale: C::Locale,
    },
    /// A load failed; the previous catalog remains usable.
    Rejected {
        /// Affected language, or `None` for aggregate definition/address failures.
        locale: Option<C::Locale>,
        /// Path of the definition asset; the diagnostic identifies failing modules.
        path: String,
        /// Human-readable validation or loading diagnostic.
        error: String,
    },
}

/// Request one aggregate reload without exposing asset handles to application code.
///
/// Requests processed together coalesce into one reload of the definition and
/// declared modules.
#[verifier::reject_recursive_types(C)]
pub struct ReloadCatalogs<C: FluentCatalog>(pub PhantomData<C>);

impl<C: FluentCatalog> Default for ReloadCatalogs<C> {
    fn default() -> (r: Self)
        ensures
            r == ReloadCatalogs::<C>(PhantomData),
    {
        ReloadCatalogs(PhantomData)
    }
}

} // verus!
