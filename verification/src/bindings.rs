//! Refresh bound text in place, without respawning or touching editor state.
use vstd::prelude::*;
use crate::catalog::FluentCatalog;
use crate::message::LocalizedText;
use crate::state::Localization;
use crate::text::str_equal;

verus! {

/// The text a bound entity should show after this frame, or `None` to leave it
/// untouched. Nothing is rendered unless the active catalog or the binding
/// changed; then the binding is rendered once with the active catalog, and text
/// equal to the current one is not rewritten, so no change is signalled.
pub fn refreshed_text<C: FluentCatalog>(
    localization_changed: bool,
    binding_changed: bool,
    current: &str,
    binding: &LocalizedText<C>,
    localization: &Localization<C>,
) -> (r: Option<String>)
    requires
        localization.valid(),
    ensures
        !localization_changed && !binding_changed ==> r is None,
        r matches Some(text) ==> text@ != current@,
        (localization_changed || binding_changed) ==> exists|rendered: String|
            binding.message().produces(&localization.active_catalog(), rendered) && if rendered@
                == current@ {
                r is None
            } else {
                r == Some(rendered)
            },
        (localization_changed || binding_changed) ==> match binding.message().literal_text() {
            Some(t) => if t == current@ {
                r is None
            } else {
                r matches Some(text) && text@ == t
            },
            None => true,
        },
{
    if !localization_changed && !binding_changed {
        return None;
    }
    let value = binding.binding().render(localization.catalog());
    if str_equal(value.as_str(), current) {
        None
    } else {
        Some(value)
    }
}

} // verus!
