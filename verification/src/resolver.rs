//! Filling bound text layers with live values.
//!
//! Formatting a measurement (a floating-point number with the binding's
//! precision) happens outside the library; the resolver receives, for each
//! layer, the formatted value of its binding, or nothing when the data is
//! unavailable.
use vstd::prelude::*;

use crate::text::push_str;
use crate::theme::binding::TextBinding;
use crate::theme::layer::{Layer, TextLayer};
use crate::theme::scene::Scene;

verus! {

/// The text a binding shows for `value`: prefix, value, suffix.
pub open spec fn bound_text(binding: TextBinding, value: Seq<char>) -> Seq<char> {
    binding.prefix@ + value + binding.suffix@
}

/// `after` is `before` once `value` is applied: a text layer with a
/// binding and an available value shows `bound_text`; every other layer,
/// and a bound layer without a value (which keeps its fallback text), is
/// unchanged.
pub open spec fn is_resolved_layer(before: Layer, after: Layer, value: Option<String>) -> bool {
    match before {
        Layer::Text(text) => match (text.binding, value) {
            (Some(binding), Some(value)) => after matches Layer::Text(shown) && shown == (
            TextLayer { text: shown.text, ..text }) && shown.text@ == bound_text(binding, value@),
            _ => after == before,
        },
        _ => after == before,
    }
}

/// The value handed over for layer `i`, if any.
pub open spec fn value_at(values: Seq<Option<String>>, i: int) -> Option<String> {
    if 0 <= i < values.len() {
        values[i]
    } else {
        None
    }
}

/// The text a binding shows for an available value.
pub fn resolve_binding(binding: &TextBinding, value: Option<&str>) -> (text: Option<String>)
    ensures
        match value {
            Some(v) => text matches Some(t) && t@ == bound_text(*binding, v@),
            None => text is None,
        },
{
    match value {
        Some(v) => {
            let mut text = binding.prefix.clone();
            push_str(&mut text, v);
            push_str(&mut text, binding.suffix.as_str());
            Some(text)
        },
        None => None,
    }
}

/// Applies formatted values to the bound text layers of a scene.
#[derive(Debug, Default)]
pub struct SceneResolver;

impl SceneResolver {
    pub fn new() -> (resolver: SceneResolver)
        ensures
            resolver == SceneResolver,
    {
        SceneResolver
    }

    /// A copy of `scene` in which each bound text layer `i` shows
    /// `values[i]` between its binding's prefix and suffix. Layers without a
    /// binding, and bound layers whose value is missing, are unchanged.
    pub fn resolve(&self, scene: &Scene, values: &Vec<Option<String>>) -> (resolved: Scene)
        ensures
            resolved.name == scene.name,
            resolved.spec_next_layer_id() == scene.spec_next_layer_id(),
            resolved.layers@.len() == scene.layers@.len(),
            forall|i: int|
                0 <= i < scene.layers@.len() ==> is_resolved_layer(
                    #[trigger] scene.layers@[i],
                    resolved.layers@[i],
                    value_at(values@, i),
                ),
    {
        let mut resolved = scene.clone();
        let mut i: usize = 0;
        while i < resolved.layers.len()
            invariant
                i <= resolved.layers.len(),
                resolved.layers@.len() == scene.layers@.len(),
                resolved.name == scene.name,
                resolved.spec_next_layer_id() == scene.spec_next_layer_id(),
                forall|k: int|
                    0 <= k < i ==> is_resolved_layer(
                        #[trigger] scene.layers@[k],
                        resolved.layers@[k],
                        value_at(values@, k),
                    ),
                forall|k: int| i <= k < scene.layers@.len() ==> resolved.layers@[k] == #[trigger] scene.layers@[k],
            decreases resolved.layers.len() - i,
        {
            let value: Option<&str> = if i < values.len() {
                match &values[i] {
                    Some(v) => Some(v.as_str()),
                    None => None,
                }
            } else {
                None
            };
            let replacement = match &resolved.layers[i] {
                Layer::Text(text) => match &text.binding {
                    Some(binding) => match resolve_binding(binding, value) {
                        Some(shown) => {
                            let mut updated = text.clone();
                            updated.text = shown;
                            Some(updated)
                        },
                        None => None,
                    },
                    None => None,
                },
                _ => None,
            };
            match replacement {
                Some(updated) => {
                    resolved.layers.set(i, Layer::Text(updated));
                },
                None => {},
            }
            i = i + 1;
        }
        resolved
    }
}

} // verus!
