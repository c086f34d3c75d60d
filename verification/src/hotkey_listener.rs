//! Translation of OS hotkey notifications into coordinator events.
//!
//! The blocking OS receive loop runs outside this crate on a dedicated
//! thread; it hands each notification's identifier and press state to
//! [`translate_hotkey_event`], which looks the identifier up in the
//! registry and builds the event to forward, or nothing for an
//! unrecognized identifier.

use vstd::prelude::*;

use crate::application::AppEvent;
use crate::groq_client::TranscribeOpts;
use crate::settings::KeyRegistry;

verus! {

impl KeyRegistry {
    /// The options bound to this identifier, if it is registered.
    pub fn lookup(&self, id: u32) -> (r: Option<&TranscribeOpts>)
        ensures
            match r {
                Some(o) => exists|j: int|
                    0 <= j < self.bindings@.len() && (#[trigger] self.bindings@[j]).id == id && *o
                        == self.bindings@[j].opts,
                None => !self.spec_contains(id),
            },
    {
        let n = self.bindings.len();
        let mut i: usize = 0;
        while i < n
            invariant
                n == self.bindings@.len(),
                i <= n,
                forall|j: int| 0 <= j < i ==> (#[trigger] self.bindings@[j]).id != id,
            decreases n - i,
        {
            if self.bindings[i].id == id {
                return Some(&self.bindings[i].opts);
            }
            i += 1;
        }
        None
    }
}

/// Translate one OS hotkey notification: an identifier of a registered
/// binding becomes a press event carrying the binding's options, or a
/// release event; an unrecognized identifier becomes nothing.
pub fn translate_hotkey_event(registry: &KeyRegistry, id: u32, pressed: bool) -> (r: Option<
    AppEvent,
>)
    ensures
        !registry.spec_contains(id) ==> r is None,
        registry.spec_contains(id) && pressed ==> ({
            &&& r matches Some(e)
            &&& e matches AppEvent::KeyPressed(k, opts)
            &&& k == id
            &&& exists|j: int|
                0 <= j < registry.bindings@.len() && (#[trigger] registry.bindings@[j]).id == id
                    && opts == registry.bindings@[j].opts
        }),
        registry.spec_contains(id) && !pressed ==> r == Some(AppEvent::KeyReleased(id)),
{
    match registry.lookup(id) {
        Some(o) => {
            if pressed {
                Some(AppEvent::KeyPressed(id, o.clone()))
            } else {
                Some(AppEvent::KeyReleased(id))
            }
        },
        None => None,
    }
}

} // verus!
