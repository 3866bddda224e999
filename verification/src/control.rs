use vstd::prelude::*;
use crate::action::Action;
use crate::store::MidiConfig;

verus! {

/// Applies one decoded control-plane update to the store.
///
/// The surrounding server decodes each submission into its two named fields —
/// the action selector and the raw payload — either of which may be missing.
/// If both are present and the selector names a known action, that action's
/// payload is replaced and every other entry is untouched. A missing field or
/// an unknown selector is a silent no-op, not an error: the store is left
/// exactly as it was, and the caller re-renders the unchanged state. Returns
/// the action that was updated, if any.
pub fn apply_update(
    store: &mut MidiConfig,
    action_field: Option<String>,
    payload_field: Option<String>,
) -> (applied: Option<Action>)
    ensures
        match applied {
            Some(a) => {
                &&& action_field matches Some(k) && Action::spec_from_name(k@) == Some(a)
                &&& payload_field matches Some(p) && final(store).payload_of(a) == p@
                &&& forall|b: Action|
                    b != a ==> #[trigger] final(store).payload_of(b) == old(store).payload_of(b)
            },
            None => {
                &&& *final(store) == *old(store)
                &&& (action_field matches Some(k) ==> (payload_field is None
                    || Action::spec_from_name(k@) is None))
            },
        },
{
    match (action_field, payload_field) {
        (Some(k), Some(p)) => match Action::from_name(k.as_str()) {
            Some(a) => {
                store.set_action(a, p);
                Some(a)
            },
            None => None,
        },
        _ => None,
    }
}

} // verus!
