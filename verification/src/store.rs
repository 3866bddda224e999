use vstd::prelude::*;
use crate::action::Action;

verus! {

/// Error returned by `MidiConfig::set` when the action selector names no
/// member of the fixed action set.
#[derive(Clone, Copy, PartialEq, Eq, Structural, Debug)]
pub struct InvalidAction;

/// The configuration store: the mapping from each action to its outbound
/// payload (a MIDI message spelled as a hex string).
///
/// Every action always has a payload; the mapping starts with the defaults of
/// `new`. The store is the single source of truth shared by the input poller
/// and the control plane. The surrounding program wraps one instance in an
/// exclusive-access guard and holds that guard only for the duration of a
/// single call into this type, never across a sleep, a hardware read or
/// network I/O.
#[derive(Debug)]
pub struct MidiConfig {
    pub next: String,
    pub previous: String,
    pub custom: String,
}

/// The payload each action ships with at process start.
pub open spec fn spec_default_payload(a: Action) -> Seq<char> {
    match a {
        Action::Next => "C0 01"@,
        Action::Previous => "C0 00"@,
        Action::Custom => "C0 7F"@,
    }
}

impl MidiConfig {
    /// The payload currently mapped to `a`. Total: every action has one.
    pub open spec fn payload_of(self, a: Action) -> Seq<char> {
        match a {
            Action::Next => self.next@,
            Action::Previous => self.previous@,
            Action::Custom => self.custom@,
        }
    }

    pub fn new() -> (c: MidiConfig)
        ensures
            forall|a: Action| #[trigger] c.payload_of(a) == spec_default_payload(a),
    {
        MidiConfig {
            next: "C0 01".to_owned(),
            previous: "C0 00".to_owned(),
            custom: "C0 7F".to_owned(),
        }
    }

    /// Borrows the payload mapped to `a`.
    pub fn get(&self, a: Action) -> (r: &String)
        ensures
            r@ == self.payload_of(a),
    {
        match a {
            Action::Next => &self.next,
            Action::Previous => &self.previous,
            Action::Custom => &self.custom,
        }
    }

    /// Replaces the payload of `a`, leaving every other action's payload
    /// unchanged.
    pub fn set_action(&mut self, a: Action, payload: String)
        ensures
            final(self).payload_of(a) == payload@,
            forall|b: Action| b != a ==> #[trigger] final(self).payload_of(b) == old(self).payload_of(b),
    {
        match a {
            Action::Next => self.next = payload,
            Action::Previous => self.previous = payload,
            Action::Custom => self.custom = payload,
        }
    }

    /// Replaces the payload of the action that `action` names. Fails with
    /// `InvalidAction` and leaves the mapping unchanged if and only if
    /// `action` names no member of the fixed set.
    pub fn set(&mut self, action: &str, payload: String) -> (r: Result<(), InvalidAction>)
        ensures
            match Action::spec_from_name(action@) {
                Some(a) => {
                    &&& r == Ok::<(), InvalidAction>(())
                    &&& final(self).payload_of(a) == payload@
                    &&& forall|b: Action|
                        b != a ==> #[trigger] final(self).payload_of(b) == old(self).payload_of(b)
                },
                None => {
                    &&& r == Err::<(), InvalidAction>(InvalidAction)
                    &&& *final(self) == *old(self)
                },
            },
    {
        match Action::from_name(action) {
            Some(a) => {
                self.set_action(a, payload);
                Ok(())
            },
            None => Err(InvalidAction),
        }
    }

    /// A consistent point-in-time copy of the whole mapping. The copy is made
    /// in one call, so a caller that takes the store's guard around this call
    /// can never observe a mix of pre- and post-update entries.
    pub fn get_snapshot(&self) -> (snap: MidiConfig)
        ensures
            forall|a: Action| #[trigger] snap.payload_of(a) == self.payload_of(a),
    {
        MidiConfig {
            next: self.next.clone(),
            previous: self.previous.clone(),
            custom: self.custom.clone(),
        }
    }
}

/// After a successful `set` of payload `p` for action `a`, a snapshot taken
/// from the store shows `p` for `a` and the pre-`set` payload for every other
/// action. `pre` and `post` are the store before and after the `set`; the
/// hypotheses are exactly what `set_action` ensures and what `get_snapshot`
/// ensures of `snap`.
pub proof fn lemma_set_then_snapshot(
    pre: MidiConfig,
    post: MidiConfig,
    snap: MidiConfig,
    a: Action,
    p: Seq<char>,
)
    requires
        post.payload_of(a) == p,
        forall|b: Action| b != a ==> #[trigger] post.payload_of(b) == pre.payload_of(b),
        forall|b: Action| #[trigger] snap.payload_of(b) == post.payload_of(b),
    ensures
        snap.payload_of(a) == p,
        forall|b: Action| b != a ==> #[trigger] snap.payload_of(b) == pre.payload_of(b),
{
}

} // verus!
