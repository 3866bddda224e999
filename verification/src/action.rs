use vstd::prelude::*;

verus! {

/// The closed set of logical triggers the system recognizes.
///
/// Each action is statically bound to one digital input line and always has a
/// payload in the configuration store. Membership is fixed: actions are never
/// created or destroyed at runtime.
#[derive(Clone, Copy, PartialEq, Eq, Structural, Debug)]
pub enum Action {
    Next,
    Previous,
    Custom,
}

impl Action {
    /// The wire name of this action, as the control plane's action selector
    /// spells it.
    pub open spec fn spec_name(self) -> Seq<char> {
        match self {
            Action::Next => "next"@,
            Action::Previous => "previous"@,
            Action::Custom => "custom"@,
        }
    }

    /// Which action, if any, a selector string names.
    pub open spec fn spec_from_name(s: Seq<char>) -> Option<Action> {
        if s == "next"@ {
            Some(Action::Next)
        } else if s == "previous"@ {
            Some(Action::Previous)
        } else if s == "custom"@ {
            Some(Action::Custom)
        } else {
            None
        }
    }

    pub fn name(self) -> (r: &'static str)
        ensures
            r@ == self.spec_name(),
    {
        match self {
            Action::Next => "next",
            Action::Previous => "previous",
            Action::Custom => "custom",
        }
    }

    pub fn from_name(s: &str) -> (r: Option<Action>)
        ensures
            r == Action::spec_from_name(s@),
    {
        let key = s.to_owned();
        if key == "next".to_owned() {
            Some(Action::Next)
        } else if key == "previous".to_owned() {
            Some(Action::Previous)
        } else if key == "custom".to_owned() {
            Some(Action::Custom)
        } else {
            None
        }
    }
}

/// All actions, in the fixed order in which the poller evaluates them each
/// cycle.
pub open spec fn spec_action_order() -> Seq<Action> {
    seq![Action::Next, Action::Previous, Action::Custom]
}

pub fn action_order() -> (r: Vec<Action>)
    ensures
        r@ == spec_action_order(),
{
    let mut v: Vec<Action> = Vec::new();
    v.push(Action::Next);
    v.push(Action::Previous);
    v.push(Action::Custom);
    proof {
        assert(v@ =~= spec_action_order());
    }
    v
}

} // verus!
