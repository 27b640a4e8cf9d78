use vstd::prelude::*;

verus! {

/// The actions of the object-update protocol.
#[derive(Debug, Clone, Copy, PartialEq, Eq, Structural)]
pub enum Action {
    Spawn,
    Destroy,
    SendState,
}

impl Action {
    /// The action's code on the wire.
    pub open spec fn code(self) -> Seq<char> {
        match self {
            Action::Spawn => seq!['0'],
            Action::Destroy => seq!['1'],
            Action::SendState => seq!['2'],
        }
    }

    pub fn to_string(&self) -> (s: String)
        ensures
            s@ == self.code(),
    {
        proof {
            reveal_strlit("0");
            reveal_strlit("1");
            reveal_strlit("2");
        }
        match self {
            Action::Spawn => String::from_str("0"),
            Action::Destroy => String::from_str("1"),
            Action::SendState => String::from_str("2"),
        }
    }
}

/// Distinct actions have distinct codes.
pub proof fn lemma_action_codes_distinct(a: Action, b: Action)
    ensures
        a.code() == b.code() <==> a == b,
{
    if a != b {
        assert(a.code()[0] != b.code()[0]);
    }
}

} // verus!
