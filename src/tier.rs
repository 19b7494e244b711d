use vstd::prelude::*;

verus! {

/// A user's subscription level, which gates the models and the call budget.
#[derive(Clone, Copy, Debug, PartialEq, Eq, Structural)]
pub enum Tier {
    Free,
    Pro,
    Enterprise,
}

/// The name under which a tier is written on the command line and in requests.
pub open spec fn tier_name(t: Tier) -> Seq<char> {
    match t {
        Tier::Free => seq!['f', 'r', 'e', 'e'],
        Tier::Pro => seq!['p', 'r', 'o'],
        Tier::Enterprise => seq!['e', 'n', 't', 'e', 'r', 'p', 'r', 'i', 's', 'e'],
    }
}

/// How many classification calls one organize run may make on a tier.
pub open spec fn budget_of(t: Tier) -> nat {
    match t {
        Tier::Free => 25,
        Tier::Pro => 250,
        Tier::Enterprise => 2500,
    }
}

/// Reads a tier from its name; any other text is not a tier.
pub fn parse_tier(s: &str) -> (r: Option<Tier>)
    ensures
        r matches Some(t) ==> tier_name(t) == s@,
        r is None ==> forall|t: Tier| tier_name(t) != s@,
{
    let given = s.to_owned();
    let free = "free".to_owned();
    let pro = "pro".to_owned();
    let enterprise = "enterprise".to_owned();
    proof {
        reveal_strlit("free");
        reveal_strlit("pro");
        reveal_strlit("enterprise");
        assert("free"@ =~= tier_name(Tier::Free));
        assert("pro"@ =~= tier_name(Tier::Pro));
        assert("enterprise"@ =~= tier_name(Tier::Enterprise));
    }
    if given == free {
        Some(Tier::Free)
    } else if given == pro {
        Some(Tier::Pro)
    } else if given == enterprise {
        Some(Tier::Enterprise)
    } else {
        None
    }
}

impl Tier {
    /// The call budget of this tier.
    pub fn call_budget(&self) -> (r: usize)
        ensures
            r == budget_of(*self),
    {
        match self {
            Tier::Free => 25,
            Tier::Pro => 250,
            Tier::Enterprise => 2500,
        }
    }

    /// The name of this tier.
    pub fn name(&self) -> (r: String)
        ensures
            r@ == tier_name(*self),
    {
        let r = match self {
            Tier::Free => "free".to_owned(),
            Tier::Pro => "pro".to_owned(),
            Tier::Enterprise => "enterprise".to_owned(),
        };
        proof {
            reveal_strlit("free");
            reveal_strlit("pro");
            reveal_strlit("enterprise");
        }
        r
    }
}

} // verus!
