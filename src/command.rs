use vstd::prelude::*;
use crate::tier::{Tier, parse_tier, tier_name};

verus! {

/// A request to organize one folder.
#[derive(Clone, Debug)]
pub struct OrganizeOptions {
    pub folder: String,
    pub preview: bool,
    pub auto_approve: bool,
    pub deep_analysis: bool,
    pub use_multi_model: bool,
    pub user_tier: String,
}

/// Why a request is refused before any work starts.
#[derive(Clone, Copy, Debug, PartialEq, Eq, Structural)]
pub enum InputError {
    /// The tier is none of the known ones.
    UnknownTier,
}

/// The views of a list of strings.
pub open spec fn views(v: Seq<String>) -> Seq<Seq<char>> {
    v.map_values(|s: String| s@)
}

/// The arguments that ask the classifier for one file's classification as JSON,
/// with its slower signals when `deep` is set, and through every model the tier
/// allows when `multi` is set.
pub open spec fn classify_args_of(file: Seq<char>, deep: bool, multi: bool, tier: Tier) -> Seq<
    Seq<char>,
> {
    seq!["--file"@, file, "--json"@] + (if deep {
        seq!["--deep"@]
    } else {
        Seq::empty()
    }) + (if multi {
        seq!["--multi-model"@, "--tier"@, tier_name(tier)]
    } else {
        Seq::empty()
    })
}

fn push_str(v: &mut Vec<String>, s: &str)
    ensures
        views(final(v)@) == views(old(v)@).push(s@),
{
    v.push(s.to_owned());
    assert(views(v@) =~= views(old(v)@).push(s@));
}

fn push_multi_model(v: &mut Vec<String>, tier: Tier)
    ensures
        views(final(v)@) == views(old(v)@) + seq!["--multi-model"@, "--tier"@, tier_name(tier)],
{
    push_str(v, "--multi-model");
    push_str(v, "--tier");
    let name = tier.name();
    push_str(v, name.as_str());
    assert(views(v@) =~= views(old(v)@) + seq!["--multi-model"@, "--tier"@, tier_name(tier)]);
}

/// The classifier's arguments for one file, or the reason the request is refused.
pub fn classify_args(file_path: &str, deep_analysis: bool, use_multi_model: bool, tier: &str) -> (r: Result<
    Vec<String>,
    InputError,
>)
    ensures
        r matches Ok(v) ==> exists|t: Tier|
            tier_name(t) == tier@ && views(v@) == classify_args_of(file_path@, deep_analysis, use_multi_model, t),
        r is Err <==> forall|t: Tier| tier_name(t) != tier@,
        r is Err ==> r == Err::<Vec<String>, InputError>(InputError::UnknownTier),
{
    let t = match parse_tier(tier) {
        Some(t) => t,
        None => return Err(InputError::UnknownTier),
    };
    let mut v: Vec<String> = Vec::new();
    push_str(&mut v, "--file");
    push_str(&mut v, file_path);
    push_str(&mut v, "--json");
    if deep_analysis {
        push_str(&mut v, "--deep");
    }
    if use_multi_model {
        push_multi_model(&mut v, t);
    }
    assert(views(v@) =~= classify_args_of(file_path@, deep_analysis, use_multi_model, t));
    Ok(v)
}

impl OrganizeOptions {
    /// The tier of the request, or the reason it is refused.
    pub fn tier(&self) -> (r: Result<Tier, InputError>)
        ensures
            r matches Ok(t) ==> tier_name(t) == self.user_tier@,
            r is Err <==> forall|t: Tier| tier_name(t) != self.user_tier@,
            r is Err ==> r == Err::<Tier, InputError>(InputError::UnknownTier),
    {
        match parse_tier(self.user_tier.as_str()) {
            Some(t) => Ok(t),
            None => Err(InputError::UnknownTier),
        }
    }
}

} // verus!
