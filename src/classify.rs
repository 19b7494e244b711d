use vstd::prelude::*;
use crate::paths::{joined, join};

verus! {

/// Confidence is held in millionths: this value stands for certainty.
pub const CONFIDENCE_SCALE: u32 = 1000000;

/// Why one file could not be classified or placed.
#[derive(Clone, Copy, Debug, PartialEq, Eq, Structural)]
pub enum FileError {
    /// The file could not be read, or could not be moved.
    Io,
    /// The underlying model call failed or timed out.
    Model,
    /// The model's answer was malformed.
    Parse,
    /// The suggested destination lies outside the organized folder.
    OutsideRoot,
}

/// What the classifier says of one file.
#[derive(Clone, Debug)]
pub struct Classification {
    pub category: String,
    pub subcategory: Option<String>,
    /// In millionths: `CONFIDENCE_SCALE` is certainty.
    pub confidence: u32,
    /// The folder, relative to the organized folder, where the file belongs.
    pub suggested_path: String,
    pub suggested_name: Option<String>,
    pub tags: Vec<String>,
    pub summary: Option<String>,
    pub reasoning: Option<String>,
    pub model_used: String,
    pub processing_time_ms: u32,
    pub tokens_used: u32,
    /// In millionths of a US dollar.
    pub cost_micro_usd: u64,
}

/// A result that may be acted on: a confidence within `[0, 1]` and a category.
pub open spec fn well_formed(c: Classification) -> bool {
    c.confidence <= CONFIDENCE_SCALE && c.category@.len() > 0
}

/// The name the file is to carry: the suggested one where there is one, else its own.
pub open spec fn chosen_name(c: Classification, file_name: Seq<char>) -> Seq<char> {
    match c.suggested_name {
        Some(n) => if n@.len() > 0 {
            n@
        } else {
            file_name
        },
        None => file_name,
    }
}

/// Where the classified file is meant to go, relative to the organized folder.
pub open spec fn target_of(c: Classification, file_name: Seq<char>) -> Seq<char> {
    joined(c.suggested_path@, chosen_name(c, file_name))
}

pub(crate) fn copy_text(s: &Option<String>) -> (r: Option<String>)
    ensures
        r == *s,
{
    match s {
        Some(t) => Some(t.clone()),
        None => None,
    }
}

pub(crate) fn copy_tags(v: &Vec<String>) -> (r: Vec<String>)
    ensures
        r@ == v@,
{
    let mut r: Vec<String> = Vec::new();
    let mut i: usize = 0;
    while i < v.len()
        invariant
            i <= v@.len(),
            r@ =~= v@.subrange(0, i as int),
        decreases v@.len() - i,
    {
        r.push(v[i].clone());
        i = i + 1;
    }
    assert(r@ =~= v@);
    r
}

/// `a` holds what `b` holds.
pub open spec fn same_result(a: Classification, b: Classification) -> bool {
    &&& a.category == b.category
    &&& a.subcategory == b.subcategory
    &&& a.confidence == b.confidence
    &&& a.suggested_path == b.suggested_path
    &&& a.suggested_name == b.suggested_name
    &&& a.tags@ == b.tags@
    &&& a.summary == b.summary
    &&& a.reasoning == b.reasoning
    &&& a.model_used == b.model_used
    &&& a.processing_time_ms == b.processing_time_ms
    &&& a.tokens_used == b.tokens_used
    &&& a.cost_micro_usd == b.cost_micro_usd
}

impl Classification {
    /// A copy of this result.
    pub fn duplicate(&self) -> (r: Classification)
        ensures
            same_result(r, *self),
    {
        Classification {
            category: self.category.clone(),
            subcategory: copy_text(&self.subcategory),
            confidence: self.confidence,
            suggested_path: self.suggested_path.clone(),
            suggested_name: copy_text(&self.suggested_name),
            tags: copy_tags(&self.tags),
            summary: copy_text(&self.summary),
            reasoning: copy_text(&self.reasoning),
            model_used: self.model_used.clone(),
            processing_time_ms: self.processing_time_ms,
            tokens_used: self.tokens_used,
            cost_micro_usd: self.cost_micro_usd,
        }
    }


    /// Whether the result may be acted on.
    pub fn is_well_formed(&self) -> (r: bool)
        ensures
            r == well_formed(*self),
    {
        self.confidence <= CONFIDENCE_SCALE && self.category.as_str().unicode_len() > 0
    }

    /// Accepts a result that may be acted on and refuses any other as malformed.
    pub fn validate(self) -> (r: Result<Classification, FileError>)
        ensures
            well_formed(self) ==> r == Ok::<Classification, FileError>(self),
            !well_formed(self) ==> r == Err::<Classification, FileError>(FileError::Parse),
            r matches Ok(c) ==> c.confidence <= CONFIDENCE_SCALE && c.category@.len() > 0,
    {
        if self.is_well_formed() {
            Ok(self)
        } else {
            Err(FileError::Parse)
        }
    }

    /// Where a file of this name is meant to go, relative to the organized folder.
    pub fn target(&self, file_name: &str) -> (r: String)
        ensures
            r@ == target_of(*self, file_name@),
    {
        let name: &str = match &self.suggested_name {
            Some(n) => if n.as_str().unicode_len() > 0 {
                n.as_str()
            } else {
                file_name
            },
            None => file_name,
        };
        join(self.suggested_path.as_str(), name)
    }
}

} // verus!
