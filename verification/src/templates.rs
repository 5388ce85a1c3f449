//! Saved command templates.
use vstd::prelude::*;

verus! {

/// A saved command template; `{name}` words are placeholders.
#[derive(Debug, Clone, PartialEq, Eq)]
pub struct TemplateEntry {
    pub body: String,
}

impl TemplateEntry {
    pub fn new(body: &str) -> (r: Self)
        ensures
            r.body@ == body@,
    {
        TemplateEntry { body: body.to_string() }
    }

    /// A copy of the template.
    pub fn clone_entry(&self) -> (r: Self)
        ensures
            r == *self,
    {
        TemplateEntry { body: self.body.clone() }
    }

    /// The template's identity: templates with the same body are the same
    /// template.
    pub fn id(&self) -> (r: String)
        ensures
            r@ == self.body@,
    {
        self.body.clone()
    }
}

} // verus!
