//! Text templates: text with `${name}` variables that a match fills in.
use vstd::prelude::*;
use crate::matchers::MatchContext;
use crate::references::{rendered, render_template};
use crate::text::{chars_of, string_of};

verus! {

#[derive(Debug)]
pub struct TemplateString(pub String);

impl View for TemplateString {
    type V = Seq<char>;

    open spec fn view(&self) -> Seq<char> {
        self.0@
    }
}

impl TemplateString {
    /// The template text.
    pub fn tmpl(&self) -> (res: &str)
        ensures
            res@ == self@,
    {
        self.0.as_str()
    }

    /// The template with each variable replaced by its value in `context`:
    /// `${C}` is the character's name, `${1}` a group, `${name}` a named
    /// value; a variable without a value becomes empty text.
    pub fn render(&self, context: &MatchContext) -> (res: String)
        requires
            context.wf(),
        ensures
            res@ == rendered(self@, context@),
    {
        render_template(self.0.as_str(), context)
    }
}

impl Clone for TemplateString {
    fn clone(&self) -> (res: Self)
        ensures
            res == *self,
    {
        TemplateString(self.0.clone())
    }
}

impl From<String> for TemplateString {
    fn from(tmpl: String) -> (res: Self) {
        TemplateString(tmpl)
    }
}

impl vstd::std_specs::convert::FromSpecImpl<String> for TemplateString {
    open spec fn obeys_from_spec() -> bool {
        true
    }

    open spec fn from_spec(tmpl: String) -> Self {
        TemplateString(tmpl)
    }
}

impl TemplateString {
    /// The template with text `tmpl`.
    pub fn new(tmpl: &str) -> (res: TemplateString)
        ensures
            res@ == tmpl@,
    {
        TemplateString(string_of(&chars_of(tmpl)))
    }
}

} // verus!
