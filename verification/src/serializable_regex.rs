//! A regular expression kept together with its source text.
use vstd::prelude::*;
use crate::regex::{CompiledRegex, compile, compile_never_matching, clone_regex, regex_accepts};
use crate::text::{chars_of, string_of};

verus! {

/// The pattern that matches no line.
pub open spec fn never_pattern() -> Seq<char> {
    "^(?!)$"@
}

#[derive(Debug)]
pub struct SerializableRegex {
    pub pattern: String,
    pub compiled: CompiledRegex,
}

impl View for SerializableRegex {
    type V = Seq<char>;

    open spec fn view(&self) -> Seq<char> {
        self.pattern@
    }
}

impl SerializableRegex {
    /// The compiled regex is the one of `pattern`.
    pub open spec fn wf(&self) -> bool {
        self.compiled@ == self.pattern@
    }

    /// Compiles `pattern`; fails exactly when the engine rejects it.
    pub fn try_from(pattern: &str) -> (res: Result<SerializableRegex, fancy_regex::Error>)
        ensures
            res is Ok <==> regex_accepts(pattern@),
            res matches Ok(r) ==> r.wf() && r@ == pattern@,
    {
        match compile(pattern) {
            Ok(compiled) => Ok(SerializableRegex { pattern: string_of(&chars_of(pattern)), compiled }),
            Err(e) => Err(e),
        }
    }

    /// `^(?!)$`, which matches no line.
    pub fn never_matching() -> (res: SerializableRegex)
        ensures
            res.wf(),
            res@ == never_pattern(),
    {
        let pattern = "^(?!)$";
        proof {
            reveal_strlit("^(?!)$");
        }
        let compiled = compile_never_matching(pattern);
        SerializableRegex { pattern: string_of(&chars_of(pattern)), compiled }
    }
}

impl Clone for SerializableRegex {
    fn clone(&self) -> (res: Self)
        ensures
            res@ == self@,
            res.compiled@ == self.compiled@,
    {
        SerializableRegex { pattern: self.pattern.clone(), compiled: clone_regex(&self.compiled) }
    }
}

} // verus!
