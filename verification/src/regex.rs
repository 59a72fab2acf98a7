//! The regular-expression engine (`fancy_regex`), behind trusted items.
//!
//! Its matching rules take pages to state, so its results are named here:
//! whether a pattern compiles, what it captures on a text, and the names of
//! its groups. A `CompiledRegex` is only ever made by `compile` (its fields are
//! private to this module), so the engine value it holds is always the one
//! compiled from the pattern text it carries.
use vstd::prelude::*;

verus! {

#[verifier::external_type_specification]
#[verifier::external_body]
pub struct ExFancyRegex(fancy_regex::Regex);

#[verifier::external_type_specification]
#[verifier::external_body]
pub struct ExFancyRegexError(fancy_regex::Error);

/// Whether `fancy_regex::Regex::new` accepts `pattern`.
pub uninterp spec fn regex_accepts(pattern: Seq<char>) -> bool;

/// What `Regex::captures` gives for the first match of `pattern` in `text`:
/// one entry per group (group 0 is the whole match), `None` for a group that
/// took no part; `None` overall when there is no match or the engine reports
/// a run-time error.
pub uninterp spec fn regex_captures(pattern: Seq<char>, text: Seq<char>) -> Option<Seq<Option<Seq<char>>>>;

/// What `Regex::capture_names` lists for `pattern`: one entry per group, its
/// name if it has one.
pub uninterp spec fn regex_capture_names(pattern: Seq<char>) -> Seq<Option<Seq<char>>>;

/// A compiled pattern together with the text it was compiled from.
#[derive(Debug)]
pub struct CompiledRegex {
    pattern: String,
    regex: fancy_regex::Regex,
}

impl View for CompiledRegex {
    type V = Seq<char>;

    closed spec fn view(&self) -> Seq<char> {
        self.pattern@
    }
}

pub open spec fn opt_string_view(o: Option<String>) -> Option<Seq<char>> {
    match o {
        Some(s) => Some(s@),
        None => None,
    }
}

pub open spec fn opt_strings_view(v: Seq<Option<String>>) -> Seq<Option<Seq<char>>> {
    v.map_values(|o: Option<String>| opt_string_view(o))
}

/// Calls `fancy_regex::Regex::new(pattern)`. It succeeds exactly when the
/// engine accepts the pattern; the compiled value carries the pattern text.
#[verifier::external_body]
pub(crate) fn compile(pattern: &str) -> (res: Result<CompiledRegex, fancy_regex::Error>)
    ensures
        res is Ok <==> regex_accepts(pattern@),
        res matches Ok(r) ==> r@ == pattern@,
{
    match fancy_regex::Regex::new(pattern) {
        Ok(regex) => Ok(CompiledRegex { pattern: pattern.to_string(), regex }),
        Err(e) => Err(e),
    }
}

/// Calls `fancy_regex::Regex::new` on the one pattern `^(?!)$`, which the
/// engine accepts (it is the pattern that never matches).
#[verifier::external_body]
pub(crate) fn compile_never_matching(pattern: &str) -> (res: CompiledRegex)
    requires
        pattern@ == "^(?!)$"@,
    ensures
        res@ == pattern@,
{
    CompiledRegex { pattern: pattern.to_string(), regex: fancy_regex::Regex::new(pattern).unwrap() }
}

/// Calls `Regex::captures(text)` and copies the captured groups out (one
/// entry per group, in order). A run-time error of the engine counts as no
/// match.
#[verifier::external_body]
pub(crate) fn captures(re: &CompiledRegex, text: &str) -> (res: Option<Vec<Option<String>>>)
    ensures
        res is None <==> regex_captures(re@, text@) is None,
        res matches Some(v) ==> regex_captures(re@, text@) == Some(opt_strings_view(v@)),
{
    match re.regex.captures(text) {
        Ok(Some(caps)) => Some(caps.iter().map(|m| m.map(|m| m.as_str().to_string())).collect()),
        _ => None,
    }
}

/// Calls `Regex::capture_names` and copies the names out.
#[verifier::external_body]
pub(crate) fn capture_names(re: &CompiledRegex) -> (res: Vec<Option<String>>)
    ensures
        opt_strings_view(res@) == regex_capture_names(re@),
{
    re.regex.capture_names().map(|n| n.map(|n| n.to_string())).collect()
}

/// Calls `Regex::clone` on the engine value.
#[verifier::external_body]
pub(crate) fn clone_regex(re: &CompiledRegex) -> (res: CompiledRegex)
    ensures
        res@ == re@,
{
    CompiledRegex { pattern: re.pattern.clone(), regex: re.regex.clone() }
}

pub fn pattern_of(re: &CompiledRegex) -> (res: &str)
    ensures
        res@ == re@,
{
    re.pattern.as_str()
}

/// Reads an engine error: for a parse error its position and description,
/// for any other error only its description (the `Display` text of the inner
/// error). The text is not stated.
#[verifier::external_body]
pub(crate) fn error_details(e: &fancy_regex::Error) -> (res: (Option<usize>, String)) {
    match e {
        fancy_regex::Error::ParseError(position, parse_error) => (Some(*position), parse_error.to_string()),
        fancy_regex::Error::CompileError(build_error) => (None, build_error.to_string()),
        fancy_regex::Error::RuntimeError(run_error) => (None, run_error.to_string()),
        _ => (None, e.to_string()),
    }
}

/// The characters that `fancy_regex::escape` puts a backslash before.
pub open spec fn is_regex_special(c: char) -> bool {
    c == '\\' || c == '.' || c == '+' || c == '*' || c == '?' || c == '(' || c == ')' || c == '|'
        || c == '[' || c == ']' || c == '{' || c == '}' || c == '^' || c == '$' || c == '#'
}

pub open spec fn quote_char(c: char) -> Seq<char> {
    if c == '\\' {
        seq!['\\', '\\']
    } else if c == '\n' {
        seq!['\\', 'n']
    } else if c == '\t' {
        seq!['\\', 't']
    } else if c == '\r' {
        seq!['\\', 'r']
    } else if is_regex_special(c) {
        seq!['\\', c]
    } else {
        seq![c]
    }
}

pub open spec fn quoted(s: Seq<char>) -> Seq<char>
    decreases s.len(),
{
    if s.len() == 0 {
        Seq::empty()
    } else {
        quoted(s.drop_last()) + quote_char(s.last())
    }
}

/// What `fancy_regex::escape` returns: the text itself when no character in it
/// is special; otherwise every special character gets a backslash before it,
/// and newlines, tabs and carriage returns become `\n`, `\t`, `\r`.
pub open spec fn escaped(s: Seq<char>) -> Seq<char> {
    if exists|i: int| 0 <= i < s.len() && is_regex_special(#[trigger] s[i]) {
        quoted(s)
    } else {
        s
    }
}

/// The character that the escape `\c` stands for in a pattern, where `c`
/// is a special character or `n`, `t`, `r`.
pub open spec fn escape_meaning(c: char) -> Option<char> {
    if c == 'n' {
        Some('\n')
    } else if c == 't' {
        Some('\t')
    } else if c == 'r' {
        Some('\r')
    } else if is_regex_special(c) {
        Some(c)
    } else {
        None
    }
}

/// The one text that pattern `p` matches when `p` is a literal: plain
/// characters and escaped ones only, no operator. `None` when `p` holds an
/// unescaped special character or another escape.
pub open spec fn literal_text(p: Seq<char>) -> Option<Seq<char>>
    decreases p.len(),
{
    if p.len() == 0 {
        Some(Seq::empty())
    } else if p[0] == '\\' {
        if p.len() >= 2 {
            match (escape_meaning(p[1]), literal_text(p.subrange(2, p.len() as int))) {
                (Some(c), Some(r)) => Some(seq![c] + r),
                _ => None,
            }
        } else {
            None
        }
    } else if is_regex_special(p[0]) {
        None
    } else {
        match literal_text(p.subrange(1, p.len() as int)) {
            Some(r) => Some(seq![p[0]] + r),
            None => None,
        }
    }
}

proof fn lemma_literal_concat(a: Seq<char>, b: Seq<char>)
    requires
        literal_text(a) is Some,
        literal_text(b) is Some,
    ensures
        literal_text(a + b) == Some(literal_text(a)->0 + literal_text(b)->0),
    decreases a.len(),
{
    if a.len() == 0 {
        assert(a + b =~= b);
    } else if a[0] == '\\' {
        let a2 = a.subrange(2, a.len() as int);
        lemma_literal_concat(a2, b);
        assert((a + b).subrange(2, (a + b).len() as int) =~= a2 + b);
        assert((a + b)[1] == a[1]);
        assert(seq![escape_meaning(a[1])->0] + (literal_text(a2)->0 + literal_text(b)->0)
            =~= (seq![escape_meaning(a[1])->0] + literal_text(a2)->0) + literal_text(b)->0);
    } else {
        let a1 = a.subrange(1, a.len() as int);
        lemma_literal_concat(a1, b);
        assert((a + b).subrange(1, (a + b).len() as int) =~= a1 + b);
        assert(seq![a[0]] + (literal_text(a1)->0 + literal_text(b)->0)
            =~= (seq![a[0]] + literal_text(a1)->0) + literal_text(b)->0);
    }
}

proof fn lemma_literal_plain(s: Seq<char>)
    requires
        forall|i: int| 0 <= i < s.len() ==> !is_regex_special(#[trigger] s[i]),
    ensures
        literal_text(s) == Some(s),
    decreases s.len(),
{
    if s.len() > 0 {
        let s1 = s.subrange(1, s.len() as int);
        assert forall|i: int| 0 <= i < s1.len() implies !is_regex_special(#[trigger] s1[i]) by {
            assert(s1[i] == s[i + 1]);
        }
        lemma_literal_plain(s1);
        assert(seq![s[0]] + s1 =~= s);
    }
}

proof fn lemma_literal_quote_char(c: char)
    ensures
        literal_text(quote_char(c)) == Some(seq![c]),
{
    let e = Seq::<char>::empty();
    assert(literal_text(e) == Some(e));
    assert(seq![c] + e =~= seq![c]);
    let q = quote_char(c);
    if c == '\\' || c == '\n' || c == '\t' || c == '\r' || is_regex_special(c) {
        assert(q.len() == 2 && q[0] == '\\');
        assert(q.subrange(2, 2) =~= e);
        assert(escape_meaning(q[1]) == Some(c));
    } else {
        assert(q =~= seq![c]);
        assert(q.subrange(1, 1) =~= e);
    }
}

proof fn lemma_literal_quoted(s: Seq<char>)
    ensures
        literal_text(quoted(s)) == Some(s),
    decreases s.len(),
{
    if s.len() > 0 {
        let c = s.last();
        lemma_literal_quoted(s.drop_last());
        let q = quote_char(c);
        assert(literal_text(q) == Some(seq![c])) by {
            lemma_literal_quote_char(c);
        }
        lemma_literal_concat(quoted(s.drop_last()), q);
        assert(s.drop_last() + seq![c] =~= s);
    }
}

/// Escaping makes a literal: the escaped text, as a pattern, matches the
/// original text and nothing else.
pub proof fn lemma_escaped_literal(s: Seq<char>)
    ensures
        literal_text(escaped(s)) == Some(s),
{
    if exists|i: int| 0 <= i < s.len() && is_regex_special(#[trigger] s[i]) {
        lemma_literal_quoted(s);
    } else {
        lemma_literal_plain(s);
    }
}

/// Calls `fancy_regex::escape`; the contract restates the crate's rule.
#[verifier::external_body]
pub(crate) fn escape(text: &str) -> (res: String)
    ensures
        res@ == escaped(text@),
{
    fancy_regex::escape(text).into_owned()
}

} // verus!
