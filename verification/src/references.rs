//! `${...}` references to the values of an earlier match.
//!
//! In a GINA pattern a reference is `$` `{` ws* name ws* `}` where the name is
//! a run of decimal digits, or an ASCII letter or `_` followed by word
//! characters; it is replaced by the referenced value, escaped for the regex
//! engine. In a text template a variable is `$` `{` ws* word+ ws* `}`; it is
//! replaced by the value as it is. References are found scanning from the
//! left and do not overlap. `ws`, `digit` and `word` are the Unicode classes
//! of the regex syntax (`\s`, `\d`, `\w`).
use vstd::prelude::*;
use crate::gina_tokens::{skip_ws, skip_digits, skip_ws_exec, skip_digits_exec, lemma_skip_ws_bounds, lemma_skip_digits_bounds};
use crate::matchers::{MatchContext, MatchContextView};
use crate::regex::{escaped, escape, literal_text, lemma_escaped_literal};
use crate::text::{is_word_char, word_char, is_decimal_digit, decimal_digit, is_ascii_letter, bounded, unsigned_value, upper_key, to_uppercase, parse_usize, chars_of, string_of, extend_chars, substring};

verus! {

pub open spec fn skip_word(s: Seq<char>, i: int) -> int
    decreases s.len() - i,
{
    if 0 <= i < s.len() && is_word_char(s[i]) {
        skip_word(s, i + 1)
    } else {
        i
    }
}

proof fn lemma_skip_word_bounds(s: Seq<char>, i: int)
    requires
        0 <= i <= s.len(),
    ensures
        i <= skip_word(s, i) <= s.len(),
    decreases s.len() - i,
{
    if i < s.len() && is_word_char(s[i]) {
        lemma_skip_word_bounds(s, i + 1);
    }
}

fn skip_word_exec(s: &Vec<char>, i: usize) -> (j: usize)
    requires
        i <= s@.len(),
    ensures
        j == skip_word(s@, i as int),
        i <= j <= s@.len(),
{
    let mut j = i;
    while j < s.len() && word_char(s[j])
        invariant
            i <= j <= s@.len(),
            skip_word(s@, i as int) == skip_word(s@, j as int),
        decreases s@.len() - j,
    {
        j = j + 1;
    }
    j
}

/// Where the name of a pattern reference that starts at `a` ends (`a` when
/// there is none): decimal digits, or a letter or `_` and word characters.
pub open spec fn reference_name_end(s: Seq<char>, a: int) -> int {
    if 0 <= a < s.len() && is_decimal_digit(s[a]) {
        skip_digits(s, a)
    } else if 0 <= a < s.len() && (is_ascii_letter(s[a]) || s[a] == '_') {
        skip_word(s, a + 1)
    } else {
        a
    }
}

/// The `${...}` whose name is `s[a..b]`, if a closing `}` follows after
/// optional white space: the name's bounds and the position after the `}`.
pub open spec fn closed_at(s: Seq<char>, a: int, b: int) -> Option<(int, int, int)> {
    let e = skip_ws(s, b);
    if a < b && 0 <= e < s.len() && s[e] == '}' {
        Some((a, b, e + 1))
    } else {
        None
    }
}

pub open spec fn opens_at(s: Seq<char>, i: int) -> bool {
    0 <= i && i + 1 < s.len() && s[i] == '$' && s[i + 1] == '{'
}

/// The pattern reference at position `i`.
pub open spec fn reference_at(s: Seq<char>, i: int) -> Option<(int, int, int)> {
    if opens_at(s, i) {
        let a = skip_ws(s, i + 2);
        closed_at(s, a, reference_name_end(s, a))
    } else {
        None
    }
}

/// The template variable at position `i`.
pub open spec fn template_var_at(s: Seq<char>, i: int) -> Option<(int, int, int)> {
    if opens_at(s, i) {
        let a = skip_ws(s, i + 2);
        closed_at(s, a, skip_word(s, a))
    } else {
        None
    }
}

proof fn lemma_reference_bounds(s: Seq<char>, i: int)
    requires
        0 <= i < s.len(),
    ensures
        reference_at(s, i) matches Some((lo, hi, e)) ==> i + 2 <= lo < hi < e <= s.len(),
        template_var_at(s, i) matches Some((lo, hi, e)) ==> i + 2 <= lo < hi < e <= s.len(),
{
    if opens_at(s, i) {
        let a = skip_ws(s, i + 2);
        lemma_skip_ws_bounds(s, i + 2);
        if 0 <= a < s.len() && is_decimal_digit(s[a]) {
            lemma_skip_digits_bounds(s, a);
        } else if 0 <= a < s.len() && (is_ascii_letter(s[a]) || s[a] == '_') {
            lemma_skip_word_bounds(s, a + 1);
        }
        lemma_skip_word_bounds(s, a);
        let b1 = reference_name_end(s, a);
        let b2 = skip_word(s, a);
        lemma_skip_ws_bounds(s, b1);
        lemma_skip_ws_bounds(s, b2);
    }
}

fn closed_at_exec(s: &Vec<char>, a: usize, b: usize) -> (r: Option<(usize, usize, usize)>)
    requires
        a <= b <= s@.len(),
    ensures
        r matches Some((lo, hi, e)) ==> closed_at(s@, a as int, b as int) == Some((lo as int, hi as int, e as int)),
        r is None ==> closed_at(s@, a as int, b as int) is None,
{
    let e = skip_ws_exec(s, b);
    if a < b && e < s.len() && s[e] == '}' {
        Some((a, b, e + 1))
    } else {
        None
    }
}

/// Finds the reference (`template == false`) or template variable
/// (`template == true`) at position `i`.
fn braced_at_exec(s: &Vec<char>, i: usize, template: bool) -> (r: Option<(usize, usize, usize)>)
    requires
        i < s@.len(),
    ensures
        !template ==> (r matches Some((lo, hi, e)) ==> reference_at(s@, i as int) == Some((lo as int, hi as int, e as int))),
        !template ==> (r is None ==> reference_at(s@, i as int) is None),
        template ==> (r matches Some((lo, hi, e)) ==> template_var_at(s@, i as int) == Some((lo as int, hi as int, e as int))),
        template ==> (r is None ==> template_var_at(s@, i as int) is None),
{
    let n = s.len();
    if i + 1 < n && s[i] == '$' && s[i + 1] == '{' {
        let a = skip_ws_exec(s, i + 2);
        let b = if template {
            skip_word_exec(s, a)
        } else if a < n && decimal_digit(s[a]) {
            proof { lemma_skip_digits_bounds(s@, a as int); }
            skip_digits_exec(s, a)
        } else if a < n && (('A' <= s[a] && s[a] <= 'Z') || ('a' <= s[a] && s[a] <= 'z') || s[a] == '_') {
            skip_word_exec(s, a + 1)
        } else {
            a
        };
        closed_at_exec(s, a, b)
    } else {
        None
    }
}

// ---------------------------------------------------------------------------
// Interpolating references into a GINA pattern
// ---------------------------------------------------------------------------

/// What reference `name` stands for: a name that reads as a `usize` refers to
/// that group; any other name to the value captured under it. The value is
/// escaped; a missing one is empty text.
pub open spec fn reference_value(ctx: MatchContextView, name: Seq<char>) -> Seq<char> {
    match bounded(unsigned_value(name), 0, usize::MAX as int) {
        Some(n) => if n < ctx.groups.len() && ctx.groups[n] is Some {
            escaped(ctx.groups[n]->0)
        } else {
            Seq::empty()
        },
        None => if ctx.named.contains_key(upper_key(name)) {
            escaped(ctx.named[upper_key(name)])
        } else {
            Seq::empty()
        },
    }
}

/// The value that reference `name` refers to, as captured: the group of
/// that number for a name that reads as a `usize`, else the value captured
/// under the name (whatever the case of its ASCII letters).
pub open spec fn referenced_value(ctx: MatchContextView, name: Seq<char>) -> Option<Seq<char>> {
    match bounded(unsigned_value(name), 0, usize::MAX as int) {
        Some(n) => if n < ctx.groups.len() { ctx.groups[n] } else { None },
        None => if ctx.named.contains_key(upper_key(name)) { Some(ctx.named[upper_key(name)]) } else { None },
    }
}

/// A reference is put into the pattern as a literal: the text that stands
/// for it matches the captured value and nothing else (no character of the
/// value acts as an operator), and matches the empty text when nothing was
/// captured.
pub proof fn lemma_reference_is_literal(ctx: MatchContextView, name: Seq<char>)
    ensures
        literal_text(reference_value(ctx, name)) == Some(match referenced_value(ctx, name) {
            Some(v) => v,
            None => Seq::<char>::empty(),
        }),
{
    match referenced_value(ctx, name) {
        Some(v) => lemma_escaped_literal(v),
        None => {
            assert(literal_text(Seq::<char>::empty()) == Some(Seq::<char>::empty()));
        },
    }
}

pub open spec fn interpolate_from(s: Seq<char>, i: int, ctx: MatchContextView) -> Seq<char>
    decreases s.len() - i,
{
    if i < 0 || i >= s.len() {
        Seq::empty()
    } else {
        match reference_at(s, i) {
            Some((lo, hi, e)) => if i < e <= s.len() {
                reference_value(ctx, s.subrange(lo, hi)) + interpolate_from(s, e, ctx)
            } else {
                Seq::empty()
            },
            None => seq![s[i]] + interpolate_from(s, i + 1, ctx),
        }
    }
}

/// GINA pattern `s` with every reference replaced by what it stands for in `ctx`.
pub open spec fn interpolated(s: Seq<char>, ctx: MatchContextView) -> Seq<char> {
    interpolate_from(s, 0, ctx)
}

/// Replaces each `${1}` / `${name}` reference in `pattern` by the escaped
/// value it refers to in `context` (empty when there is none).
pub fn interpolate_escaped_context_variables(pattern: &str, context: &MatchContext) -> (res: String)
    requires
        context.wf(),
    ensures
        res@ == interpolated(pattern@, context@),
{
    let s = chars_of(pattern);
    let n = s.len();
    let mut out: Vec<char> = Vec::new();
    let mut i: usize = 0;
    while i < n
        invariant
            n == s@.len(),
            s@ == pattern@,
            i <= n,
            context.wf(),
            out@ + interpolate_from(s@, i as int, context@) == interpolated(s@, context@),
        decreases n - i,
    {
        proof { lemma_reference_bounds(s@, i as int); }
        match braced_at_exec(&s, i, false) {
            Some((lo, hi, e)) => {
                let ghost before = out@;
                let value = reference_text(&s, lo, hi, context);
                let vc = chars_of(value.as_str());
                extend_chars(&mut out, &vc);
                assert(out@ =~= before + reference_value(context@, s@.subrange(lo as int, hi as int)));
                i = e;
            },
            None => {
                out.push(s[i]);
                i = i + 1;
            },
        }
    }
    assert(out@ + Seq::<char>::empty() =~= out@);
    string_of(&out)
}

fn reference_text(s: &Vec<char>, lo: usize, hi: usize, context: &MatchContext) -> (res: String)
    requires
        lo <= hi <= s@.len(),
        context.wf(),
    ensures
        res@ == reference_value(context@, s@.subrange(lo as int, hi as int)),
{
    match parse_usize(s, lo, hi) {
        Some(n) => match context.group(n) {
            Some(v) => escape(v),
            None => String::new(),
        },
        None => {
            let name = substring(s, lo, hi);
            match context.named_value(name.as_str()) {
                Some(v) => escape(v),
                None => String::new(),
            }
        },
    }
}

// ---------------------------------------------------------------------------
// Rendering text templates
// ---------------------------------------------------------------------------

/// What template variable `name` stands for: its upper-cased form `C` is the
/// character's name; a form that reads as a `usize` is that group; any other
/// is the value captured under it. Missing values are empty text.
pub open spec fn template_value(ctx: MatchContextView, name: Seq<char>) -> Seq<char> {
    let var = upper_key(name);
    if var == seq!['C'] {
        ctx.character_name
    } else {
        match bounded(unsigned_value(var), 0, usize::MAX as int) {
            Some(n) => if n < ctx.groups.len() && ctx.groups[n] is Some {
                ctx.groups[n]->0
            } else {
                Seq::empty()
            },
            None => if ctx.named.contains_key(upper_key(var)) {
                ctx.named[upper_key(var)]
            } else {
                Seq::empty()
            },
        }
    }
}

pub open spec fn render_from(s: Seq<char>, i: int, ctx: MatchContextView) -> Seq<char>
    decreases s.len() - i,
{
    if i < 0 || i >= s.len() {
        Seq::empty()
    } else {
        match template_var_at(s, i) {
            Some((lo, hi, e)) => if i < e <= s.len() {
                template_value(ctx, s.subrange(lo, hi)) + render_from(s, e, ctx)
            } else {
                Seq::empty()
            },
            None => seq![s[i]] + render_from(s, i + 1, ctx),
        }
    }
}

/// Template `s` with every variable replaced by its value in `ctx`.
pub open spec fn rendered(s: Seq<char>, ctx: MatchContextView) -> Seq<char> {
    render_from(s, 0, ctx)
}

fn template_text(s: &Vec<char>, lo: usize, hi: usize, context: &MatchContext) -> (res: String)
    requires
        lo <= hi <= s@.len(),
        context.wf(),
    ensures
        res@ == template_value(context@, s@.subrange(lo as int, hi as int)),
{
    let name = substring(s, lo, hi);
    let var = to_uppercase(name.as_str());
    let vc = chars_of(var.as_str());
    if vc.len() == 1 && vc[0] == 'C' {
        assert(vc@ =~= seq!['C']);
        return string_of(&chars_of(context.character_name.as_str()));
    }
    assert(vc@ != seq!['C']);
    assert(vc@.subrange(0, vc@.len() as int) =~= vc@);
    match parse_usize(&vc, 0, vc.len()) {
        Some(n) => match context.group(n) {
            Some(v) => string_of(&chars_of(v)),
            None => String::new(),
        },
        None => match context.named_value(var.as_str()) {
            Some(v) => string_of(&chars_of(v)),
            None => String::new(),
        },
    }
}

/// Replaces each `${name}` variable of template `tmpl` by its value.
pub fn render_template(tmpl: &str, context: &MatchContext) -> (res: String)
    requires
        context.wf(),
    ensures
        res@ == rendered(tmpl@, context@),
{
    let s = chars_of(tmpl);
    let n = s.len();
    let mut out: Vec<char> = Vec::new();
    let mut i: usize = 0;
    while i < n
        invariant
            n == s@.len(),
            s@ == tmpl@,
            i <= n,
            context.wf(),
            out@ + render_from(s@, i as int, context@) == rendered(s@, context@),
        decreases n - i,
    {
        proof { lemma_reference_bounds(s@, i as int); }
        match braced_at_exec(&s, i, true) {
            Some((lo, hi, e)) => {
                let ghost before = out@;
                let value = template_text(&s, lo, hi, context);
                let vc = chars_of(value.as_str());
                extend_chars(&mut out, &vc);
                assert(out@ =~= before + template_value(context@, s@.subrange(lo as int, hi as int)));
                i = e;
            },
            None => {
                out.push(s[i]);
                i = i + 1;
            },
        }
    }
    assert(out@ + Seq::<char>::empty() =~= out@);
    string_of(&out)
}

} // verus!
