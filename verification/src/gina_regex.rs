//! GINA patterns: regular expressions with placeholders such as `{S}` (any
//! text), `{C}` (the character's name) and `{N>=10}` (a number with a
//! constraint). Each placeholder becomes a named group with a generated name;
//! the generated groups stay invisible to the user's own group numbers.
use vstd::prelude::*;
use crate::common::random_id;
use crate::gina_tokens::{Token, NumericOperator, token_at, token_at_exec, token_in, tokens, tokens_from, lemma_token_in};
use crate::matchers::{MatchContext, group_named, empty_context};
use crate::gina_fix::{fixed_classes, fix_possibly_invalid_character_classes};
use crate::references::{interpolated, interpolate_escaped_context_variables};
use crate::regex::{CompiledRegex, compile, compile_never_matching, captures, capture_names, clone_regex, regex_accepts, regex_captures, regex_capture_names, opt_strings_view, opt_string_view};
use crate::strmap::{pairs_map, keys_distinct, insert_pair, get_value};
use crate::text::{clone_opt_strings, clone_pairs, bounded, signed_value, parse_i64, chars_of, string_of, substring, string_push, append_str, extend_chars, seq_eq, to_uppercase, upper_key, all_ascii, ascii_uppercase, ascii_upper_char, is_ascii_lower};

verus! {

// ---------------------------------------------------------------------------
// Translating placeholders into named groups
// ---------------------------------------------------------------------------

pub open spec fn name_text(s: Seq<char>, t: Token) -> Seq<char> {
    s.subrange(t.name_lo as int, t.name_hi as int)
}

pub open spec fn capture_open() -> Seq<char> {
    seq!['(', '?', '<']
}

/// `>-?\d+)`: a number, possibly negative.
pub open spec fn number_body() -> Seq<char> {
    seq!['>', '-', '?', '\\', 'd', '+', ')']
}

/// `>[A-Za-z]{3,15})`: a character name.
pub open spec fn character_body() -> Seq<char> {
    seq!['>', '[', 'A', '-', 'Z', 'a', '-', 'z', ']', '{', '3', ',', '1', '5', '}', ')']
}

/// `>.+)`: any text.
pub open spec fn string_body() -> Seq<char> {
    seq!['>', '.', '+', ')']
}

/// Whether a non-numeric placeholder names the character (`{C}`, `{c}`).
pub open spec fn is_character_token(s: Seq<char>, t: Token) -> bool {
    !t.numeric && upper_key(name_text(s, t)) == seq!['C']
}

/// The named group that replaces placeholder `t` when its group is called `name`.
pub open spec fn capture_pattern(s: Seq<char>, t: Token, name: Seq<char>) -> Seq<char> {
    capture_open() + name + if t.numeric {
        number_body()
    } else if is_character_token(s, t) {
        character_body()
    } else {
        string_body()
    }
}

/// The placeholder of the character is `{C}` or `{c}`: a non-numeric
/// placeholder with an ASCII name is the character's exactly when its name
/// is `C` or `c`.
#[verifier::spinoff_prover]
pub proof fn lemma_character_tokens(s: Seq<char>, t: Token)
    requires
        all_ascii(name_text(s, t)),
    ensures
        is_character_token(s, t) <==> !t.numeric && (name_text(s, t) == seq!['C'] || name_text(s, t) == seq!['c']),
{
    let n = name_text(s, t);
    let u = ascii_uppercase(n);
    assert(ascii_upper_char('c') == 'C');
    assert(ascii_upper_char('C') == 'C');
    if n.len() == 1 && ascii_upper_char(n[0]) == 'C' {
        assert(u =~= seq!['C']);
        if is_ascii_lower(n[0]) {
            assert(n[0] as int - 32 == 'C' as int);
            assert(n =~= seq!['c']);
        } else {
            assert(n =~= seq!['C']);
        }
    }
    assert(u.len() == n.len());
    if n.len() == 1 {
        assert(u[0] == ascii_upper_char(n[0]));
    }
    if n == seq!['C'] || n == seq!['c'] {
        assert(u =~= seq!['C']);
    }
}

/// The group a placeholder becomes: `{C}` (the character) takes three to
/// fifteen ASCII letters, `(?<name>[A-Za-z]{3,15})`; a numeric placeholder
/// an optionally negative run of digits, `(?<name>-?\d+)`; any other
/// placeholder any non-empty text, `(?<name>.+)`.
pub proof fn lemma_capture_patterns(s: Seq<char>, t: Token, name: Seq<char>)
    ensures
        is_character_token(s, t) ==> capture_pattern(s, t, name) == "(?<"@ + name + ">[A-Za-z]{3,15})"@,
        t.numeric ==> capture_pattern(s, t, name) == "(?<"@ + name + ">-?\\d+)"@,
        !t.numeric && !is_character_token(s, t) ==> capture_pattern(s, t, name) == "(?<"@ + name + ">.+)"@,
{
    reveal_strlit("(?<");
    reveal_strlit(">[A-Za-z]{3,15})");
    reveal_strlit(">-?\\d+)");
    reveal_strlit(">.+)");
    assert(character_body() =~= ">[A-Za-z]{3,15})"@);
    assert(number_body() =~= ">-?\\d+)"@);
    assert(string_body() =~= ">.+)"@);
    assert(capture_open() =~= "(?<"@);
}

/// `s` from position `i` on with each placeholder replaced by its group; the
/// `k`-th placeholder from `i` on takes the group name `names[k]`.
pub open spec fn translate_from(s: Seq<char>, i: int, names: Seq<Seq<char>>, k: int) -> Seq<char>
    decreases s.len() - i,
{
    if i < 0 || i >= s.len() {
        Seq::empty()
    } else {
        match token_at(s, i) {
            Some(t) => if i < t.end && t.end <= s.len() {
                capture_pattern(s, t, names[k]) + translate_from(s, t.end as int, names, k + 1)
            } else {
                Seq::empty()
            },
            None => seq![s[i]] + translate_from(s, i + 1, names, k),
        }
    }
}

/// The pattern that is compiled for GINA pattern `s`, given the generated
/// group names, one per placeholder in order.
pub open spec fn translated(s: Seq<char>, names: Seq<Seq<char>>) -> Seq<char> {
    translate_from(s, 0, names, 0)
}

/// A generated group name: `LQ` and eight characters of `A-Z0-9`
/// (the pattern `^LQ[A-Z0-9]{8}$`).
pub open spec fn is_generated_name(n: Seq<char>) -> bool {
    &&& n.len() == 10
    &&& n[0] == 'L'
    &&& n[1] == 'Q'
    &&& forall|i: int| 2 <= i < 10 ==> crate::common::is_random_id_char(#[trigger] n[i])
}

pub fn is_generated_capture_name(capture_name: &str) -> (res: bool)
    ensures
        res == is_generated_name(capture_name@),
{
    let n = chars_of(capture_name);
    if n.len() != 10 || n[0] != 'L' || n[1] != 'Q' {
        return false;
    }
    let mut i: usize = 2;
    while i < 10
        invariant
            n@ == capture_name@,
            n@.len() == 10,
            2 <= i <= 10,
            forall|j: int| 2 <= j < i ==> crate::common::is_random_id_char(#[trigger] n@[j]),
        decreases 10 - i,
    {
        let c = n[i];
        if !(('A' <= c && c <= 'Z') || ('0' <= c && c <= '9')) {
            assert(!crate::common::is_random_id_char(n@[i as int]));
            return false;
        }
        i = i + 1;
    }
    true
}

/// A fresh group name for a placeholder: `LQ` and eight random characters.
pub fn generate_named_capture_name() -> (res: String)
    ensures
        is_generated_name(res@),
{
    let mut s = String::new();
    string_push(&mut s, 'L');
    string_push(&mut s, 'Q');
    let id = random_id(8);
    append_str(&mut s, id.as_str());
    assert forall|i: int| 2 <= i < 10 implies crate::common::is_random_id_char(#[trigger] s@[i]) by {
        assert(s@[i] == id@[i - 2]);
    }
    s
}

/// The placeholders of `s`, in order.
pub fn scan_tokens(s: &Vec<char>) -> (res: Vec<Token>)
    ensures
        res@ == tokens(s@),
{
    let mut res: Vec<Token> = Vec::new();
    let mut i: usize = 0;
    let n = s.len();
    while i < n
        invariant
            n == s@.len(),
            i <= n,
            res@ + tokens_from(s@, i as int) == tokens(s@),
        decreases n - i,
    {
        proof {
            lemma_token_in(s@, i as int);
        }
        match token_at_exec(s, i) {
            Some(t) => {
                res.push(t);
                assert(res@ + tokens_from(s@, t.end as int) == tokens(s@)) by {
                    assert(tokens_from(s@, i as int) == seq![t] + tokens_from(s@, t.end as int));
                    assert(res@ =~= res@.drop_last().push(t));
                }
                i = t.end;
            },
            None => {
                i = i + 1;
            },
        }
    }
    assert(tokens_from(s@, i as int) =~= Seq::<Token>::empty());
    assert(res@ + Seq::<Token>::empty() =~= res@);
    res
}

fn push_seq_literal(out: &mut Vec<char>, lit: &[char])
    ensures
        final(out)@ == old(out)@ + lit@,
{
    let mut k: usize = 0;
    while k < lit.len()
        invariant
            k <= lit@.len(),
            out@ == old(out)@ + lit@.take(k as int),
        decreases lit@.len() - k,
    {
        out.push(lit[k]);
        assert(lit@.take(k + 1) == lit@.take(k as int).push(lit@[k as int]));
        k = k + 1;
    }
    assert(lit@.take(lit@.len() as int) == lit@);
}

fn is_character_token_exec(s: &Vec<char>, t: &Token) -> (res: bool)
    requires
        token_in(s@, *t),
    ensures
        res == is_character_token(s@, *t),
{
    if t.numeric {
        return false;
    }
    let name = substring(s, t.name_lo, t.name_hi);
    let upper = chars_of(to_uppercase(name.as_str()).as_str());
    let c: Vec<char> = vec!['C'];
    assert(c@ =~= seq!['C']);
    seq_eq(&upper, &c)
}

/// Replaces every placeholder of `s` with its named group; the `k`-th
/// placeholder takes the group name `names[k]`.
pub fn translate(s: &Vec<char>, names: &Vec<String>) -> (res: Vec<char>)
    requires
        names@.len() >= tokens(s@).len(),
    ensures
        res@ == translated(s@, names@.map_values(|n: String| n@)),
{
    let ghost nv = names@.map_values(|n: String| n@);
    let mut out: Vec<char> = Vec::new();
    let mut i: usize = 0;
    let mut k: usize = 0;
    let n = s.len();
    let nn = names.len();
    let ghost toks = tokens(s@);
    assert(tokens(s@) == Seq::<Token>::empty() + tokens_from(s@, 0));
    while i < n
        invariant
            n == s@.len(),
            i <= n,
            nv == names@.map_values(|n: String| n@),
            nn == names@.len(),
            names@.len() >= toks.len(),
            toks == tokens(s@),
            k <= toks.len(),
            toks == toks.take(k as int) + tokens_from(s@, i as int),
            out@ + translate_from(s@, i as int, nv, k as int) == translated(s@, nv),
        decreases n - i,
    {
        proof {
            lemma_token_in(s@, i as int);
        }
        match token_at_exec(s, i) {
            Some(t) => {
                assert(tokens_from(s@, i as int) == seq![t] + tokens_from(s@, t.end as int));
                assert(toks.len() == k + tokens_from(s@, i as int).len());
                assert(k < toks.len());
                assert(toks[k as int] == t);
                assert(toks.take(k + 1) =~= toks.take(k as int).push(t));
                let ghost before = out@;
                out.push('(');
                out.push('?');
                out.push('<');
                let nc = chars_of(names[k].as_str());
                extend_chars(&mut out, &nc);
                if t.numeric {
                    push_seq_literal(&mut out, &['>', '-', '?', '\\', 'd', '+', ')']);
                } else if is_character_token_exec(s, &t) {
                    push_seq_literal(&mut out, &['>', '[', 'A', '-', 'Z', 'a', '-', 'z', ']', '{', '3', ',', '1', '5', '}', ')']);
                } else {
                    push_seq_literal(&mut out, &['>', '.', '+', ')']);
                }
                assert(out@ =~= before + capture_pattern(s@, t, nv[k as int]));
                i = t.end;
                k = k + 1;
            },
            None => {
                out.push(s[i]);
                i = i + 1;
            },
        }
    }
    assert(out@ + Seq::<char>::empty() =~= out@);
    out
}

} // verus!

verus! {

// ---------------------------------------------------------------------------
// What a GINA pattern compiles to
// ---------------------------------------------------------------------------

/// A numeric constraint of a placeholder such as `{N>=10}`: the value
/// captured by the generated group `projected_from` must compare so.
#[derive(Debug)]
pub struct NumericCondition {
    pub operator: NumericOperator,
    pub operand: i64,
    pub projected_from: String,
}

pub struct ConditionView {
    pub operator: NumericOperator,
    pub operand: i64,
    pub projected_from: Seq<char>,
}

impl View for NumericCondition {
    type V = ConditionView;

    open spec fn view(&self) -> ConditionView {
        ConditionView { operator: self.operator, operand: self.operand, projected_from: self.projected_from@ }
    }
}

/// A compiled GINA pattern.
#[derive(Debug)]
pub struct RegexGINA {
    /// The pattern as written (after any character-class repair).
    pub raw: String,
    /// The regular expression that is matched: `raw` with its placeholders
    /// replaced by generated named groups.
    pub compiled: CompiledRegex,
    /// The group names of `compiled`, by position.
    pub group_names: Vec<Option<String>>,
    /// Which group name feeds which name of the match context (distinct keys).
    pub named_projections: Vec<(String, String)>,
    /// The group positions that the user sees as groups 0, 1, 2, ...
    pub positional_projections: Vec<usize>,
    /// The numeric constraints, in the order of their placeholders.
    pub conditions: Vec<NumericCondition>,
}

pub struct RegexGINAView {
    pub raw: Seq<char>,
    pub pattern: Seq<char>,
    pub group_names: Seq<Option<Seq<char>>>,
    pub named: Seq<(Seq<char>, Seq<char>)>,
    pub positional: Seq<usize>,
    pub conditions: Seq<ConditionView>,
}

pub open spec fn pairs_view(s: Seq<(String, String)>) -> Seq<(Seq<char>, Seq<char>)> {
    s.map_values(|p: (String, String)| (p.0@, p.1@))
}

impl View for RegexGINA {
    type V = RegexGINAView;

    open spec fn view(&self) -> RegexGINAView {
        RegexGINAView {
            raw: self.raw@,
            pattern: self.compiled@,
            group_names: opt_strings_view(self.group_names@),
            named: pairs_view(self.named_projections@),
            positional: self.positional_projections@,
            conditions: self.conditions@.map_values(|c: NumericCondition| c@),
        }
    }
}

/// The value that an operand text such as `-10` stands for, when it fits an `i64`.
pub open spec fn operand_value(s: Seq<char>, t: Token) -> Option<int> {
    bounded(signed_value(s.subrange(t.operand_lo as int, t.operand_hi as int)), i64::MIN as int, i64::MAX as int)
}

/// Every numeric constraint of pattern `s` has an operand that fits an `i64`
/// (otherwise reading it fails).
pub open spec fn operands_fit(s: Seq<char>) -> bool {
    forall|k: int| 0 <= k < tokens(s).len() && (#[trigger] tokens(s)[k]).op is Some ==> operand_value(s, tokens(s)[k]) is Some
}

/// Group name `names[k]` projects onto the upper-cased placeholder name, for
/// the first `k` placeholders.
pub open spec fn token_projections(s: Seq<char>, toks: Seq<Token>, names: Seq<Seq<char>>, k: int) -> Map<Seq<char>, Seq<char>>
    decreases k,
{
    if k <= 0 {
        Map::empty()
    } else {
        token_projections(s, toks, names, k - 1).insert(names[k - 1], upper_key(name_text(s, toks[k - 1])))
    }
}

/// Each named group of the compiled pattern that is not a generated one
/// projects onto its own name (groups before position `i`, from 1 on).
pub open spec fn user_projections(cnames: Seq<Option<Seq<char>>>, m: Map<Seq<char>, Seq<char>>, i: int) -> Map<Seq<char>, Seq<char>>
    decreases i,
{
    if i <= 1 {
        m
    } else {
        let prev = user_projections(cnames, m, i - 1);
        match cnames[i - 1] {
            Some(n) => if is_generated_name(n) {
                prev
            } else {
                prev.insert(n, n)
            },
            None => prev,
        }
    }
}

/// The constraints of the first `k` placeholders, in order.
pub open spec fn token_conditions(s: Seq<char>, toks: Seq<Token>, names: Seq<Seq<char>>, k: int) -> Seq<ConditionView>
    decreases k,
{
    if k <= 0 {
        Seq::empty()
    } else {
        token_conditions(s, toks, names, k - 1) + match toks[k - 1].op {
            Some(op) => seq![ConditionView { operator: op, operand: operand_value(s, toks[k - 1]).unwrap() as i64, projected_from: names[k - 1] }],
            None => Seq::empty(),
        }
    }
}

/// The group positions the user sees: 0, then every group from position 1 on
/// (before `i`) that is not a generated one.
pub open spec fn positional_of(cnames: Seq<Option<Seq<char>>>, i: int) -> Seq<usize>
    decreases i,
{
    if i <= 1 {
        seq![0usize]
    } else {
        positional_of(cnames, i - 1) + match cnames[i - 1] {
            Some(n) => if is_generated_name(n) {
                Seq::<usize>::empty()
            } else {
                seq![(i - 1) as usize]
            },
            None => seq![(i - 1) as usize],
        }
    }
}

/// What compiling GINA pattern `p` with generated names `names` gives.
pub open spec fn compiled_as(p: Seq<char>, names: Seq<Seq<char>>, r: RegexGINAView) -> bool {
    let t = translated(p, names);
    let toks = tokens(p);
    let cnames = regex_capture_names(t);
    &&& r.raw == p
    &&& r.pattern == t
    &&& r.group_names == cnames
    &&& r.positional == positional_of(cnames, cnames.len() as int)
    &&& pairs_map_view(r.named) == user_projections(cnames, token_projections(p, toks, names, toks.len() as int), cnames.len() as int)
    &&& r.conditions == token_conditions(p, toks, names, toks.len() as int)
}

pub open spec fn pairs_map_view(s: Seq<(Seq<char>, Seq<char>)>) -> Map<Seq<char>, Seq<char>>
    decreases s.len(),
{
    if s.len() == 0 {
        Map::empty()
    } else {
        pairs_map_view(s.drop_last()).insert(s.last().0, s.last().1)
    }
}

pub proof fn lemma_pairs_map_view(s: Seq<(String, String)>)
    ensures
        pairs_map_view(pairs_view(s)) == pairs_map(s),
        keys_distinct(s) ==> keys_distinct_view(pairs_view(s)),
    decreases s.len(),
{
    if s.len() > 0 {
        lemma_pairs_map_view(s.drop_last());
        assert(pairs_view(s).drop_last() =~= pairs_view(s.drop_last()));
    }
}

pub open spec fn keys_distinct_view(s: Seq<(Seq<char>, Seq<char>)>) -> bool {
    forall|i: int, j: int| 0 <= i < j < s.len() ==> #[trigger] s[i].0 != #[trigger] s[j].0
}

} // verus!

verus! {

pub open spec fn names_view(names: Seq<String>) -> Seq<Seq<char>> {
    names.map_values(|n: String| n@)
}

pub open spec fn compare(op: NumericOperator, value: int, operand: int) -> bool {
    match op {
        NumericOperator::Eq => value == operand,
        NumericOperator::Le => value <= operand,
        NumericOperator::Ge => value >= operand,
        NumericOperator::Gt => value > operand,
        NumericOperator::Lt => value < operand,
    }
}

/// Whether constraint `c` holds of a match: `Some(true)` when its group took
/// no part; `None` when the captured number does not fit an `i64`.
pub open spec fn condition_holds(c: ConditionView, cnames: Seq<Option<Seq<char>>>, groups: Seq<Option<Seq<char>>>) -> Option<bool> {
    match group_named(cnames, groups, c.projected_from) {
        None => Some(true),
        Some(v) => match bounded(signed_value(v), i64::MIN as int, i64::MAX as int) {
            None => None,
            Some(x) => Some(compare(c.operator, x, c.operand as int)),
        },
    }
}

/// The constraints from position `i` on, checked in order: the first one that
/// fails decides.
pub open spec fn conditions_result(conds: Seq<ConditionView>, cnames: Seq<Option<Seq<char>>>, groups: Seq<Option<Seq<char>>>, i: int) -> Option<bool>
    decreases conds.len() - i,
{
    if i < 0 || i >= conds.len() {
        Some(true)
    } else {
        match condition_holds(conds[i], cnames, groups) {
            Some(true) => conditions_result(conds, cnames, groups, i + 1),
            other => other,
        }
    }
}

/// The named values of a match, taking the projections in order: each group
/// that took part binds its upper-cased target name; two different values for
/// one name reject the match (`None`).
pub open spec fn project_named(proj: Seq<(Seq<char>, Seq<char>)>, cnames: Seq<Option<Seq<char>>>, groups: Seq<Option<Seq<char>>>, k: int) -> Option<Map<Seq<char>, Seq<char>>>
    decreases k,
{
    if k <= 0 {
        Some(Map::empty())
    } else {
        match project_named(proj, cnames, groups, k - 1) {
            None => None,
            Some(m) => match group_named(cnames, groups, proj[k - 1].0) {
                None => Some(m),
                Some(v) => {
                    let key = upper_key(proj[k - 1].1);
                    if m.contains_key(key) && m[key] != v {
                        None
                    } else {
                        Some(m.insert(key, v))
                    }
                },
            },
        }
    }
}

pub open spec fn positional_values(positional: Seq<usize>, groups: Seq<Option<Seq<char>>>) -> Seq<Option<Seq<char>>> {
    positional.map_values(|i: usize| if i < groups.len() { groups[i as int] } else { None })
}

/// Reading a match needs every numeric constraint that is reached to capture
/// a number that fits an `i64`.
pub open spec fn check_defined(r: RegexGINAView, line: Seq<char>) -> bool {
    match regex_captures(r.pattern, line) {
        None => true,
        Some(groups) => conditions_result(r.conditions, r.group_names, groups, 0) is Some,
    }
}

/// What matching a compiled GINA pattern on `line` gives, for the character
/// `character_name`.
pub open spec fn gina_check(r: RegexGINAView, line: Seq<char>, character_name: Seq<char>) -> Option<crate::matchers::MatchContextView> {
    match regex_captures(r.pattern, line) {
        None => None,
        Some(groups) => check_on_groups(r, groups, character_name),
    }
}

/// What a match of compiled GINA pattern `r` with captured groups `groups`
/// gives, for the character `character_name`: nothing when a numeric
/// condition fails, when two captures projected to one name differ, or when
/// the value of `C` is not the character's name; else the context with the
/// positional values and the named values.
pub open spec fn check_on_groups(r: RegexGINAView, groups: Seq<Option<Seq<char>>>, character_name: Seq<char>) -> Option<crate::matchers::MatchContextView> {
    if conditions_result(r.conditions, r.group_names, groups, 0) != Some(true) {
        None
    } else {
        match project_named(r.named, r.group_names, groups, r.named.len() as int) {
            None => None,
            Some(m) => if m.contains_key(seq!['C']) && m[seq!['C']] != character_name {
                None
            } else {
                Some(crate::matchers::MatchContextView {
                    groups: positional_values(r.positional, groups),
                    named: m,
                    character_name,
                })
            },
        }
    }
}

fn compare_exec(op: NumericOperator, value: i64, operand: i64) -> (res: bool)
    ensures
        res == compare(op, value as int, operand as int),
{
    match op {
        NumericOperator::Eq => value == operand,
        NumericOperator::Le => value <= operand,
        NumericOperator::Ge => value >= operand,
        NumericOperator::Gt => value > operand,
        NumericOperator::Lt => value < operand,
    }
}

/// The value of the last group named `name`, if it took part.
fn group_named_exec<'a>(cnames: &Vec<Option<String>>, groups: &'a Vec<Option<String>>, name: &Vec<char>) -> (res: Option<&'a String>)
    ensures
        res matches Some(v) ==> group_named(opt_strings_view(cnames@), opt_strings_view(groups@), name@) == Some(v@),
        res is None ==> group_named(opt_strings_view(cnames@), opt_strings_view(groups@), name@) is None,
{
    match crate::matchers::last_group_named_exec(cnames, name) {
        Some(i) => if i < groups.len() {
            assert(opt_strings_view(groups@)[i as int] == opt_string_view(groups@[i as int]));
            match &groups[i] {
                Some(v) => Some(v),
                None => None,
            }
        } else {
            None
        },
        None => None,
    }
}

/// Adds the projections of the user's own named groups (each onto its own
/// name) and lists the group positions the user sees.
fn user_groups(cnames: &Vec<Option<String>>, named: &mut Vec<(String, String)>) -> (positional: Vec<usize>)
    requires
        keys_distinct(old(named)@),
    ensures
        keys_distinct(final(named)@),
        pairs_map(final(named)@) == user_projections(opt_strings_view(cnames@), pairs_map(old(named)@), cnames@.len() as int),
        positional@ == positional_of(opt_strings_view(cnames@), cnames@.len() as int),
{
    let ghost cv = opt_strings_view(cnames@);
    let ghost base = pairs_map(named@);
    let mut positional: Vec<usize> = vec![0usize];
    assert(positional@ =~= positional_of(cv, 1));
    let mut i: usize = 1;
    while i < cnames.len()
        invariant
            1 <= i,
            i <= cnames@.len() || (cnames@.len() == 0 && i == 1),
            cv == opt_strings_view(cnames@),
            keys_distinct(named@),
            pairs_map(named@) == user_projections(cv, base, i as int),
            positional@ == positional_of(cv, i as int),
        decreases cnames@.len() - i,
    {
        assert(cv[i as int] == opt_string_view(cnames@[i as int]));
        match &cnames[i] {
            Some(n) => {
                if !is_generated_capture_name(n.as_str()) {
                    insert_pair(named, n.clone(), n.clone());
                    positional.push(i);
                }
            },
            None => {
                positional.push(i);
            },
        }
        assert(positional@ =~= positional_of(cv, i + 1));
        i = i + 1;
    }
    if cnames.len() == 0 {
        assert(positional_of(cv, 0) =~= positional_of(cv, 1));
        assert(user_projections(cv, base, 0) == user_projections(cv, base, 1));
    }
    positional
}

impl RegexGINA {
    pub open spec fn wf(&self) -> bool {
        &&& keys_distinct(self.named_projections@)
        &&& self@.group_names == regex_capture_names(self@.pattern)
    }

    /// Compiles GINA pattern `pattern`, giving the `k`-th placeholder the
    /// group name `names[k]`.
    pub fn from_str_with_names(pattern: &str, names: &Vec<String>) -> (res: Result<RegexGINA, fancy_regex::Error>)
        requires
            names@.len() >= tokens(pattern@).len(),
            operands_fit(pattern@),
        ensures
            res is Ok <==> regex_accepts(translated(pattern@, names_view(names@))),
            res matches Ok(r) ==> r.wf() && compiled_as(pattern@, names_view(names@), r@),
    {
        let ghost nv = names_view(names@);
        let p = chars_of(pattern);
        let toks = scan_tokens(&p);
        let t = translate(&p, names);
        let mut named: Vec<(String, String)> = Vec::new();
        let mut conditions: Vec<NumericCondition> = Vec::new();
        let mut k: usize = 0;
        while k < toks.len()
            invariant
                p@ == pattern@,
                toks@ == tokens(p@),
                names@.len() >= toks@.len(),
                nv == names_view(names@),
                operands_fit(p@),
                k <= toks@.len(),
                keys_distinct(named@),
                pairs_map(named@) == token_projections(p@, toks@, nv, k as int),
                conditions@.map_values(|c: NumericCondition| c@) == token_conditions(p@, toks@, nv, k as int),
            decreases toks@.len() - k,
        {
            let tk = toks[k];
            proof {
                lemma_token_in(p@, tk.start as int);
                assert(tokens(p@)[k as int] == tk);
                lemma_tokens_in(p@, k as int);
            }
            let text = substring(&p, tk.name_lo, tk.name_hi);
            let upper = to_uppercase(text.as_str());
            insert_pair(&mut named, names[k].clone(), upper);
            let ghost before = conditions@;
            match tk.op {
                Some(op) => {
                    match parse_i64(&p, tk.operand_lo, tk.operand_hi) {
                        Some(x) => {
                            conditions.push(NumericCondition { operator: op, operand: x, projected_from: names[k].clone() });
                        },
                        None => {
                            assert(operand_value(p@, tokens(p@)[k as int]) is Some);
                            assert(false);
                        },
                    }
                },
                None => {},
            }
            assert(conditions@.map_values(|c: NumericCondition| c@) =~= token_conditions(p@, toks@, nv, k + 1));
            k = k + 1;
        }
        let ts = string_of(&t);
        let compiled = match compile(ts.as_str()) {
            Ok(c) => c,
            Err(e) => return Err(e),
        };
        let cnames = capture_names(&compiled);
        let positional = user_groups(&cnames, &mut named);
        proof {
            lemma_pairs_map_view(named@);
        }
        let res = RegexGINA {
            raw: string_of(&p),
            compiled,
            group_names: cnames,
            named_projections: named,
            positional_projections: positional,
            conditions,
        };
        Ok(res)
    }
}

pub proof fn lemma_tokens_in(s: Seq<char>, k: int)
    requires
        0 <= k < tokens(s).len(),
        s.len() <= usize::MAX,
    ensures
        token_in(s, tokens(s)[k]),
{
    lemma_tokens_from_in(s, 0, k);
}

pub proof fn lemma_tokens_from_in(s: Seq<char>, i: int, k: int)
    requires
        0 <= k < tokens_from(s, i).len(),
        s.len() <= usize::MAX,
    ensures
        token_in(s, tokens_from(s, i)[k]),
    decreases s.len() - i,
{
    if 0 <= i < s.len() {
        lemma_token_in(s, i);
        match token_at(s, i) {
            Some(t) => {
                if i < t.end && t.end <= s.len() {
                    if k > 0 {
                        lemma_tokens_from_in(s, t.end as int, k - 1);
                    }
                }
            },
            None => {
                lemma_tokens_from_in(s, i + 1, k);
            },
        }
    }
}

} // verus!

verus! {

pub proof fn lemma_project_named_none(proj: Seq<(Seq<char>, Seq<char>)>, cnames: Seq<Option<Seq<char>>>, groups: Seq<Option<Seq<char>>>, k: int, j: int)
    requires
        project_named(proj, cnames, groups, k) is None,
        k <= j,
    ensures
        project_named(proj, cnames, groups, j) is None,
    decreases j - k,
{
    if k < j {
        lemma_project_named_none(proj, cnames, groups, k, j - 1);
    }
}

/// Reading a number that a constraint captured failed: it does not fit an
/// `i64`.
#[derive(Debug)]
pub struct UnreadableNumber;

impl RegexGINA {
    /// Evaluates the constraints on a match, in order: `Some(false)` when one
    /// fails, `None` when a captured number does not fit an `i64`.
    fn conditions_hold(&self, groups: &Vec<Option<String>>) -> (res: Option<bool>)
        requires
            self.wf(),
        ensures
            res == conditions_result(self@.conditions, self@.group_names, opt_strings_view(groups@), 0),
    {
        let ghost conds = self@.conditions;
        let ghost gv = opt_strings_view(groups@);
        let mut ci: usize = 0;
        while ci < self.conditions.len()
            invariant
                conds == self@.conditions,
                gv == opt_strings_view(groups@),
                ci <= self.conditions@.len(),
                conditions_result(conds, self@.group_names, gv, 0) == conditions_result(conds, self@.group_names, gv, ci as int),
            decreases self.conditions@.len() - ci,
        {
            let c = &self.conditions[ci];
            assert(conds[ci as int] == c@);
            let pc = chars_of(c.projected_from.as_str());
            match group_named_exec(&self.group_names, groups, &pc) {
                Some(v) => {
                    let vc = chars_of(v.as_str());
                    assert(vc@.subrange(0, vc@.len() as int) =~= vc@);
                    match parse_i64(&vc, 0, vc.len()) {
                        Some(x) => {
                            if !compare_exec(c.operator, x, c.operand) {
                                return Some(false);
                            }
                        },
                        None => {
                            return None;
                        },
                    }
                },
                None => {},
            }
            ci = ci + 1;
        }
        Some(true)
    }

    /// Matches `line`; the values captured by `{C}` must equal
    /// `character_name`. The generated groups are hidden: group numbers are
    /// those of the pattern as written, and placeholder values are found by
    /// their names (`S`, `S1`, `N`, `C`, ...).
    pub fn check(&self, line: &str, character_name: &str) -> (res: Option<MatchContext>)
        requires
            self.wf(),
            check_defined(self@, line@),
        ensures
            res matches Some(m) ==> m.wf() && gina_check(self@, line@, character_name@) == Some(m@),
            res is None ==> gina_check(self@, line@, character_name@) is None,
    {
        match captures(&self.compiled, line) {
            Some(groups) => self.check_groups(groups, character_name),
            None => None,
        }
    }

    /// `check` for any line: a line on which a constrained number does not fit
    /// an `i64` gives `Err`.
    pub fn checked(&self, line: &str, character_name: &str) -> (res: Result<Option<MatchContext>, UnreadableNumber>)
        requires
            self.wf(),
        ensures
            res is Err <==> !check_defined(self@, line@),
            res matches Ok(Some(m)) ==> m.wf() && gina_check(self@, line@, character_name@) == Some(m@),
            res matches Ok(None) ==> gina_check(self@, line@, character_name@) is None,
    {
        match captures(&self.compiled, line) {
            Some(groups) => {
                if self.conditions_hold(&groups).is_none() {
                    return Err(UnreadableNumber);
                }
            },
            None => {},
        }
        Ok(self.check(line, character_name))
    }

    /// The rest of `check`, once the groups of the match are known: what
    /// the captured `groups` give for the character `character_name` (see
    /// `check_on_groups`). Every constrained group that took part must hold
    /// a number that fits an `i64`.
    pub fn check_groups(&self, groups: Vec<Option<String>>, character_name: &str) -> (res: Option<MatchContext>)
        requires
            self.wf(),
            conditions_result(self@.conditions, self@.group_names, opt_strings_view(groups@), 0) is Some,
        ensures
            res matches Some(m) ==> m.wf() && check_on_groups(self@, opt_strings_view(groups@), character_name@) == Some(m@),
            res is None ==> check_on_groups(self@, opt_strings_view(groups@), character_name@) is None,
    {
        let ghost gv = opt_strings_view(groups@);
        match self.conditions_hold(&groups) {
            None => return None,
            Some(false) => return None,
            Some(true) => {},
        }
        let ghost proj = self@.named;
        let mut named: Vec<(String, String)> = Vec::new();
        let mut k: usize = 0;
        while k < self.named_projections.len()
            invariant
                proj == self@.named,
                gv == opt_strings_view(groups@),
                conditions_result(self@.conditions, self@.group_names, gv, 0) == Some(true),
                k <= self.named_projections@.len(),
                keys_distinct(named@),
                project_named(proj, self@.group_names, gv, k as int) == Some(pairs_map(named@)),
            decreases self.named_projections@.len() - k,
        {
            let pair = &self.named_projections[k];
            assert(proj[k as int] == (pair.0@, pair.1@));
            let cn = chars_of(pair.0.as_str());
            match group_named_exec(&self.group_names, &groups, &cn) {
                Some(v) => {
                    let key = to_uppercase(pair.1.as_str());
                    let replaced = insert_pair(&mut named, key, v.clone());
                    match replaced {
                        Some(r) => {
                            let rc = chars_of(r.as_str());
                            let vc = chars_of(v.as_str());
                            if !seq_eq(&rc, &vc) {
                                proof {
                                    lemma_project_named_none(proj, self@.group_names, gv, k + 1, proj.len() as int);
                                }
                                return None;
                            }
                        },
                        None => {},
                    }
                },
                None => {},
            }
            k = k + 1;
        }
        let ckey: Vec<char> = vec!['C'];
        assert(ckey@ =~= seq!['C']);
        match get_value(&named, &ckey) {
            Some(cn) => {
                if !crate::text::str_eq(cn.as_str(), character_name) {
                    return None;
                }
            },
            None => {},
        }
        let mut values: Vec<Option<String>> = Vec::new();
        let mut j: usize = 0;
        while j < self.positional_projections.len()
            invariant
                gv == opt_strings_view(groups@),
                j <= self.positional_projections@.len(),
                opt_strings_view(values@) == positional_values(self@.positional.take(j as int), gv),
            decreases self.positional_projections@.len() - j,
        {
            let gi = self.positional_projections[j];
            let v = if gi < groups.len() {
                assert(gv[gi as int] == opt_string_view(groups@[gi as int]));
                match &groups[gi] {
                    Some(s) => Some(s.clone()),
                    None => None,
                }
            } else {
                None
            };
            let ghost before = values@;
            values.push(v);
            assert(self@.positional.take(j + 1) =~= self@.positional.take(j as int).push(gi));
            assert(opt_strings_view(values@) =~= opt_strings_view(before).push(opt_string_view(v)));
            assert(positional_values(self@.positional.take(j + 1), gv) =~= positional_values(self@.positional.take(j as int), gv).push(if gi < gv.len() { gv[gi as int] } else { None }));
            assert(opt_strings_view(values@) =~= positional_values(self@.positional.take(j + 1), gv));
            j = j + 1;
        }
        assert(self@.positional.take(j as int) =~= self@.positional);
        let res = MatchContext { group_values: values, named_values: named, character_name: string_of(&chars_of(character_name)) };
        Some(res)
    }
}

} // verus!

verus! {

/// One generated group name per placeholder of `p`.
pub open spec fn generated_names_for(p: Seq<char>, names: Seq<Seq<char>>) -> bool {
    &&& names.len() == tokens(p).len()
    &&& forall|k: int| 0 <= k < names.len() ==> is_generated_name(#[trigger] names[k])
}

/// What compiling GINA pattern `p` with group names `names` gives: `Ok`
/// exactly when the engine accepts the translated pattern, and then its
/// compiled form.
pub open spec fn compile_outcome(p: Seq<char>, names: Seq<Seq<char>>, res: Result<RegexGINA, fancy_regex::Error>) -> bool {
    &&& (res is Ok <==> regex_accepts(translated(p, names)))
    &&& (res matches Ok(r) ==> r.wf() && compiled_as(p, names, r@))
}

pub open spec fn has_no_brace(s: Seq<char>) -> bool {
    forall|j: int| 0 <= j < s.len() ==> s[j] != '{'
}

/// A pattern without `{` has no placeholder and is compiled as written.
pub proof fn lemma_no_placeholders(s: Seq<char>, i: int, names: Seq<Seq<char>>, k: int)
    requires
        has_no_brace(s),
        0 <= i <= s.len(),
    ensures
        tokens_from(s, i) == Seq::<Token>::empty(),
        translate_from(s, i, names, k) == s.subrange(i, s.len() as int),
    decreases s.len() - i,
{
    if i < s.len() {
        assert(token_at(s, i) is None);
        lemma_no_placeholders(s, i + 1, names, k);
        assert(translate_from(s, i, names, k) =~= s.subrange(i, s.len() as int));
    } else {
        assert(s.subrange(i, s.len() as int) =~= Seq::<char>::empty());
    }
}

/// Whether every numeric constraint of `pattern` has an operand that fits an
/// `i64` (the condition for compiling it).
pub fn operands_readable(pattern: &str) -> (res: bool)
    ensures
        res == operands_fit(pattern@),
{
    let p = chars_of(pattern);
    let toks = scan_tokens(&p);
    let mut k: usize = 0;
    while k < toks.len()
        invariant
            p@ == pattern@,
            toks@ == tokens(p@),
            k <= toks@.len(),
            forall|j: int| 0 <= j < k && (#[trigger] tokens(p@)[j]).op is Some ==> operand_value(p@, tokens(p@)[j]) is Some,
        decreases toks@.len() - k,
    {
        let tk = toks[k];
        proof {
            lemma_tokens_in(p@, k as int);
        }
        assert(tokens(p@)[k as int] == tk);
        match tk.op {
            Some(_) => {
                if parse_i64(&p, tk.operand_lo, tk.operand_hi).is_none() {
                    return false;
                }
            },
            None => {},
        }
        k = k + 1;
    }
    true
}

impl RegexGINA {
    /// Compiles GINA pattern `pattern` as written, each placeholder getting a
    /// freshly generated group name.
    pub fn from_str_without_fixing_character_classes(pattern: &str) -> (res: Result<RegexGINA, fancy_regex::Error>)
        requires
            operands_fit(pattern@),
        ensures
            exists|names: Seq<Seq<char>>| #[trigger] generated_names_for(pattern@, names) && compile_outcome(pattern@, names, res),
    {
        let p = chars_of(pattern);
        let toks = scan_tokens(&p);
        let mut names: Vec<String> = Vec::new();
        while names.len() < toks.len()
            invariant
                toks@ == tokens(pattern@),
                names@.len() <= toks@.len(),
                forall|k: int| 0 <= k < names@.len() ==> is_generated_name(#[trigger] names@[k]@),
            decreases toks@.len() - names@.len(),
        {
            let name = generate_named_capture_name();
            names.push(name);
        }
        let res = Self::from_str_with_names(pattern, &names);
        assert(generated_names_for(pattern@, names_view(names@)));
        res
    }

    /// Repairs the character classes of `pattern`, then compiles it.
    pub fn from_str(pattern: &str) -> (res: Result<RegexGINA, fancy_regex::Error>)
        requires
            operands_fit(fixed_classes(pattern@)),
        ensures
            exists|names: Seq<Seq<char>>| #[trigger] generated_names_for(fixed_classes(pattern@), names) && compile_outcome(fixed_classes(pattern@), names, res),
    {
        let fixed = fix_possibly_invalid_character_classes(pattern);
        Self::from_str_without_fixing_character_classes(fixed.as_str())
    }

    /// Replaces the references of `pattern` by the values they refer to in
    /// `context` (escaped), repairs the character classes, then compiles it.
    pub fn from_str_with_context(pattern: &str, context: &MatchContext) -> (res: Result<RegexGINA, fancy_regex::Error>)
        requires
            context.wf(),
            operands_fit(fixed_classes(interpolated(pattern@, context@))),
        ensures
            exists|names: Seq<Seq<char>>| #[trigger] generated_names_for(fixed_classes(interpolated(pattern@, context@)), names)
                && compile_outcome(fixed_classes(interpolated(pattern@, context@)), names, res),
    {
        let processed = interpolate_escaped_context_variables(pattern, context);
        Self::from_str(processed.as_str())
    }

    /// `from_str_with_context` without the character-class repair.
    pub fn from_str_with_context_without_fixing_character_classes(pattern: &str, context: &MatchContext) -> (res: Result<RegexGINA, fancy_regex::Error>)
        requires
            context.wf(),
            operands_fit(interpolated(pattern@, context@)),
        ensures
            exists|names: Seq<Seq<char>>| #[trigger] generated_names_for(interpolated(pattern@, context@), names)
                && compile_outcome(interpolated(pattern@, context@), names, res),
    {
        let processed = interpolate_escaped_context_variables(pattern, context);
        Self::from_str_without_fixing_character_classes(processed.as_str())
    }

    /// The pattern `^(?!)$`, which matches no line.
    pub fn never_matching() -> (res: RegexGINA)
        ensures
            res.wf(),
            compiled_as("^(?!)$"@, Seq::empty(), res@),
    {
        let pattern = "^(?!)$";
        proof {
            reveal_strlit("^(?!)$");
            assert(has_no_brace(pattern@));
            lemma_no_placeholders(pattern@, 0, Seq::empty(), 0);
            assert(pattern@.subrange(0, pattern@.len() as int) =~= pattern@);
        }
        let compiled = compile_never_matching(pattern);
        let cnames = capture_names(&compiled);
        let mut named: Vec<(String, String)> = Vec::new();
        let positional = user_groups(&cnames, &mut named);
        proof {
            lemma_pairs_map_view(named@);
        }
        let conditions: Vec<NumericCondition> = Vec::new();
        let res = RegexGINA {
            raw: string_of(&chars_of(pattern)),
            compiled,
            group_names: cnames,
            named_projections: named,
            positional_projections: positional,
            conditions,
        };
        assert(res@.conditions =~= token_conditions(pattern@, tokens(pattern@), Seq::empty(), 0));
        assert(pairs_map(Seq::<(String, String)>::empty()) =~= token_projections(pattern@, tokens(pattern@), Seq::empty(), 0));
        res
    }
}

} // verus!

verus! {

impl Clone for NumericCondition {
    fn clone(&self) -> (res: Self)
        ensures
            res == *self,
    {
        NumericCondition { operator: self.operator, operand: self.operand, projected_from: self.projected_from.clone() }
    }
}

fn clone_conditions(v: &Vec<NumericCondition>) -> (res: Vec<NumericCondition>)
    ensures
        res@ == v@,
{
    let mut res: Vec<NumericCondition> = Vec::new();
    let mut i: usize = 0;
    while i < v.len()
        invariant
            i <= v@.len(),
            res@ == v@.take(i as int),
        decreases v@.len() - i,
    {
        res.push(v[i].clone());
        assert(v@.take(i + 1) == v@.take(i as int).push(v@[i as int]));
        i = i + 1;
    }
    assert(v@.take(i as int) == v@);
    res
}

impl Clone for RegexGINA {
    /// A copy with the same compiled pattern and projections.
    fn clone(&self) -> (res: Self)
        ensures
            res@ == self@,
            self.wf() ==> res.wf(),
    {
        RegexGINA {
            raw: self.raw.clone(),
            compiled: clone_regex(&self.compiled),
            group_names: clone_opt_strings(&self.group_names),
            named_projections: clone_pairs(&self.named_projections),
            positional_projections: self.positional_projections.clone(),
            conditions: clone_conditions(&self.conditions),
        }
    }
}

/// Checks a GINA pattern as the trigger editor does, without repairing its
/// character classes: `None` when it compiles, else where the engine
/// stopped reading it (for a parse error) and why.
pub fn validate_gina_regex(pattern: &str) -> (res: Option<(Option<usize>, String)>)
    requires
        operands_fit(pattern@),
    ensures
        exists|names: Seq<Seq<char>>| #[trigger] generated_names_for(pattern@, names)
            && (res is None <==> regex_accepts(translated(pattern@, names))),
{
    match RegexGINA::from_str_without_fixing_character_classes(pattern) {
        Ok(_) => None,
        Err(e) => Some(crate::regex::error_details(&e)),
    }
}

/// `validate_gina_regex` for a pattern with `${...}` references, checked
/// with every reference empty.
pub fn validate_gina_regex_with_context(pattern: &str) -> (res: Option<(Option<usize>, String)>)
    requires
        operands_fit(interpolated(pattern@, empty_context(""@))),
    ensures
        exists|names: Seq<Seq<char>>| #[trigger] generated_names_for(interpolated(pattern@, empty_context(""@)), names)
            && (res is None <==> regex_accepts(translated(interpolated(pattern@, empty_context(""@)), names))),
{
    let context = MatchContext::empty("");
    match RegexGINA::from_str_with_context_without_fixing_character_classes(pattern, &context) {
        Ok(_) => None,
        Err(e) => Some(crate::regex::error_details(&e)),
    }
}

} // verus!
