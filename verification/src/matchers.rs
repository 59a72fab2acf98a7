use vstd::prelude::*;
use crate::gina_fix::fixed_classes;
use crate::gina_regex::{RegexGINA, RegexGINAView, UnreadableNumber, gina_check, check_defined, generated_names_for, compiled_as, compile_outcome, translated, operands_fit};
use crate::references::interpolated;
use crate::regex::{opt_strings_view, opt_string_view, captures, capture_names, regex_captures, regex_capture_names, regex_accepts};
use crate::serializable_regex::{SerializableRegex, never_pattern};
use crate::text::{contains_seq, contains_str};
use crate::strmap::{pairs_map, keys_distinct, insert_pair, get_value};
use crate::text::{chars_of, string_of, to_uppercase, upper_key};

verus! {

/// What a match leaves behind: the captured groups by position, the captured
/// values by (upper-cased) name, and the character whose log the line was in.
#[derive(Debug)]
pub struct MatchContext {
    pub group_values: Vec<Option<String>>,
    /// Pairs with distinct names: the map from upper-cased names to values.
    pub named_values: Vec<(String, String)>,
    pub character_name: String,
}

pub struct MatchContextView {
    pub groups: Seq<Option<Seq<char>>>,
    pub named: Map<Seq<char>, Seq<char>>,
    pub character_name: Seq<char>,
}

impl View for MatchContext {
    type V = MatchContextView;

    open spec fn view(&self) -> MatchContextView {
        MatchContextView {
            groups: opt_strings_view(self.group_values@),
            named: pairs_map(self.named_values@),
            character_name: self.character_name@,
        }
    }
}

/// The highest group position that carries `name`.
pub open spec fn last_group_named(names: Seq<Option<Seq<char>>>, name: Seq<char>) -> Option<int>
    decreases names.len(),
{
    if names.len() == 0 {
        None
    } else if names.last() == Some(name) {
        Some(names.len() - 1)
    } else {
        last_group_named(names.drop_last(), name)
    }
}

/// What `Captures::name(name)` gives: the value of the last group with that
/// name, if it took part in the match.
pub open spec fn group_named(
    names: Seq<Option<Seq<char>>>,
    groups: Seq<Option<Seq<char>>>,
    name: Seq<char>,
) -> Option<Seq<char>> {
    match last_group_named(names, name) {
        Some(i) => if i < groups.len() {
            groups[i]
        } else {
            None
        },
        None => None,
    }
}

/// The named values of a match: for each named group in order, its
/// upper-cased name bound to its value, a later name overriding an earlier one.
pub open spec fn named_values_of(
    names: Seq<Option<Seq<char>>>,
    groups: Seq<Option<Seq<char>>>,
    k: int,
) -> Map<Seq<char>, Seq<char>>
    decreases k,
{
    if k <= 0 {
        Map::empty()
    } else {
        let m = named_values_of(names, groups, k - 1);
        match names[k - 1] {
            Some(n) => match group_named(names, groups, n) {
                Some(v) => m.insert(upper_key(n), v),
                None => m,
            },
            None => m,
        }
    }
}

pub fn last_group_named_exec(names: &Vec<Option<String>>, name: &Vec<char>) -> (r: Option<usize>)
    ensures
        r matches Some(i) ==> last_group_named(opt_strings_view(names@), name@) == Some(i as int),
        r is None ==> last_group_named(opt_strings_view(names@), name@) is None,
{
    let ghost nv = opt_strings_view(names@);
    let mut k: usize = names.len();
    assert(nv.take(k as int) =~= nv);
    while k > 0
        invariant
            k <= names@.len(),
            nv == opt_strings_view(names@),
            last_group_named(nv, name@) == last_group_named(nv.take(k as int), name@),
        decreases k,
    {
        let ghost t = nv.take(k as int);
        assert(t.drop_last() =~= nv.take(k - 1));
        assert(t.last() == opt_string_view(names@[k - 1]));
        match &names[k - 1] {
            Some(n) => {
                let nc = chars_of(n.as_str());
                if crate::text::seq_eq(&nc, name) {
                    return Some(k - 1);
                }
            },
            None => {},
        }
        k = k - 1;
    }
    None
}

impl MatchContext {
    pub open spec fn wf(&self) -> bool {
        keys_distinct(self.named_values@)
    }

    /// Builds the context of a regular-expression match from the captured
    /// groups and the pattern's group names.
    pub fn from_captures(groups: Vec<Option<String>>, names: &Vec<Option<String>>, character_name: &str) -> (res: Self)
        ensures
            res.wf(),
            res@.groups == opt_strings_view(groups@),
            res@.named == named_values_of(opt_strings_view(names@), opt_strings_view(groups@), names@.len() as int),
            res@.character_name == character_name@,
    {
        let ghost nv = opt_strings_view(names@);
        let ghost gv = opt_strings_view(groups@);
        let mut named: Vec<(String, String)> = Vec::new();
        let mut k: usize = 0;
        while k < names.len()
            invariant
                k <= names@.len(),
                nv == opt_strings_view(names@),
                gv == opt_strings_view(groups@),
                keys_distinct(named@),
                pairs_map(named@) == named_values_of(nv, gv, k as int),
            decreases names@.len() - k,
        {
            assert(nv[k as int] == opt_string_view(names@[k as int]));
            match &names[k] {
                Some(n) => {
                    let nc = chars_of(n.as_str());
                    match last_group_named_exec(names, &nc) {
                        Some(i) => {
                            if i < groups.len() {
                                assert(gv[i as int] == opt_string_view(groups@[i as int]));
                                match &groups[i] {
                                    Some(v) => {
                                        let key = to_uppercase(n.as_str());
                                        insert_pair(&mut named, key, v.clone());
                                    },
                                    None => {},
                                }
                            }
                        },
                        None => {},
                    }
                },
                None => {},
            }
            k = k + 1;
        }
        MatchContext { group_values: groups, named_values: named, character_name: string_of(&chars_of(character_name)) }
    }

    /// The value of group `index`, if that group took part in the match.
    pub fn group(&self, index: usize) -> (res: Option<&str>)
        ensures
            res matches Some(s) ==> index < self@.groups.len() && self@.groups[index as int] == Some(s@),
            res is None ==> index >= self@.groups.len() || self@.groups[index as int] is None,
    {
        if index < self.group_values.len() {
            assert(self@.groups[index as int] == opt_string_view(self.group_values@[index as int]));
            match &self.group_values[index] {
                Some(v) => Some(v.as_str()),
                None => None,
            }
        } else {
            None
        }
    }

    /// The value captured under `key`, looked up by its upper-cased form.
    pub fn named_value(&self, key: &str) -> (res: Option<&str>)
        requires
            self.wf(),
        ensures
            res matches Some(s) ==> self@.named.contains_key(upper_key(key@)) && self@.named[upper_key(key@)] == s@,
            res is None ==> !self@.named.contains_key(upper_key(key@)),
    {
        let upper = chars_of(to_uppercase(key).as_str());
        match get_value(&self.named_values, &upper) {
            Some(v) => Some(v.as_str()),
            None => None,
        }
    }

    pub fn empty(character_name: &str) -> (res: Self)
        ensures
            res.wf(),
            res@ == empty_context(character_name@),
    {
        let res = MatchContext {
            group_values: Vec::new(),
            named_values: Vec::new(),
            character_name: string_of(&chars_of(character_name)),
        };
        assert(res@.groups =~= Seq::<Option<Seq<char>>>::empty());
        res
    }
}

} // verus!

verus! {

// ---------------------------------------------------------------------------
// Matchers and filters
// ---------------------------------------------------------------------------

/// One way of recognising a log line.
#[derive(Debug)]
pub enum Matcher {
    /// The line is exactly this text.
    WholeLine(String),
    /// The line contains this text.
    PartialLine(String),
    /// The regular expression matches somewhere in the line.
    Pattern(SerializableRegex),
    /// The GINA pattern matches.
    GINA(RegexGINA),
}

pub enum MatcherView {
    WholeLine(Seq<char>),
    PartialLine(Seq<char>),
    Pattern(Seq<char>),
    GINA(RegexGINAView),
}

impl View for Matcher {
    type V = MatcherView;

    open spec fn view(&self) -> MatcherView {
        match self {
            Matcher::WholeLine(s) => MatcherView::WholeLine(s@),
            Matcher::PartialLine(s) => MatcherView::PartialLine(s@),
            Matcher::Pattern(r) => MatcherView::Pattern(r@),
            Matcher::GINA(r) => MatcherView::GINA(r@),
        }
    }
}

pub open spec fn empty_context(character_name: Seq<char>) -> MatchContextView {
    MatchContextView { groups: Seq::empty(), named: Map::empty(), character_name }
}

/// The context of a match of regular expression `pattern` on `line`.
pub open spec fn regex_context(pattern: Seq<char>, line: Seq<char>, character_name: Seq<char>) -> Option<MatchContextView> {
    match regex_captures(pattern, line) {
        Some(groups) => {
            let names = regex_capture_names(pattern);
            Some(MatchContextView { groups, named: named_values_of(names, groups, names.len() as int), character_name })
        },
        None => None,
    }
}

/// What checking `line` against matcher `m` gives.
pub open spec fn matcher_check(m: MatcherView, line: Seq<char>, character_name: Seq<char>) -> Option<MatchContextView> {
    match m {
        MatcherView::WholeLine(s) => if line == s {
            Some(empty_context(character_name))
        } else {
            None
        },
        MatcherView::PartialLine(s) => if contains_seq(line, s) {
            Some(empty_context(character_name))
        } else {
            None
        },
        MatcherView::Pattern(p) => regex_context(p, line, character_name),
        MatcherView::GINA(r) => gina_check(r, line, character_name),
    }
}

/// Checking `line` needs a GINA matcher's constrained numbers to fit an `i64`.
pub open spec fn matcher_defined(m: MatcherView, line: Seq<char>) -> bool {
    match m {
        MatcherView::GINA(r) => check_defined(r, line),
        _ => true,
    }
}

impl Matcher {
    pub open spec fn wf(&self) -> bool {
        match self {
            Matcher::Pattern(r) => r.wf(),
            Matcher::GINA(r) => r.wf(),
            _ => true,
        }
    }

    /// A GINA matcher for `pattern` (character classes repaired first).
    pub fn gina(pattern: &str) -> (res: Result<Matcher, fancy_regex::Error>)
        requires
            operands_fit(fixed_classes(pattern@)),
        ensures
            res matches Ok(m) ==> m is GINA && m.wf(),
            exists|names: Seq<Seq<char>>| #[trigger] generated_names_for(fixed_classes(pattern@), names)
                && (res is Ok <==> regex_accepts(translated(fixed_classes(pattern@), names)))
                && (res matches Ok(Matcher::GINA(r)) ==> compiled_as(fixed_classes(pattern@), names, r@)),
    {
        match RegexGINA::from_str(pattern) {
            Ok(r) => Ok(Matcher::GINA(r)),
            Err(e) => Err(e),
        }
    }

    /// Checks `line`, written by character `character_name`.
    pub fn check(&self, line: &str, character_name: &str) -> (res: Option<MatchContext>)
        requires
            self.wf(),
            matcher_defined(self@, line@),
        ensures
            res matches Some(m) ==> m.wf() && matcher_check(self@, line@, character_name@) == Some(m@),
            res is None ==> matcher_check(self@, line@, character_name@) is None,
    {
        match self {
            Matcher::WholeLine(exact_line) => {
                if crate::text::str_eq(line, exact_line.as_str()) {
                    Some(MatchContext::empty(character_name))
                } else {
                    None
                }
            },
            Matcher::PartialLine(substring) => {
                if contains_str(line, substring.as_str()) {
                    Some(MatchContext::empty(character_name))
                } else {
                    None
                }
            },
            Matcher::Pattern(serializable_regex) => {
                match captures(&serializable_regex.compiled, line) {
                    Some(groups) => {
                        let names = capture_names(&serializable_regex.compiled);
                        Some(MatchContext::from_captures(groups, &names, character_name))
                    },
                    None => None,
                }
            },
            Matcher::GINA(regex_gina) => regex_gina.check(line, character_name),
        }
    }

    /// `check` for any line: `Err` where a GINA matcher meets a constrained
    /// number that does not fit an `i64`.
    pub fn checked(&self, line: &str, character_name: &str) -> (res: Result<Option<MatchContext>, UnreadableNumber>)
        requires
            self.wf(),
        ensures
            res is Err <==> !matcher_defined(self@, line@),
            res matches Ok(Some(m)) ==> m.wf() && matcher_check(self@, line@, character_name@) == Some(m@),
            res matches Ok(None) ==> matcher_check(self@, line@, character_name@) is None,
    {
        match self {
            Matcher::GINA(regex_gina) => regex_gina.checked(line, character_name),
            _ => Ok(self.check(line, character_name)),
        }
    }
}

impl Clone for Matcher {
    fn clone(&self) -> (res: Self)
        ensures
            res@ == self@,
            self.wf() ==> res.wf(),
    {
        match self {
            Matcher::WholeLine(s) => Matcher::WholeLine(s.clone()),
            Matcher::PartialLine(s) => Matcher::PartialLine(s.clone()),
            Matcher::Pattern(r) => Matcher::Pattern(r.clone()),
            Matcher::GINA(r) => Matcher::GINA(r.clone()),
        }
    }
}

/// A list of matchers; a line passes when one of them matches.
#[derive(Debug)]
pub struct Filter(pub Vec<Matcher>);

impl View for Filter {
    type V = Seq<MatcherView>;

    open spec fn view(&self) -> Seq<MatcherView> {
        self.0@.map_values(|m: Matcher| m@)
    }
}

/// The first match among the matchers from position `i` on.
pub open spec fn filter_check(ms: Seq<MatcherView>, line: Seq<char>, character_name: Seq<char>, i: int) -> Option<MatchContextView>
    decreases ms.len() - i,
{
    if i < 0 || i >= ms.len() {
        None
    } else {
        match matcher_check(ms[i], line, character_name) {
            Some(c) => Some(c),
            None => filter_check(ms, line, character_name, i + 1),
        }
    }
}

/// Every matcher that is tried (up to the first match) can be checked.
pub open spec fn filter_defined(ms: Seq<MatcherView>, line: Seq<char>, character_name: Seq<char>, i: int) -> bool
    decreases ms.len() - i,
{
    if i < 0 || i >= ms.len() {
        true
    } else {
        &&& matcher_defined(ms[i], line)
        &&& (matcher_check(ms[i], line, character_name) is None ==> filter_defined(ms, line, character_name, i + 1))
    }
}

impl Filter {
    pub open spec fn wf(&self) -> bool {
        forall|i: int| 0 <= i < self.0@.len() ==> (#[trigger] self.0@[i]).wf()
    }

    /// The context of the first matcher that matches `line`.
    pub fn check(&self, line: &str, character_name: &str) -> (res: Option<MatchContext>)
        requires
            self.wf(),
            filter_defined(self@, line@, character_name@, 0),
        ensures
            res matches Some(m) ==> m.wf() && filter_check(self@, line@, character_name@, 0) == Some(m@),
            res is None ==> filter_check(self@, line@, character_name@, 0) is None,
    {
        let mut i: usize = 0;
        while i < self.0.len()
            invariant
                self.wf(),
                i <= self.0@.len(),
                filter_defined(self@, line@, character_name@, i as int),
                filter_check(self@, line@, character_name@, 0) == filter_check(self@, line@, character_name@, i as int),
            decreases self.0@.len() - i,
        {
            assert(self@[i as int] == self.0@[i as int]@);
            match self.0[i].check(line, character_name) {
                Some(c) => return Some(c),
                None => {},
            }
            i = i + 1;
        }
        None
    }

    /// `check` for any line: `Err` where a GINA matcher that is tried meets a
    /// constrained number that does not fit an `i64`.
    pub fn checked(&self, line: &str, character_name: &str) -> (res: Result<Option<MatchContext>, UnreadableNumber>)
        requires
            self.wf(),
        ensures
            res is Err <==> !filter_defined(self@, line@, character_name@, 0),
            res matches Ok(Some(m)) ==> m.wf() && filter_check(self@, line@, character_name@, 0) == Some(m@),
            res matches Ok(None) ==> filter_check(self@, line@, character_name@, 0) is None,
    {
        let mut i: usize = 0;
        while i < self.0.len()
            invariant
                self.wf(),
                i <= self.0@.len(),
                filter_defined(self@, line@, character_name@, 0) == filter_defined(self@, line@, character_name@, i as int),
                filter_check(self@, line@, character_name@, 0) == filter_check(self@, line@, character_name@, i as int),
            decreases self.0@.len() - i,
        {
            assert(self@[i as int] == self.0@[i as int]@);
            match self.0[i].checked(line, character_name) {
                Ok(Some(c)) => return Ok(Some(c)),
                Ok(None) => {},
                Err(e) => return Err(e),
            }
            i = i + 1;
        }
        Ok(None)
    }
}

impl From<Vec<Matcher>> for Filter {
    fn from(matchers: Vec<Matcher>) -> (res: Self) {
        Filter(matchers)
    }
}

impl vstd::std_specs::convert::FromSpecImpl<Vec<Matcher>> for Filter {
    open spec fn obeys_from_spec() -> bool {
        true
    }

    open spec fn from_spec(matchers: Vec<Matcher>) -> Self {
        Filter(matchers)
    }
}

impl Clone for Filter {
    fn clone(&self) -> (res: Self)
        ensures
            res@ == self@,
            self.wf() ==> res.wf(),
    {
        let mut v: Vec<Matcher> = Vec::new();
        let mut i: usize = 0;
        while i < self.0.len()
            invariant
                i <= self.0@.len(),
                v@.len() == i,
                forall|j: int| 0 <= j < i ==> (#[trigger] v@[j])@ == self.0@[j]@,
                forall|j: int| 0 <= j < i ==> self.0@[j].wf() ==> (#[trigger] v@[j]).wf(),
            decreases self.0@.len() - i,
        {
            v.push(self.0[i].clone());
            i = i + 1;
        }
        let res = Filter(v);
        assert(res@ =~= self@);
        res
    }
}

} // verus!

verus! {

/// A matcher whose pattern may refer to values of an earlier match; it is
/// compiled once those values are known.
#[derive(Debug)]
pub enum MatcherWithContext {
    WholeLine(String),
    PartialLine(String),
    /// A regular expression, compiled as it stands.
    Pattern(String),
    /// A GINA pattern with `${...}` references.
    GINA(String),
}

#[derive(Debug)]
pub struct FilterWithContext(pub Vec<MatcherWithContext>);

/// The GINA pattern `p` compiled with fresh group names: the compiled form
/// when the engine accepts it, else the pattern that matches nothing.
pub open spec fn gina_compiled_or_never(q: Seq<char>, g: RegexGINAView) -> bool {
    exists|names: Seq<Seq<char>>| #[trigger] generated_names_for(q, names) && if regex_accepts(translated(q, names)) {
        compiled_as(q, names, g)
    } else {
        compiled_as(never_pattern(), Seq::empty(), g)
    }
}

/// What compiling `mc` with the values of `ctx` gives.
pub open spec fn compiled_with_context(mc: MatcherWithContext, ctx: MatchContextView, m: MatcherView) -> bool {
    match mc {
        MatcherWithContext::WholeLine(s) => m == MatcherView::WholeLine(s@),
        MatcherWithContext::PartialLine(s) => m == MatcherView::PartialLine(s@),
        MatcherWithContext::Pattern(p) => m == MatcherView::Pattern(if regex_accepts(p@) { p@ } else { never_pattern() }),
        MatcherWithContext::GINA(p) => m matches MatcherView::GINA(g) && gina_compiled_or_never(fixed_classes(interpolated(p@, ctx)), g),
    }
}

/// Compiling needs each GINA pattern, once its references are filled in and
/// its character classes repaired, to have readable constraint operands.
pub open spec fn compilable_with_context(mc: MatcherWithContext, ctx: MatchContextView) -> bool {
    match mc {
        MatcherWithContext::GINA(p) => operands_fit(fixed_classes(interpolated(p@, ctx))),
        _ => true,
    }
}

impl From<Vec<MatcherWithContext>> for FilterWithContext {
    fn from(matchers: Vec<MatcherWithContext>) -> (res: Self) {
        FilterWithContext(matchers)
    }
}

impl vstd::std_specs::convert::FromSpecImpl<Vec<MatcherWithContext>> for FilterWithContext {
    open spec fn obeys_from_spec() -> bool {
        true
    }

    open spec fn from_spec(matchers: Vec<MatcherWithContext>) -> Self {
        FilterWithContext(matchers)
    }
}

impl FilterWithContext {
    /// Compiles each matcher with the values of `context`; a pattern that
    /// does not compile becomes the pattern that matches nothing.
    pub fn compile_with_context(&self, context: &MatchContext) -> (res: Filter)
        requires
            context.wf(),
            forall|i: int| 0 <= i < self.0@.len() ==> compilable_with_context(#[trigger] self.0@[i], context@),
        ensures
            res.wf(),
            res@.len() == self.0@.len(),
            forall|i: int| 0 <= i < self.0@.len() ==> compiled_with_context(#[trigger] self.0@[i], context@, res@[i]),
    {
        let mut out: Vec<Matcher> = Vec::new();
        let mut i: usize = 0;
        while i < self.0.len()
            invariant
                context.wf(),
                forall|j: int| 0 <= j < self.0@.len() ==> compilable_with_context(#[trigger] self.0@[j], context@),
                i <= self.0@.len(),
                out@.len() == i,
                forall|j: int| 0 <= j < i ==> (#[trigger] out@[j]).wf(),
                forall|j: int| 0 <= j < i ==> compiled_with_context(#[trigger] self.0@[j], context@, out@[j]@),
            decreases self.0@.len() - i,
        {
            let m = compile_matcher(&self.0[i], context);
            out.push(m);
            i = i + 1;
        }
        let res = Filter(out);
        assert forall|j: int| 0 <= j < self.0@.len() implies compiled_with_context(#[trigger] self.0@[j], context@, res@[j]) by {
            assert(res@[j] == out@[j]@);
        }
        res
    }
}

fn compile_matcher(mc: &MatcherWithContext, context: &MatchContext) -> (res: Matcher)
    requires
        context.wf(),
        compilable_with_context(*mc, context@),
    ensures
        res.wf(),
        compiled_with_context(*mc, context@, res@),
{
    match mc {
        MatcherWithContext::WholeLine(s) => Matcher::WholeLine(s.clone()),
        MatcherWithContext::PartialLine(s) => Matcher::PartialLine(s.clone()),
        MatcherWithContext::Pattern(pattern) => {
            match SerializableRegex::try_from(pattern.as_str()) {
                Ok(r) => Matcher::Pattern(r),
                Err(_) => Matcher::Pattern(SerializableRegex::never_matching()),
            }
        },
        MatcherWithContext::GINA(pattern) => {
            let res = RegexGINA::from_str_with_context(pattern.as_str(), context);
            let ghost q = fixed_classes(interpolated(pattern@, context@));
            let ghost names = choose|names: Seq<Seq<char>>| #[trigger] generated_names_for(q, names) && compile_outcome(q, names, res);
            let g = match res {
                Ok(r) => r,
                Err(_) => RegexGINA::never_matching(),
            };
            assert(generated_names_for(q, names));
            Matcher::GINA(g)
        },
    }
}

impl Clone for MatcherWithContext {
    fn clone(&self) -> (res: Self)
        ensures
            res == *self,
    {
        match self {
            MatcherWithContext::WholeLine(s) => MatcherWithContext::WholeLine(s.clone()),
            MatcherWithContext::PartialLine(s) => MatcherWithContext::PartialLine(s.clone()),
            MatcherWithContext::Pattern(s) => MatcherWithContext::Pattern(s.clone()),
            MatcherWithContext::GINA(s) => MatcherWithContext::GINA(s.clone()),
        }
    }
}

} // verus!

verus! {

impl View for FilterWithContext {
    type V = Seq<MatcherWithContext>;

    open spec fn view(&self) -> Seq<MatcherWithContext> {
        self.0@
    }
}

impl Clone for FilterWithContext {
    fn clone(&self) -> (res: Self)
        ensures
            res@ == self@,
    {
        let mut v: Vec<MatcherWithContext> = Vec::new();
        let mut i: usize = 0;
        while i < self.0.len()
            invariant
                i <= self.0@.len(),
                v@ == self.0@.take(i as int),
            decreases self.0@.len() - i,
        {
            v.push(self.0[i].clone());
            assert(self.0@.take(i + 1) == self.0@.take(i as int).push(self.0@[i as int]));
            i = i + 1;
        }
        assert(self.0@.take(i as int) == self.0@);
        FilterWithContext(v)
    }
}

} // verus!
