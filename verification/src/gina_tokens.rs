//! The placeholders of a GINA pattern: `{S}`, `{S1}`, `{C}`, `{N}`, `{N2}`,
//! `{N>=10}` and the like, with optional white space inside the braces.
//!
//! A placeholder at position `i` is
//! `{ ws* ( [Cc] | [Ss] digit* | [Nn] digit* ws* ( op ws* -? digit+ )? ) ws* }`
//! where `op` is one of `>=`, `<=`, `=`, `>`, `<` (tried in that order), `ws`
//! is a Unicode white-space character and `digit` a Unicode decimal digit.
//! Placeholders are found scanning from the left; they do not overlap.
use vstd::prelude::*;
use crate::text::{is_white_space, is_decimal_digit, white_space, decimal_digit};

verus! {

#[derive(Debug, Clone, Copy, PartialEq, Eq, Structural)]
pub enum NumericOperator {
    /// `=`
    Eq,
    /// `<=`
    Le,
    /// `>=`
    Ge,
    /// `>`
    Gt,
    /// `<`
    Lt,
}

pub open spec fn skip_ws(s: Seq<char>, i: int) -> int
    decreases s.len() - i,
{
    if 0 <= i < s.len() && is_white_space(s[i]) {
        skip_ws(s, i + 1)
    } else {
        i
    }
}

pub open spec fn skip_digits(s: Seq<char>, i: int) -> int
    decreases s.len() - i,
{
    if 0 <= i < s.len() && is_decimal_digit(s[i]) {
        skip_digits(s, i + 1)
    } else {
        i
    }
}

pub proof fn lemma_skip_ws_bounds(s: Seq<char>, i: int)
    requires
        0 <= i <= s.len(),
    ensures
        i <= skip_ws(s, i) <= s.len(),
    decreases s.len() - i,
{
    if i < s.len() && is_white_space(s[i]) {
        lemma_skip_ws_bounds(s, i + 1);
    }
}

pub proof fn lemma_skip_digits_bounds(s: Seq<char>, i: int)
    requires
        0 <= i <= s.len(),
    ensures
        i <= skip_digits(s, i) <= s.len(),
    decreases s.len() - i,
{
    if i < s.len() && is_decimal_digit(s[i]) {
        lemma_skip_digits_bounds(s, i + 1);
    }
}

pub fn skip_ws_exec(s: &Vec<char>, i: usize) -> (j: usize)
    requires
        i <= s@.len(),
    ensures
        j == skip_ws(s@, i as int),
        i <= j <= s@.len(),
{
    let mut j = i;
    while j < s.len() && white_space(s[j])
        invariant
            i <= j <= s@.len(),
            skip_ws(s@, i as int) == skip_ws(s@, j as int),
        decreases s@.len() - j,
    {
        j = j + 1;
    }
    j
}

pub fn skip_digits_exec(s: &Vec<char>, i: usize) -> (j: usize)
    requires
        i <= s@.len(),
    ensures
        j == skip_digits(s@, i as int),
        i <= j <= s@.len(),
{
    let mut j = i;
    while j < s.len() && decimal_digit(s[j])
        invariant
            i <= j <= s@.len(),
            skip_digits(s@, i as int) == skip_digits(s@, j as int),
        decreases s@.len() - j,
    {
        j = j + 1;
    }
    j
}

/// The comparison operator at position `e`, with its length.
pub open spec fn op_at(s: Seq<char>, e: int) -> Option<(NumericOperator, int)> {
    if 0 <= e && e + 1 < s.len() && s[e] == '>' && s[e + 1] == '=' {
        Some((NumericOperator::Ge, 2))
    } else if 0 <= e && e + 1 < s.len() && s[e] == '<' && s[e + 1] == '=' {
        Some((NumericOperator::Le, 2))
    } else if 0 <= e < s.len() && s[e] == '=' {
        Some((NumericOperator::Eq, 1))
    } else if 0 <= e < s.len() && s[e] == '>' {
        Some((NumericOperator::Gt, 1))
    } else if 0 <= e < s.len() && s[e] == '<' {
        Some((NumericOperator::Lt, 1))
    } else {
        None
    }
}

/// A placeholder found in a pattern: where it ends, where its name (`S1`,
/// `C`, `N2`, ...) lies, and for a numeric one its constraint, if any
/// (operator and the position of the operand text).
#[derive(Debug, Clone, Copy)]
pub struct Token {
    pub start: usize,
    pub end: usize,
    pub name_lo: usize,
    pub name_hi: usize,
    pub numeric: bool,
    pub op: Option<NumericOperator>,
    pub operand_lo: usize,
    pub operand_hi: usize,
}

/// The constraint `op ws* -? digit+ ws* }` of a numeric placeholder starting
/// at `e`: the operator, the operand's bounds and the end of the placeholder.
pub open spec fn constraint_at(s: Seq<char>, e: int) -> Option<(NumericOperator, int, int, int)> {
    match op_at(s, e) {
        Some((op, len)) => {
            let f = skip_ws(s, e + len);
            let g = if f < s.len() && s[f] == '-' {
                f + 1
            } else {
                f
            };
            let h = skip_digits(s, g);
            let k = skip_ws(s, h);
            if h > g && k < s.len() && s[k] == '}' {
                Some((op, f, h, k + 1))
            } else {
                None
            }
        },
        None => None,
    }
}

/// The placeholder that starts at position `i`, if one does.
pub open spec fn token_at(s: Seq<char>, i: int) -> Option<Token> {
    if !(0 <= i < s.len() && s[i] == '{') {
        None
    } else {
        let a = skip_ws(s, i + 1);
        if a >= s.len() {
            None
        } else if s[a] == 'C' || s[a] == 'c' {
            let b = skip_ws(s, a + 1);
            if b < s.len() && s[b] == '}' {
                Some(Token { start: i as usize, end: (b + 1) as usize, name_lo: a as usize, name_hi: (a + 1) as usize, numeric: false, op: None, operand_lo: 0, operand_hi: 0 })
            } else {
                None
            }
        } else if s[a] == 'S' || s[a] == 's' {
            let d = skip_digits(s, a + 1);
            let b = skip_ws(s, d);
            if b < s.len() && s[b] == '}' {
                Some(Token { start: i as usize, end: (b + 1) as usize, name_lo: a as usize, name_hi: d as usize, numeric: false, op: None, operand_lo: 0, operand_hi: 0 })
            } else {
                None
            }
        } else if s[a] == 'N' || s[a] == 'n' {
            let d = skip_digits(s, a + 1);
            let e = skip_ws(s, d);
            match constraint_at(s, e) {
                Some((op, f, h, end)) => Some(Token { start: i as usize, end: end as usize, name_lo: a as usize, name_hi: d as usize, numeric: true, op: Some(op), operand_lo: f as usize, operand_hi: h as usize }),
                None => if e < s.len() && s[e] == '}' {
                    Some(Token { start: i as usize, end: (e + 1) as usize, name_lo: a as usize, name_hi: d as usize, numeric: true, op: None, operand_lo: 0, operand_hi: 0 })
                } else {
                    None
                },
            }
        } else {
            None
        }
    }
}

/// The well-formedness of a placeholder found at `i`: its parts lie in order
/// inside the text.
pub open spec fn token_in(s: Seq<char>, t: Token) -> bool {
    &&& t.start < t.end <= s.len()
    &&& t.start < t.name_lo <= t.name_hi < t.end
    &&& t.op is Some ==> t.name_hi <= t.operand_lo < t.operand_hi < t.end
}

pub proof fn lemma_token_in(s: Seq<char>, i: int)
    requires
        0 <= i,
        s.len() <= usize::MAX,
    ensures
        token_at(s, i) matches Some(t) ==> token_in(s, t) && t.start == i,
{
    if 0 <= i < s.len() && s[i] == '{' {
        lemma_skip_ws_bounds(s, i + 1);
        let a = skip_ws(s, i + 1);
        if a < s.len() {
            lemma_skip_ws_bounds(s, a + 1);
            lemma_skip_digits_bounds(s, a + 1);
            let d = skip_digits(s, a + 1);
            lemma_skip_ws_bounds(s, d);
            let e = skip_ws(s, d);
            match op_at(s, e) {
                Some((op, len)) => {
                    lemma_skip_ws_bounds(s, e + len);
                    let f = skip_ws(s, e + len);
                    let g = if f < s.len() && s[f] == '-' {
                        f + 1
                    } else {
                        f
                    };
                    lemma_skip_digits_bounds(s, g);
                    let h = skip_digits(s, g);
                    lemma_skip_ws_bounds(s, h);
                },
                None => {},
            }
        }
    }
}

fn op_at_exec(s: &Vec<char>, e: usize) -> (r: Option<(NumericOperator, usize)>)
    requires
        e <= s@.len(),
    ensures
        r matches Some((op, len)) ==> op_at(s@, e as int) == Some((op, len as int)) && e + len <= s@.len(),
        r is None ==> op_at(s@, e as int) is None,
{
    let n = s.len();
    if e < n && e + 1 < n && s[e] == '>' && s[e + 1] == '=' {
        Some((NumericOperator::Ge, 2))
    } else if e < n && e + 1 < n && s[e] == '<' && s[e + 1] == '=' {
        Some((NumericOperator::Le, 2))
    } else if e < n && s[e] == '=' {
        Some((NumericOperator::Eq, 1))
    } else if e < n && s[e] == '>' {
        Some((NumericOperator::Gt, 1))
    } else if e < n && s[e] == '<' {
        Some((NumericOperator::Lt, 1))
    } else {
        None
    }
}

fn constraint_at_exec(s: &Vec<char>, e: usize) -> (r: Option<(NumericOperator, usize, usize, usize)>)
    requires
        e <= s@.len(),
    ensures
        r matches Some((op, f, h, k)) ==> constraint_at(s@, e as int) == Some((op, f as int, h as int, k as int)),
        r is None ==> constraint_at(s@, e as int) is None,
{
    let n = s.len();
    let r = op_at_exec(s, e);
    match r {
        Some((op, len)) => {
            assert(e + len <= s@.len());
            let f = skip_ws_exec(s, e + len);
            let g = if f < s.len() && s[f] == '-' {
                f + 1
            } else {
                f
            };
            let h = skip_digits_exec(s, g);
            let k = skip_ws_exec(s, h);
            if h > g && k < s.len() && s[k] == '}' {
                Some((op, f, h, k + 1))
            } else {
                None
            }
        },
        None => None,
    }
}

/// Reads the placeholder that starts at position `i`, if one does.
pub fn token_at_exec(s: &Vec<char>, i: usize) -> (r: Option<Token>)
    requires
        i <= s@.len(),
    ensures
        r == token_at(s@, i as int),
{
    let n = s.len();
    if !(i < n && s[i] == '{') {
        return None;
    }
    let a = skip_ws_exec(s, i + 1);
    if a >= n {
        None
    } else if s[a] == 'C' || s[a] == 'c' {
        let b = skip_ws_exec(s, a + 1);
        if b < n && s[b] == '}' {
            Some(Token { start: i, end: b + 1, name_lo: a, name_hi: a + 1, numeric: false, op: None, operand_lo: 0, operand_hi: 0 })
        } else {
            None
        }
    } else if s[a] == 'S' || s[a] == 's' {
        let d = skip_digits_exec(s, a + 1);
        let b = skip_ws_exec(s, d);
        if b < n && s[b] == '}' {
            Some(Token { start: i, end: b + 1, name_lo: a, name_hi: d, numeric: false, op: None, operand_lo: 0, operand_hi: 0 })
        } else {
            None
        }
    } else if s[a] == 'N' || s[a] == 'n' {
        let d = skip_digits_exec(s, a + 1);
        let e = skip_ws_exec(s, d);
        match constraint_at_exec(s, e) {
            Some((op, f, h, end)) => Some(Token { start: i, end, name_lo: a, name_hi: d, numeric: true, op: Some(op), operand_lo: f, operand_hi: h }),
            None => if e < n && s[e] == '}' {
                Some(Token { start: i, end: e + 1, name_lo: a, name_hi: d, numeric: true, op: None, operand_lo: 0, operand_hi: 0 })
            } else {
                None
            },
        }
    } else {
        None
    }
}

/// The placeholders of `s` from position `i` on, in order.
pub open spec fn tokens_from(s: Seq<char>, i: int) -> Seq<Token>
    decreases s.len() - i,
{
    if i < 0 || i >= s.len() {
        Seq::empty()
    } else {
        match token_at(s, i) {
            Some(t) => if i < t.end && t.end <= s.len() {
                seq![t] + tokens_from(s, t.end as int)
            } else {
                Seq::empty()
            },
            None => tokens_from(s, i + 1),
        }
    }
}

pub open spec fn tokens(s: Seq<char>) -> Seq<Token> {
    tokens_from(s, 0)
}

} // verus!
