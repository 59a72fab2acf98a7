//! Repairing character classes of GINA patterns.
//!
//! GINA accepts a `-` inside a character class where other engines see an
//! invalid range, as in `[\w`-']`. A `-` is a literal when it is escaped, first
//! or last in the class, or has a space before it; the regex engine here does
//! not take a `-` with a space after it (and a letter or digit before) as a
//! literal. Such dashes are escaped.
//!
//! A class is a `[`, then the shortest run of at least one character other
//! than `]` that does not end with `\`, then `]`; classes are found scanning
//! from the left. Inside a class whose text is longer than two bytes and does
//! not start or end with `-`, every dash `x-y` (with `x` not `\` and `y` not a
//! newline, found from the left without overlap, and skipping ` -` followed
//! by an ASCII letter or digit) is rewritten as `x\-y`, unless `x-y` is one
//! of the ranges `A-Z`, `a-z`, `0-9` (within those letters or digits).
use vstd::prelude::*;
use crate::text::{is_ascii_upper, is_ascii_lower, is_ascii_digit, is_ascii_alnum, chars_of, string_of, utf8_len, lemma_utf8_len_prefix};

verus! {

/// The first `]` at or after position `i` (or the end of `s`).
pub open spec fn first_close(s: Seq<char>, i: int) -> int
    decreases s.len() - i,
{
    if i < 0 || i >= s.len() {
        s.len() as int
    } else if s[i] == ']' {
        i
    } else {
        first_close(s, i + 1)
    }
}

/// The character class that starts at position `i`: the position of its `]`.
pub open spec fn class_at(s: Seq<char>, i: int) -> Option<int> {
    if 0 <= i < s.len() && s[i] == '[' {
        let j = first_close(s, i + 1);
        if j < s.len() && j >= i + 2 && s[j - 1] != '\\' {
            Some(j)
        } else {
            None
        }
    } else {
        None
    }
}

/// A dash to consider at position `k + 1` of class text `c`.
pub open spec fn dash_at(c: Seq<char>, k: int) -> bool {
    &&& 0 <= k
    &&& k + 3 <= c.len()
    &&& c[k] != '\\'
    &&& c[k + 1] == '-'
    &&& c[k + 2] != '\n'
    &&& !(c[k] == ' ' && is_ascii_alnum(c[k + 2]))
}

pub open spec fn valid_range(x: char, y: char) -> bool {
    (is_ascii_upper(x) && is_ascii_upper(y)) || (is_ascii_lower(x) && is_ascii_lower(y)) || (
    is_ascii_digit(x) && is_ascii_digit(y))
}

pub open spec fn dash_rewrite(x: char, y: char) -> Seq<char> {
    if valid_range(x, y) {
        seq![x, '-', y]
    } else {
        seq![x, '\\', '-', y]
    }
}

pub open spec fn escape_dashes_from(c: Seq<char>, k: int) -> Seq<char>
    decreases c.len() - k,
{
    if k < 0 || k >= c.len() {
        Seq::empty()
    } else if dash_at(c, k) {
        dash_rewrite(c[k], c[k + 2]) + escape_dashes_from(c, k + 3)
    } else {
        seq![c[k]] + escape_dashes_from(c, k + 1)
    }
}

/// The repaired form of the class `s[i..=j]`.
pub open spec fn fixed_class(s: Seq<char>, i: int, j: int) -> Seq<char> {
    let c = s.subrange(i + 1, j);
    if utf8_len(c) <= 2 || c[0] == '-' || c.last() == '-' {
        s.subrange(i, j + 1)
    } else {
        seq!['['] + escape_dashes_from(c, 0) + seq![']']
    }
}

pub open spec fn fix_from(s: Seq<char>, i: int) -> Seq<char>
    decreases s.len() - i,
{
    if i < 0 || i >= s.len() {
        Seq::empty()
    } else {
        match class_at(s, i) {
            Some(j) => if i < j < s.len() {
                fixed_class(s, i, j) + fix_from(s, j + 1)
            } else {
                Seq::empty()
            },
            None => seq![s[i]] + fix_from(s, i + 1),
        }
    }
}

/// Pattern `s` with its character classes repaired.
pub open spec fn fixed_classes(s: Seq<char>) -> Seq<char> {
    fix_from(s, 0)
}

proof fn lemma_first_close(s: Seq<char>, i: int)
    requires
        0 <= i <= s.len(),
    ensures
        i <= first_close(s, i) <= s.len(),
        forall|k: int| i <= k < first_close(s, i) ==> s[k] != ']',
    decreases s.len() - i,
{
    if i < s.len() && s[i] != ']' {
        lemma_first_close(s, i + 1);
    }
}

fn first_close_exec(s: &Vec<char>, i: usize) -> (j: usize)
    requires
        i <= s@.len(),
    ensures
        j == first_close(s@, i as int),
        i <= j <= s@.len(),
{
    let mut j = i;
    while j < s.len() && s[j] != ']'
        invariant
            i <= j <= s@.len(),
            first_close(s@, i as int) == first_close(s@, j as int),
        decreases s@.len() - j,
    {
        j = j + 1;
    }
    j
}

fn class_at_exec(s: &Vec<char>, i: usize) -> (r: Option<usize>)
    requires
        i < s@.len(),
    ensures
        r matches Some(j) ==> class_at(s@, i as int) == Some(j as int),
        r is None ==> class_at(s@, i as int) is None,
{
    let n = s.len();
    if s[i] == '[' {
        let j = first_close_exec(s, i + 1);
        if j < s.len() && j >= i + 2 && s[j - 1] != '\\' {
            Some(j)
        } else {
            None
        }
    } else {
        None
    }
}

/// Whether `s[lo..hi]` takes at most two bytes in UTF-8.
fn at_most_two_bytes(s: &Vec<char>, lo: usize, hi: usize) -> (r: bool)
    requires
        lo <= hi <= s@.len(),
    ensures
        r == (utf8_len(s@.subrange(lo as int, hi as int)) <= 2),
{
    let mut total: usize = 0;
    let mut k = lo;
    while k < hi
        invariant
            lo <= k <= hi <= s@.len(),
            total == utf8_len(s@.subrange(lo as int, k as int)),
            total <= 2,
        decreases hi - k,
    {
        let v = s[k] as u32;
        let w: usize = if v < 0x80 {
            1
        } else if v < 0x800 {
            2
        } else if v < 0x10000 {
            3
        } else {
            4
        };
        assert(s@.subrange(lo as int, k + 1).drop_last() =~= s@.subrange(lo as int, k as int));
        if total + w > 2 {
            proof {
                lemma_utf8_len_prefix(s@.subrange(lo as int, hi as int), k + 1 - lo);
                assert(s@.subrange(lo as int, hi as int).take(k + 1 - lo) =~= s@.subrange(lo as int, k + 1));
            }
            return false;
        }
        total = total + w;
        k = k + 1;
    }
    true
}


fn valid_range_exec(x: char, y: char) -> (r: bool)
    ensures
        r == valid_range(x, y),
{
    (('A' <= x && x <= 'Z') && ('A' <= y && y <= 'Z')) || (('a' <= x && x <= 'z') && ('a' <= y
        && y <= 'z')) || (('0' <= x && x <= '9') && ('0' <= y && y <= '9'))
}

fn is_ascii_alnum_exec(c: char) -> (r: bool)
    ensures
        r == is_ascii_alnum(c),
{
    ('A' <= c && c <= 'Z') || ('a' <= c && c <= 'z') || ('0' <= c && c <= '9')
}

/// Escapes the dashes of class text `s[lo..hi]`, appending to `out`.
fn escape_dashes(s: &Vec<char>, lo: usize, hi: usize, out: &mut Vec<char>)
    requires
        lo <= hi <= s@.len(),
    ensures
        final(out)@ == old(out)@ + escape_dashes_from(s@.subrange(lo as int, hi as int), 0),
{
    let ghost c = s@.subrange(lo as int, hi as int);
    let mut k = lo;
    while k < hi
        invariant
            lo <= k <= hi <= s@.len(),
            c == s@.subrange(lo as int, hi as int),
            old(out)@ + escape_dashes_from(c, 0) == out@ + escape_dashes_from(c, k - lo),
        decreases hi - k,
    {
        let ghost kk = k - lo;
        let is_dash = hi - k >= 3 && s[k] != '\\' && s[k + 1] == '-' && s[k + 2] != '\n' && !(s[k]
            == ' ' && is_ascii_alnum_exec(s[k + 2]));
        assert(is_dash == dash_at(c, kk));
        if is_dash {
            let x = s[k];
            let y = s[k + 2];
            let ghost before = out@;
            if valid_range_exec(x, y) {
                out.push(x);
                out.push('-');
                out.push(y);
            } else {
                out.push(x);
                out.push('\\');
                out.push('-');
                out.push(y);
            }
            assert(out@ =~= before + dash_rewrite(c[kk], c[kk + 2]));
            k = k + 3;
        } else {
            out.push(s[k]);
            k = k + 1;
        }
    }
    assert(escape_dashes_from(c, k - lo) =~= Seq::<char>::empty());
}

/// Escapes the dashes that the regex engine would not read as literals in the
/// character classes of `pattern` (see the module's description).
pub fn fix_possibly_invalid_character_classes(pattern: &str) -> (res: String)
    ensures
        res@ == fixed_classes(pattern@),
{
    let s = chars_of(pattern);
    let n = s.len();
    let mut out: Vec<char> = Vec::new();
    let mut i: usize = 0;
    while i < n
        invariant
            n == s@.len(),
            s@ == pattern@,
            i <= n,
            out@ + fix_from(s@, i as int) == fixed_classes(s@),
        decreases n - i,
    {
        match class_at_exec(&s, i) {
            Some(j) => {
                let ghost before = out@;
                let ghost c = s@.subrange(i + 1, j as int);
                let short = at_most_two_bytes(&s, i + 1, j);
                if short || s[i + 1] == '-' || s[j - 1] == '-' {
                    let mut k = i;
                    while k <= j
                        invariant
                            i <= k <= j + 1,
                            j < s@.len(),
                            n == s@.len(),
                            out@ == before + s@.subrange(i as int, k as int),
                        decreases j + 1 - k,
                    {
                        out.push(s[k]);
                        assert(s@.subrange(i as int, k + 1) =~= s@.subrange(i as int, k as int).push(s@[k as int]));
                        k = k + 1;
                    }
                } else {
                    out.push('[');
                    escape_dashes(&s, i + 1, j, &mut out);
                    out.push(']');
                }
                assert(out@ =~= before + fixed_class(s@, i as int, j as int));
                i = j + 1;
            },
            None => {
                out.push(s[i]);
                i = i + 1;
            },
        }
    }
    assert(out@ + Seq::<char>::empty() =~= out@);
    string_of(&out)
}

} // verus!
