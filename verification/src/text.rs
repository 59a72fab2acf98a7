use vstd::prelude::*;

verus! {

// ---------------------------------------------------------------------------
// Character classes, as the regular-expression syntax of the trigger patterns
// understands them (Unicode mode: `\s`, `\d`, `\w`).
// ---------------------------------------------------------------------------

/// `\s`: the Unicode `White_Space` property.
pub open spec fn is_white_space(c: char) -> bool {
    let v = c as u32;
    ||| 0x9 <= v <= 0xd
    ||| v == 0x20
    ||| v == 0x85
    ||| v == 0xa0
    ||| v == 0x1680
    ||| 0x2000 <= v <= 0x200a
    ||| 0x2028 <= v <= 0x2029
    ||| v == 0x202f
    ||| v == 0x205f
    ||| v == 0x3000
}

pub fn white_space(c: char) -> (b: bool)
    ensures
        b == is_white_space(c),
{
    let v = c as u32;
    (0x9 <= v && v <= 0xd) || v == 0x20 || v == 0x85 || v == 0xa0 || v == 0x1680 || (0x2000 <= v
        && v <= 0x200a) || (0x2028 <= v && v <= 0x2029) || v == 0x202f || v == 0x205f || v
        == 0x3000
}

/// `\d`: the Unicode general category `Decimal_Number` (Unicode 16.0).
pub open spec fn is_decimal_digit(c: char) -> bool {
    let v = c as u32;
    ||| 0x30 <= v <= 0x39
    ||| 0x660 <= v <= 0x669
    ||| 0x6f0 <= v <= 0x6f9
    ||| 0x7c0 <= v <= 0x7c9
    ||| 0x966 <= v <= 0x96f
    ||| 0x9e6 <= v <= 0x9ef
    ||| 0xa66 <= v <= 0xa6f
    ||| 0xae6 <= v <= 0xaef
    ||| 0xb66 <= v <= 0xb6f
    ||| 0xbe6 <= v <= 0xbef
    ||| 0xc66 <= v <= 0xc6f
    ||| 0xce6 <= v <= 0xcef
    ||| 0xd66 <= v <= 0xd6f
    ||| 0xde6 <= v <= 0xdef
    ||| 0xe50 <= v <= 0xe59
    ||| 0xed0 <= v <= 0xed9
    ||| 0xf20 <= v <= 0xf29
    ||| 0x1040 <= v <= 0x1049
    ||| 0x1090 <= v <= 0x1099
    ||| 0x17e0 <= v <= 0x17e9
    ||| 0x1810 <= v <= 0x1819
    ||| 0x1946 <= v <= 0x194f
    ||| 0x19d0 <= v <= 0x19d9
    ||| 0x1a80 <= v <= 0x1a89
    ||| 0x1a90 <= v <= 0x1a99
    ||| 0x1b50 <= v <= 0x1b59
    ||| 0x1bb0 <= v <= 0x1bb9
    ||| 0x1c40 <= v <= 0x1c49
    ||| 0x1c50 <= v <= 0x1c59
    ||| 0xa620 <= v <= 0xa629
    ||| 0xa8d0 <= v <= 0xa8d9
    ||| 0xa900 <= v <= 0xa909
    ||| 0xa9d0 <= v <= 0xa9d9
    ||| 0xa9f0 <= v <= 0xa9f9
    ||| 0xaa50 <= v <= 0xaa59
    ||| 0xabf0 <= v <= 0xabf9
    ||| 0xff10 <= v <= 0xff19
    ||| 0x104a0 <= v <= 0x104a9
    ||| 0x10d30 <= v <= 0x10d39
    ||| 0x10d40 <= v <= 0x10d49
    ||| 0x11066 <= v <= 0x1106f
    ||| 0x110f0 <= v <= 0x110f9
    ||| 0x11136 <= v <= 0x1113f
    ||| 0x111d0 <= v <= 0x111d9
    ||| 0x112f0 <= v <= 0x112f9
    ||| 0x11450 <= v <= 0x11459
    ||| 0x114d0 <= v <= 0x114d9
    ||| 0x11650 <= v <= 0x11659
    ||| 0x116c0 <= v <= 0x116c9
    ||| 0x116d0 <= v <= 0x116e3
    ||| 0x11730 <= v <= 0x11739
    ||| 0x118e0 <= v <= 0x118e9
    ||| 0x11950 <= v <= 0x11959
    ||| 0x11bf0 <= v <= 0x11bf9
    ||| 0x11c50 <= v <= 0x11c59
    ||| 0x11d50 <= v <= 0x11d59
    ||| 0x11da0 <= v <= 0x11da9
    ||| 0x11f50 <= v <= 0x11f59
    ||| 0x16130 <= v <= 0x16139
    ||| 0x16a60 <= v <= 0x16a69
    ||| 0x16ac0 <= v <= 0x16ac9
    ||| 0x16b50 <= v <= 0x16b59
    ||| 0x16d70 <= v <= 0x16d79
    ||| 0x1ccf0 <= v <= 0x1ccf9
    ||| 0x1d7ce <= v <= 0x1d7ff
    ||| 0x1e140 <= v <= 0x1e149
    ||| 0x1e2f0 <= v <= 0x1e2f9
    ||| 0x1e4f0 <= v <= 0x1e4f9
    ||| 0x1e5f1 <= v <= 0x1e5fa
    ||| 0x1e950 <= v <= 0x1e959
    ||| 0x1fbf0 <= v <= 0x1fbf9
}

pub fn decimal_digit(c: char) -> (b: bool)
    ensures
        b == is_decimal_digit(c),
{
    let v = c as u32;
    false
        || (0x30 <= v && v <= 0x39)
        || (0x660 <= v && v <= 0x669)
        || (0x6f0 <= v && v <= 0x6f9)
        || (0x7c0 <= v && v <= 0x7c9)
        || (0x966 <= v && v <= 0x96f)
        || (0x9e6 <= v && v <= 0x9ef)
        || (0xa66 <= v && v <= 0xa6f)
        || (0xae6 <= v && v <= 0xaef)
        || (0xb66 <= v && v <= 0xb6f)
        || (0xbe6 <= v && v <= 0xbef)
        || (0xc66 <= v && v <= 0xc6f)
        || (0xce6 <= v && v <= 0xcef)
        || (0xd66 <= v && v <= 0xd6f)
        || (0xde6 <= v && v <= 0xdef)
        || (0xe50 <= v && v <= 0xe59)
        || (0xed0 <= v && v <= 0xed9)
        || (0xf20 <= v && v <= 0xf29)
        || (0x1040 <= v && v <= 0x1049)
        || (0x1090 <= v && v <= 0x1099)
        || (0x17e0 <= v && v <= 0x17e9)
        || (0x1810 <= v && v <= 0x1819)
        || (0x1946 <= v && v <= 0x194f)
        || (0x19d0 <= v && v <= 0x19d9)
        || (0x1a80 <= v && v <= 0x1a89)
        || (0x1a90 <= v && v <= 0x1a99)
        || (0x1b50 <= v && v <= 0x1b59)
        || (0x1bb0 <= v && v <= 0x1bb9)
        || (0x1c40 <= v && v <= 0x1c49)
        || (0x1c50 <= v && v <= 0x1c59)
        || (0xa620 <= v && v <= 0xa629)
        || (0xa8d0 <= v && v <= 0xa8d9)
        || (0xa900 <= v && v <= 0xa909)
        || (0xa9d0 <= v && v <= 0xa9d9)
        || (0xa9f0 <= v && v <= 0xa9f9)
        || (0xaa50 <= v && v <= 0xaa59)
        || (0xabf0 <= v && v <= 0xabf9)
        || (0xff10 <= v && v <= 0xff19)
        || (0x104a0 <= v && v <= 0x104a9)
        || (0x10d30 <= v && v <= 0x10d39)
        || (0x10d40 <= v && v <= 0x10d49)
        || (0x11066 <= v && v <= 0x1106f)
        || (0x110f0 <= v && v <= 0x110f9)
        || (0x11136 <= v && v <= 0x1113f)
        || (0x111d0 <= v && v <= 0x111d9)
        || (0x112f0 <= v && v <= 0x112f9)
        || (0x11450 <= v && v <= 0x11459)
        || (0x114d0 <= v && v <= 0x114d9)
        || (0x11650 <= v && v <= 0x11659)
        || (0x116c0 <= v && v <= 0x116c9)
        || (0x116d0 <= v && v <= 0x116e3)
        || (0x11730 <= v && v <= 0x11739)
        || (0x118e0 <= v && v <= 0x118e9)
        || (0x11950 <= v && v <= 0x11959)
        || (0x11bf0 <= v && v <= 0x11bf9)
        || (0x11c50 <= v && v <= 0x11c59)
        || (0x11d50 <= v && v <= 0x11d59)
        || (0x11da0 <= v && v <= 0x11da9)
        || (0x11f50 <= v && v <= 0x11f59)
        || (0x16130 <= v && v <= 0x16139)
        || (0x16a60 <= v && v <= 0x16a69)
        || (0x16ac0 <= v && v <= 0x16ac9)
        || (0x16b50 <= v && v <= 0x16b59)
        || (0x16d70 <= v && v <= 0x16d79)
        || (0x1ccf0 <= v && v <= 0x1ccf9)
        || (0x1d7ce <= v && v <= 0x1d7ff)
        || (0x1e140 <= v && v <= 0x1e149)
        || (0x1e2f0 <= v && v <= 0x1e2f9)
        || (0x1e4f0 <= v && v <= 0x1e4f9)
        || (0x1e5f1 <= v && v <= 0x1e5fa)
        || (0x1e950 <= v && v <= 0x1e959)
        || (0x1fbf0 <= v && v <= 0x1fbf9)
}

pub open spec fn is_ascii_digit(c: char) -> bool {
    '0' <= c <= '9'
}

pub open spec fn is_ascii_upper(c: char) -> bool {
    'A' <= c <= 'Z'
}

pub open spec fn is_ascii_lower(c: char) -> bool {
    'a' <= c <= 'z'
}

pub open spec fn is_ascii_letter(c: char) -> bool {
    is_ascii_upper(c) || is_ascii_lower(c)
}

pub open spec fn is_ascii_alnum(c: char) -> bool {
    is_ascii_letter(c) || is_ascii_digit(c)
}

/// `\w`: a Unicode word character, as the regular-expression syntax classifies it.
pub uninterp spec fn is_word_char(c: char) -> bool;

/// Calls `regex_syntax::is_word_character`, the classification that the regex
/// engine uses for `\w`. The contract only names its answer.
#[verifier::external_body]
pub(crate) fn word_char(c: char) -> (b: bool)
    ensures
        b == is_word_char(c),
{
    regex_syntax::is_word_character(c)
}

/// What `str::to_uppercase` returns (Unicode case mapping).
pub uninterp spec fn uppercase(s: Seq<char>) -> Seq<char>;

pub open spec fn is_ascii(c: char) -> bool {
    c <= '\u{7f}'
}

pub open spec fn all_ascii(s: Seq<char>) -> bool {
    forall|i: int| 0 <= i < s.len() ==> is_ascii(#[trigger] s[i])
}

/// The upper case of an ASCII character: `a`-`z` become `A`-`Z`, the rest
/// stay.
pub open spec fn ascii_upper_char(c: char) -> char {
    if is_ascii_lower(c) {
        (c as int - 32) as char
    } else {
        c
    }
}

pub open spec fn ascii_uppercase(s: Seq<char>) -> Seq<char> {
    Seq::new(s.len(), |i: int| ascii_upper_char(s[i]))
}

/// The upper case of `s`: for ASCII text, each letter `a`-`z` becomes
/// `A`-`Z` and every other character stays; for other text, the Unicode
/// case mapping.
pub open spec fn upper_key(s: Seq<char>) -> Seq<char> {
    if all_ascii(s) {
        ascii_uppercase(s)
    } else {
        uppercase(s)
    }
}

/// Writing an ASCII name in upper case does not change its key: the name
/// and its upper-case spelling have one upper case.
pub proof fn lemma_upper_key_ignores_case(a: Seq<char>)
    requires
        all_ascii(a),
    ensures
        upper_key(ascii_uppercase(a)) == upper_key(a),
{
    let u = ascii_uppercase(a);
    assert forall|i: int| 0 <= i < u.len() implies is_ascii(#[trigger] u[i]) by {
        assert(is_ascii(a[i]));
    }
    assert(ascii_uppercase(u) =~= u);
}

/// Calls `str::to_uppercase`, the Unicode case mapping, which on ASCII text
/// maps `a`-`z` to `A`-`Z` one for one and keeps every other character; the
/// result on other text is only named.
#[verifier::external_body]
pub(crate) fn to_uppercase(s: &str) -> (res: String)
    ensures
        all_ascii(s@) ==> res@ == ascii_uppercase(s@),
        !all_ascii(s@) ==> res@ == uppercase(s@),
{
    s.to_uppercase()
}

// ---------------------------------------------------------------------------
// Conversions between strings and character vectors
// ---------------------------------------------------------------------------

pub fn chars_of(s: &str) -> (res: Vec<char>)
    ensures
        res@ == s@,
{
    let mut v: Vec<char> = Vec::new();
    for c in it: s.chars()
        invariant
            v@ == it.seq().take(it.index() as int),
    {
        v.push(c);
    }
    v
}

/// Appends one character: `String::push`.
#[verifier::external_body]
pub(crate) fn string_push(s: &mut String, c: char)
    ensures
        final(s)@ == old(s)@.push(c),
{
    s.push(c);
}

pub fn push_chars(s: &mut String, v: &Vec<char>, lo: usize, hi: usize)
    requires
        lo <= hi <= v@.len(),
    ensures
        final(s)@ == old(s)@ + v@.subrange(lo as int, hi as int),
{
    let mut i = lo;
    while i < hi
        invariant
            lo <= i <= hi <= v@.len(),
            s@ == old(s)@ + v@.subrange(lo as int, i as int),
        decreases hi - i,
    {
        string_push(s, v[i]);
        assert(v@.subrange(lo as int, i + 1) == v@.subrange(lo as int, i as int).push(v@[i as int]));
        i = i + 1;
    }
}

pub fn string_of(v: &Vec<char>) -> (res: String)
    ensures
        res@ == v@,
{
    let mut s = String::new();
    push_chars(&mut s, v, 0, v.len());
    assert(v@.subrange(0, v@.len() as int) == v@);
    s
}

pub fn substring(v: &Vec<char>, lo: usize, hi: usize) -> (res: String)
    requires
        lo <= hi <= v@.len(),
    ensures
        res@ == v@.subrange(lo as int, hi as int),
{
    let mut s = String::new();
    push_chars(&mut s, v, lo, hi);
    s
}

pub fn append_str(s: &mut String, t: &str)
    ensures
        final(s)@ == old(s)@ + t@,
{
    let v = chars_of(t);
    push_chars(s, &v, 0, v.len());
    assert(v@.subrange(0, v@.len() as int) == v@);
}

pub fn str_eq(a: &str, b: &str) -> (r: bool)
    ensures
        r == (a@ == b@),
{
    let x = chars_of(a);
    let y = chars_of(b);
    seq_eq(&x, &y)
}

pub fn seq_eq(x: &Vec<char>, y: &Vec<char>) -> (r: bool)
    ensures
        r == (x@ == y@),
{
    if x.len() != y.len() {
        return false;
    }
    let mut i: usize = 0;
    while i < x.len()
        invariant
            x@.len() == y@.len(),
            i <= x@.len(),
            forall|j: int| 0 <= j < i ==> x@[j] == y@[j],
        decreases x@.len() - i,
    {
        if x[i] != y[i] {
            return false;
        }
        i = i + 1;
    }
    assert(x@ =~= y@);
    true
}

/// Whether `pat` occurs in `s` at position `i`.
pub open spec fn occurs_at(s: Seq<char>, i: int, pat: Seq<char>) -> bool {
    0 <= i && i + pat.len() <= s.len() && s.subrange(i, i + pat.len()) == pat
}

pub fn starts_with_at(s: &Vec<char>, i: usize, pat: &Vec<char>) -> (r: bool)
    ensures
        r == occurs_at(s@, i as int, pat@),
{
    if i > s.len() || pat.len() > s.len() - i {
        return false;
    }
    let n = s.len();
    let mut k: usize = 0;
    while k < pat.len()
        invariant
            n == s@.len(),
            i + pat@.len() <= s@.len(),
            k <= pat@.len(),
            forall|j: int| 0 <= j < k ==> s@[i + j] == pat@[j],
        decreases pat@.len() - k,
    {
        if s[i + k] != pat[k] {
            return false;
        }
        k = k + 1;
    }
    assert(s@.subrange(i as int, i + pat@.len()) =~= pat@);
    true
}

/// `s.contains(pat)`
pub open spec fn contains_seq(s: Seq<char>, pat: Seq<char>) -> bool {
    exists|i: int| occurs_at(s, i, pat)
}

pub fn contains_str(s: &str, pat: &str) -> (r: bool)
    ensures
        r == contains_seq(s@, pat@),
{
    let x = chars_of(s);
    let p = chars_of(pat);
    let n = x.len();
    let plen = p.len();
    if plen == 0 {
        assert(occurs_at(x@, 0, p@)) by {
            assert(x@.subrange(0, 0) =~= p@);
        }
        assert(occurs_at(s@, 0, pat@));
        return true;
    }
    if plen > n {
        return false;
    }
    let mut i: usize = 0;
    while i < n - plen + 1
        invariant
            n == x@.len(),
            x@ == s@,
            p@ == pat@,
            plen == p@.len(),
            1 <= plen <= n,
            i <= n - plen + 1,
            forall|j: int| 0 <= j < i ==> !occurs_at(x@, j, p@),
        decreases n - plen + 1 - i,
    {
        if starts_with_at(&x, i, &p) {
            assert(x@ == s@ && p@ == pat@);
            assert(occurs_at(s@, i as int, pat@));
            return true;
        }
        i = i + 1;
    }
    false
}

pub fn extend_chars(out: &mut Vec<char>, v: &Vec<char>)
    ensures
        final(out)@ == old(out)@ + v@,
{
    let mut k: usize = 0;
    while k < v.len()
        invariant
            k <= v@.len(),
            out@ == old(out)@ + v@.take(k as int),
        decreases v@.len() - k,
    {
        out.push(v[k]);
        assert(v@.take(k + 1) == v@.take(k as int).push(v@[k as int]));
        k = k + 1;
    }
    assert(v@.take(v@.len() as int) == v@);
}

/// What `str::replace` returns: every non-overlapping occurrence of `pat`,
/// scanning from the left, replaced with `rep`.
pub open spec fn replace_spec(s: Seq<char>, pat: Seq<char>, rep: Seq<char>) -> Seq<char>
    recommends
        pat.len() > 0,
    decreases s.len(),
{
    if s.len() == 0 || pat.len() == 0 {
        s
    } else if occurs_at(s, 0, pat) {
        rep + replace_spec(s.skip(pat.len() as int), pat, rep)
    } else {
        seq![s[0]] + replace_spec(s.skip(1), pat, rep)
    }
}

pub fn replace_all(s: &Vec<char>, pat: &Vec<char>, rep: &Vec<char>) -> (res: Vec<char>)
    requires
        pat@.len() > 0,
    ensures
        res@ == replace_spec(s@, pat@, rep@),
{
    let mut out: Vec<char> = Vec::new();
    let mut i: usize = 0;
    assert(s@.skip(0) =~= s@);
    while i < s.len()
        invariant
            pat@.len() > 0,
            i <= s@.len(),
            out@ + replace_spec(s@.skip(i as int), pat@, rep@) == replace_spec(s@, pat@, rep@),
        decreases s@.len() - i,
    {
        let ghost rest = s@.skip(i as int);
        if starts_with_at(s, i, pat) {
            assert(occurs_at(rest, 0, pat@)) by {
                assert(rest.subrange(0, pat@.len() as int) =~= s@.subrange(i as int, i + pat@.len()));
            }
            assert(rest.skip(pat@.len() as int) =~= s@.skip(i + pat@.len()));
            extend_chars(&mut out, rep);
            i = i + pat.len();
        } else {
            assert(!occurs_at(rest, 0, pat@)) by {
                if occurs_at(rest, 0, pat@) {
                    assert(rest.subrange(0, pat@.len() as int) =~= s@.subrange(i as int, i + pat@.len()));
                }
            }
            assert(rest.skip(1) =~= s@.skip(i + 1));
            out.push(s[i]);
            i = i + 1;
        }
    }
    out
}

} // verus!

verus! {

// ---------------------------------------------------------------------------
// Decimal numbers, as `str::parse` reads them for the integer types
// ---------------------------------------------------------------------------

pub open spec fn digit_value(c: char) -> int {
    (c as u32) - ('0' as u32)
}

pub open spec fn digits_value(s: Seq<char>) -> int
    decreases s.len(),
{
    if s.len() == 0 {
        0
    } else {
        digits_value(s.drop_last()) * 10 + digit_value(s.last())
    }
}

pub open spec fn all_ascii_digits(s: Seq<char>) -> bool {
    forall|i: int| 0 <= i < s.len() ==> is_ascii_digit(#[trigger] s[i])
}

/// An unsigned integer as `str::parse` reads it: an optional `+`, then one or
/// more ASCII digits. The value is unbounded here; each width bounds it.
pub open spec fn unsigned_value(s: Seq<char>) -> Option<int> {
    let body = if s.len() > 0 && s[0] == '+' {
        s.skip(1)
    } else {
        s
    };
    if body.len() > 0 && all_ascii_digits(body) {
        Some(digits_value(body))
    } else {
        None
    }
}

/// A signed integer as `str::parse` reads it: an optional `+` or `-`, then one
/// or more ASCII digits.
pub open spec fn signed_value(s: Seq<char>) -> Option<int> {
    if s.len() > 0 && s[0] == '-' {
        let body = s.skip(1);
        if body.len() > 0 && all_ascii_digits(body) {
            Some(-digits_value(body))
        } else {
            None
        }
    } else {
        unsigned_value(s)
    }
}

/// The value that parsing `s` gives within `[lo, hi]`, or `None`.
pub open spec fn bounded(v: Option<int>, lo: int, hi: int) -> Option<int> {
    match v {
        Some(x) => if lo <= x <= hi {
            Some(x)
        } else {
            None
        },
        None => None,
    }
}

pub proof fn lemma_digits_value_nonneg(s: Seq<char>)
    requires
        all_ascii_digits(s),
    ensures
        digits_value(s) >= 0,
    decreases s.len(),
{
    if s.len() > 0 {
        assert(all_ascii_digits(s.drop_last()));
        lemma_digits_value_nonneg(s.drop_last());
        assert(is_ascii_digit(s[s.len() - 1]));
    }
}

pub proof fn lemma_digits_value_prefix(s: Seq<char>, k: int)
    requires
        all_ascii_digits(s),
        0 <= k <= s.len(),
    ensures
        digits_value(s.take(k)) <= digits_value(s),
    decreases s.len(),
{
    if k < s.len() {
        let t = s.drop_last();
        assert(all_ascii_digits(t));
        lemma_digits_value_prefix(t, k);
        assert(t.take(k) =~= s.take(k));
        lemma_digits_value_nonneg(t);
        assert(is_ascii_digit(s[s.len() - 1]));
    } else {
        assert(s.take(k) =~= s);
    }
}

/// Reads `s[lo..hi]` as ASCII digits into a `u64`.
fn digits_u64(s: &Vec<char>, lo: usize, hi: usize) -> (r: Option<u64>)
    requires
        lo <= hi <= s@.len(),
    ensures
        r == (if hi > lo && all_ascii_digits(s@.subrange(lo as int, hi as int)) && digits_value(
            s@.subrange(lo as int, hi as int),
        ) <= u64::MAX {
            Some(digits_value(s@.subrange(lo as int, hi as int)) as u64)
        } else {
            None::<u64>
        }),
{
    let ghost sub = s@.subrange(lo as int, hi as int);
    if hi == lo {
        return None;
    }
    let mut acc: u64 = 0;
    let mut i = lo;
    while i < hi
        invariant
            lo <= i <= hi <= s@.len(),
            sub == s@.subrange(lo as int, hi as int),
            all_ascii_digits(s@.subrange(lo as int, i as int)),
            acc == digits_value(s@.subrange(lo as int, i as int)),
        decreases hi - i,
    {
        let c = s[i];
        assert(s@.subrange(lo as int, i + 1).drop_last() =~= s@.subrange(lo as int, i as int));
        if !('0' <= c && c <= '9') {
            assert(!is_ascii_digit(sub[i - lo]));
            return None;
        }
        let d = (c as u32 - '0' as u32) as u64;
        let over = match acc.checked_mul(10) {
            Some(m) => match m.checked_add(d) {
                Some(v) => {
                    acc = v;
                    false
                },
                None => true,
            },
            None => true,
        };
        if over {
            proof {
                assert(digits_value(s@.subrange(lo as int, i + 1)) > u64::MAX);
                if all_ascii_digits(sub) {
                    assert(sub.take(i + 1 - lo) =~= s@.subrange(lo as int, i + 1));
                    lemma_digits_value_prefix(sub, i + 1 - lo);
                }
            }
            return None;
        }
        assert(all_ascii_digits(s@.subrange(lo as int, i + 1)));
        i = i + 1;
    }
    Some(acc)
}

/// `str::parse::<u64>` on `s[lo..hi]`.
pub fn parse_u64(s: &Vec<char>, lo: usize, hi: usize) -> (r: Option<u64>)
    requires
        lo <= hi <= s@.len(),
    ensures
        r matches Some(v) ==> bounded(unsigned_value(s@.subrange(lo as int, hi as int)), 0, u64::MAX as int) == Some(v as int),
        r is None ==> bounded(unsigned_value(s@.subrange(lo as int, hi as int)), 0, u64::MAX as int) is None,
{
    let ghost sub = s@.subrange(lo as int, hi as int);
    if lo < hi && s[lo] == '+' {
        assert(sub[0] == '+');
        assert(sub.skip(1) =~= s@.subrange(lo + 1, hi as int));
        proof {
            if all_ascii_digits(sub.skip(1)) {
                lemma_digits_value_nonneg(sub.skip(1));
            }
        }
        digits_u64(s, lo + 1, hi)
    } else {
        proof {
            if all_ascii_digits(sub) {
                lemma_digits_value_nonneg(sub);
            }
        }
        digits_u64(s, lo, hi)
    }
}

/// `str::parse::<usize>` on `s[lo..hi]`.
pub fn parse_usize(s: &Vec<char>, lo: usize, hi: usize) -> (r: Option<usize>)
    requires
        lo <= hi <= s@.len(),
    ensures
        r matches Some(v) ==> bounded(unsigned_value(s@.subrange(lo as int, hi as int)), 0, usize::MAX as int) == Some(v as int),
        r is None ==> bounded(unsigned_value(s@.subrange(lo as int, hi as int)), 0, usize::MAX as int) is None,
{
    match parse_u64(s, lo, hi) {
        Some(v) => if v <= usize::MAX as u64 {
            Some(v as usize)
        } else {
            None
        },
        None => None,
    }
}

/// `str::parse::<u32>` on `s[lo..hi]`.
pub fn parse_u32(s: &Vec<char>, lo: usize, hi: usize) -> (r: Option<u32>)
    requires
        lo <= hi <= s@.len(),
    ensures
        r matches Some(v) ==> bounded(unsigned_value(s@.subrange(lo as int, hi as int)), 0, u32::MAX as int) == Some(v as int),
        r is None ==> bounded(unsigned_value(s@.subrange(lo as int, hi as int)), 0, u32::MAX as int) is None,
{
    match parse_u64(s, lo, hi) {
        Some(v) => if v <= u32::MAX as u64 {
            Some(v as u32)
        } else {
            None
        },
        None => None,
    }
}

/// `str::parse::<i64>` on `s[lo..hi]`.
pub fn parse_i64(s: &Vec<char>, lo: usize, hi: usize) -> (r: Option<i64>)
    requires
        lo <= hi <= s@.len(),
    ensures
        r matches Some(v) ==> bounded(signed_value(s@.subrange(lo as int, hi as int)), i64::MIN as int, i64::MAX as int) == Some(v as int),
        r is None ==> bounded(signed_value(s@.subrange(lo as int, hi as int)), i64::MIN as int, i64::MAX as int) is None,
{
    let ghost sub = s@.subrange(lo as int, hi as int);
    proof {
        if sub.len() > 0 && all_ascii_digits(sub.skip(1)) {
            lemma_digits_value_nonneg(sub.skip(1));
        }
        if all_ascii_digits(sub) {
            lemma_digits_value_nonneg(sub);
        }
    }
    if lo < hi && s[lo] == '-' {
        assert(sub[0] == '-');
        assert(sub.skip(1) =~= s@.subrange(lo + 1, hi as int));
        match digits_u64(s, lo + 1, hi) {
            Some(v) => if v <= 9223372036854775808u64 {
                if v == 9223372036854775808u64 {
                    Some(i64::MIN)
                } else {
                    Some(-(v as i64))
                }
            } else {
                None
            },
            None => {
                proof {
                    if all_ascii_digits(sub.skip(1)) && sub.skip(1).len() > 0 {
                        lemma_digits_value_nonneg(sub.skip(1));
                    }
                }
                None
            },
        }
    } else {
        assert(sub.len() == 0 || sub[0] != '-');
        match parse_u64(s, lo, hi) {
            Some(v) => if v <= i64::MAX as u64 {
                Some(v as i64)
            } else {
                None
            },
            None => None,
        }
    }
}

} // verus!

verus! {

// ---------------------------------------------------------------------------
// Copies of string collections
// ---------------------------------------------------------------------------

pub fn clone_opt_strings(v: &Vec<Option<String>>) -> (res: Vec<Option<String>>)
    ensures
        res@ == v@,
{
    let mut res: Vec<Option<String>> = Vec::new();
    let mut i: usize = 0;
    while i < v.len()
        invariant
            i <= v@.len(),
            res@ == v@.take(i as int),
        decreases v@.len() - i,
    {
        let o = match &v[i] {
            Some(s) => Some(s.clone()),
            None => None,
        };
        res.push(o);
        assert(v@.take(i + 1) == v@.take(i as int).push(v@[i as int]));
        i = i + 1;
    }
    assert(v@.take(i as int) == v@);
    res
}

pub fn clone_pairs(v: &Vec<(String, String)>) -> (res: Vec<(String, String)>)
    ensures
        res@ == v@,
{
    let mut res: Vec<(String, String)> = Vec::new();
    let mut i: usize = 0;
    while i < v.len()
        invariant
            i <= v@.len(),
            res@ == v@.take(i as int),
        decreases v@.len() - i,
    {
        let p = (v[i].0.clone(), v[i].1.clone());
        res.push(p);
        assert(v@.take(i + 1) == v@.take(i as int).push(v@[i as int]));
        i = i + 1;
    }
    assert(v@.take(i as int) == v@);
    res
}

pub fn clone_strings(v: &Vec<String>) -> (res: Vec<String>)
    ensures
        res@ == v@,
{
    let mut res: Vec<String> = Vec::new();
    let mut i: usize = 0;
    while i < v.len()
        invariant
            i <= v@.len(),
            res@ == v@.take(i as int),
        decreases v@.len() - i,
    {
        res.push(v[i].clone());
        assert(v@.take(i + 1) == v@.take(i as int).push(v@[i as int]));
        i = i + 1;
    }
    assert(v@.take(i as int) == v@);
    res
}

// ---------------------------------------------------------------------------
// Byte lengths
// ---------------------------------------------------------------------------

/// How many bytes UTF-8 takes for `c`.
pub open spec fn char_utf8_len(c: char) -> nat {
    let v = c as u32;
    if v < 0x80 {
        1
    } else if v < 0x800 {
        2
    } else if v < 0x10000 {
        3
    } else {
        4
    }
}

/// The length in bytes of the UTF-8 encoding of `s`.
pub open spec fn utf8_len(s: Seq<char>) -> nat
    decreases s.len(),
{
    if s.len() == 0 {
        0
    } else {
        utf8_len(s.drop_last()) + char_utf8_len(s.last())
    }
}

/// A prefix takes no more bytes than the whole.
pub proof fn lemma_utf8_len_prefix(s: Seq<char>, k: int)
    requires
        0 <= k <= s.len(),
    ensures
        utf8_len(s.take(k)) <= utf8_len(s),
    decreases s.len(),
{
    if k < s.len() {
        lemma_utf8_len_prefix(s.drop_last(), k);
        assert(s.drop_last().take(k) =~= s.take(k));
    } else {
        assert(s.take(k) =~= s);
    }
}

/// The number of bytes of `s` in UTF-8, or `None` past `u64::MAX`.
pub fn utf8_len_exec(s: &Vec<char>) -> (r: Option<u64>)
    ensures
        r matches Some(n) ==> n == utf8_len(s@),
        r is None ==> utf8_len(s@) > u64::MAX,
{
    let mut n: u64 = 0;
    let mut i: usize = 0;
    while i < s.len()
        invariant
            i <= s@.len(),
            n == utf8_len(s@.take(i as int)),
        decreases s@.len() - i,
    {
        assert(s@.take(i + 1).drop_last() == s@.take(i as int));
        let c = s[i] as u32;
        let w: u64 = if c < 0x80 { 1 } else if c < 0x800 { 2 } else if c < 0x10000 { 3 } else { 4 };
        assert(w == char_utf8_len(s@[i as int]));
        if n > u64::MAX - w {
            proof {
                lemma_utf8_len_prefix(s@, i + 1);
            }
            return None;
        }
        n = n + w;
        i = i + 1;
    }
    assert(s@.take(s@.len() as int) == s@);
    Some(n)
}

} // verus!
