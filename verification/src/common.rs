use vstd::prelude::*;
use vstd::std_specs::cmp::PartialEqSpecImpl;
use crate::text::{string_push, chars_of, parse_usize, bounded, unsigned_value};
use crate::logs::{first_of, first_of_exec};

verus! {

// ---------------------------------------------------------------------------
// Identifiers
// ---------------------------------------------------------------------------

/// A textual identifier (a UUID in its 36-character hyphenated form when the
/// library makes one).
#[derive(Debug, Hash)]
pub struct UUID(pub String);

impl View for UUID {
    type V = Seq<char>;

    open spec fn view(&self) -> Seq<char> {
        self.0@
    }
}

/// The length of a hyphenated UUID, as `UUID::new` makes them.
pub const UUID_LEN: usize = 36;

pub open spec fn is_lower_hex(c: char) -> bool {
    ('0' <= c <= '9') || ('a' <= c <= 'f')
}

/// Character `c` at position `i` of a hyphenated UUID: a hyphen at 8, 13,
/// 18 and 23, a lower-case hexadecimal digit elsewhere.
pub open spec fn uuid_char_at(i: int, c: char) -> bool {
    if i == 8 || i == 13 || i == 18 || i == 23 {
        c == '-'
    } else {
        is_lower_hex(c)
    }
}

/// The hyphenated text of a random (version 4, RFC variant) UUID: groups of
/// 8, 4, 4, 4 and 12 lower-case hexadecimal digits, with version digit `4`
/// and a variant digit among `8`, `9`, `a`, `b`.
pub open spec fn is_v4_uuid_text(s: Seq<char>) -> bool {
    &&& s.len() == UUID_LEN
    &&& forall|i: int| 0 <= i < s.len() ==> #[trigger] uuid_char_at(i, s[i])
    &&& s[14] == '4'
    &&& (s[19] == '8' || s[19] == '9' || s[19] == 'a' || s[19] == 'b')
}

/// Calls `uuid::Uuid::new_v4` and formats the result with `to_string`: a
/// random version-4 UUID (version and RFC variant bits set) in its
/// hyphenated lower-case form. Nothing is promised of which UUID comes back.
#[verifier::external_body]
fn new_v4_string() -> (s: String)
    ensures
        is_v4_uuid_text(s@),
{
    uuid::Uuid::new_v4().to_string()
}

impl UUID {
    pub fn new() -> (res: UUID)
        ensures
            res@.len() == UUID_LEN,
            is_v4_uuid_text(res@),
    {
        UUID(new_v4_string())
    }

    /// Takes a string as an identifier as it stands.
    pub fn from_str_unchecked(s: &str) -> (res: UUID)
        ensures
            res@ == s@,
    {
        UUID(crate::text::string_of(&crate::text::chars_of(s)))
    }

    pub fn as_str(&self) -> (res: &str)
        ensures
            res@ == self@,
    {
        self.0.as_str()
    }

    pub fn same(&self, other: &UUID) -> (res: bool)
        ensures
            res == (self@ == other@),
    {
        self.0 == other.0
    }
}

impl Clone for UUID {
    fn clone(&self) -> (res: Self)
        ensures
            res == *self,
    {
        UUID(self.0.clone())
    }
}

impl PartialEq for UUID {
    fn eq(&self, other: &Self) -> (res: bool) {
        self.0 == other.0
    }
}

impl PartialEqSpecImpl for UUID {
    open spec fn obeys_eq_spec() -> bool {
        true
    }

    open spec fn eq_spec(&self, other: &Self) -> bool {
        self.0@ == other.0@
    }
}

impl Eq for UUID {
}

// ---------------------------------------------------------------------------
// Random identifiers
// ---------------------------------------------------------------------------

/// Calls `rand::Rng::gen_range(0..n)` on the thread-local generator: some index
/// below `n`, chosen at random.
#[verifier::external_body]
fn random_index(n: usize) -> (r: usize)
    requires
        n > 0,
    ensures
        r < n,
{
    rand::Rng::gen_range(&mut rand::thread_rng(), 0..n)
}

pub open spec fn is_random_id_char(c: char) -> bool {
    ('A' <= c <= 'Z') || ('0' <= c <= '9')
}

/// The characters that random identifiers are made of: `A-Z0-9`.
pub fn random_id_charset() -> (res: Vec<char>)
    ensures
        res@.len() == 36,
        forall|i: int| 0 <= i < 36 ==> is_random_id_char(#[trigger] res@[i]),
{
    let v: Vec<char> = vec!['A', 'B', 'C', 'D', 'E', 'F', 'G', 'H', 'I', 'J', 'K', 'L', 'M', 'N', 'O', 'P', 'Q', 'R', 'S', 'T', 'U', 'V', 'W', 'X', 'Y', 'Z', '0', '1', '2', '3', '4', '5', '6', '7', '8', '9'];
    assert(forall|i: int| 0 <= i < 36 ==> is_random_id_char(#[trigger] v@[i]));
    v
}

/// A random string of `length` characters drawn from `A-Z0-9`.
pub fn random_id(length: u8) -> (res: String)
    ensures
        res@.len() == length,
        forall|i: int| 0 <= i < res@.len() ==> is_random_id_char(#[trigger] res@[i]),
{
    let charset = random_id_charset();
    let mut s = String::new();
    let mut k: u8 = 0;
    while k < length
        invariant
            charset@.len() == 36,
            forall|i: int| 0 <= i < 36 ==> is_random_id_char(#[trigger] charset@[i]),
            k <= length,
            s@.len() == k,
            forall|i: int| 0 <= i < s@.len() ==> is_random_id_char(#[trigger] s@[i]),
        decreases length - k,
    {
        let idx = random_index(charset.len());
        string_push(&mut s, charset[idx]);
        k = k + 1;
    }
    s
}

/// `if condition { if_true } else { if_false }` as a function.
pub fn ternary<T>(condition: bool, if_true: T, if_false: T) -> (res: T)
    ensures
        res == (if condition {
            if_true
        } else {
            if_false
        }),
{
    if condition {
        if_true
    } else {
        if_false
    }
}

/// (major, minor, tiny)
#[derive(Debug, Clone, Copy, PartialEq, Eq, Structural)]
pub struct LogQuestVersion(pub usize, pub usize, pub usize);

/// The version that `s` writes as `major.minor.tiny`: three numbers, each
/// read as a `usize`, between exactly two dots.
pub open spec fn version_of(s: Seq<char>) -> Option<(usize, usize, usize)> {
    let d1 = first_of(s, '.', 0);
    let d2 = first_of(s, '.', d1 + 1);
    if d1 < s.len() && d2 < s.len() && first_of(s, '.', d2 + 1) == s.len() {
        match (
            bounded(unsigned_value(s.subrange(0, d1)), 0, usize::MAX as int),
            bounded(unsigned_value(s.subrange(d1 + 1, d2)), 0, usize::MAX as int),
            bounded(unsigned_value(s.subrange(d2 + 1, s.len() as int)), 0, usize::MAX as int),
        ) {
            (Some(a), Some(b), Some(c)) => Some((a as usize, b as usize, c as usize)),
            _ => None,
        }
    } else {
        None
    }
}

impl LogQuestVersion {
    /// Reads a version written `major.minor.tiny`; `None` when `s` is not
    /// one (see `version_of`).
    pub fn parse(s: &str) -> (res: Option<LogQuestVersion>)
        ensures
            match version_of(s@) {
                Some((a, b, c)) => res == Some(LogQuestVersion(a, b, c)),
                None => res is None,
            },
    {
        let v = chars_of(s);
        let d1 = first_of_exec(&v, '.', 0);
        if d1 >= v.len() {
            return None;
        }
        let d2 = first_of_exec(&v, '.', d1 + 1);
        if d2 >= v.len() {
            return None;
        }
        let d3 = first_of_exec(&v, '.', d2 + 1);
        if d3 < v.len() {
            return None;
        }
        let a = parse_usize(&v, 0, d1);
        let b = parse_usize(&v, d1 + 1, d2);
        let c = parse_usize(&v, d2 + 1, v.len());
        match (a, b, c) {
            (Some(a), Some(b), Some(c)) => Some(LogQuestVersion(a, b, c)),
            _ => None,
        }
    }
}

// ---------------------------------------------------------------------------
// Durations and timestamps
// ---------------------------------------------------------------------------

/// A number of milliseconds. Backed by a `u32`, so the longest duration is
/// about 49.71 days.
#[derive(Debug, Clone, Copy, PartialEq, Eq, Structural)]
pub struct Duration(pub u32);

impl Duration {
    pub fn from_millis(millis: u32) -> (res: Duration)
        ensures
            res.0 == millis,
    {
        Duration(millis)
    }

    pub fn from_secs(secs: u32) -> (res: Duration)
        requires
            secs * 1000 <= u32::MAX,
        ensures
            res.0 == secs * 1000,
    {
        Duration(secs * 1000)
    }
}

/// The earliest instant that a timestamp can hold, in milliseconds since the
/// Unix epoch (the first millisecond of the year -262143).
pub const MIN_TIMESTAMP_MILLIS: i64 = -8334601315200000;

/// The latest instant that a timestamp can hold, in milliseconds since the
/// Unix epoch (the last millisecond of the year 262142).
pub const MAX_TIMESTAMP_MILLIS: i64 = 8210266876799999;

/// An instant in UTC, as milliseconds since the Unix epoch.
#[derive(Debug, Clone, Copy, PartialEq, Eq, Structural)]
pub struct Timestamp(pub i64);

/// Calls `chrono::Utc::now` and reads it as milliseconds since the epoch
/// (`timestamp_millis`). The clock decides the value; `Utc::now` panics on a
/// clock before the epoch and on one past the last instant a `DateTime`
/// holds, so what comes back lies between the two.
#[verifier::external_body]
fn now_millis() -> (ms: i64)
    ensures
        0 <= ms <= MAX_TIMESTAMP_MILLIS,
{
    chrono::Utc::now().timestamp_millis()
}

/// What `chrono::NaiveDateTime::parse_from_str(s, "%Y-%m-%dT%H:%M:%S")` reads
/// `s` as, in milliseconds since the epoch (taking the time as UTC), or `None`.
pub uninterp spec fn gina_datetime_millis(s: Seq<char>) -> Option<i64>;

/// Calls `chrono::NaiveDateTime::parse_from_str` with the GINA timestamp format
/// (example: "2024-04-10T22:48:35") and reads the result as UTC milliseconds.
#[verifier::external_body]
pub(crate) fn parse_gina_datetime_millis(s: &str) -> (res: Option<i64>)
    ensures
        res == gina_datetime_millis(s@),
{
    chrono::NaiveDateTime::parse_from_str(s, "%Y-%m-%dT%H:%M:%S").ok().map(
        |d| d.and_utc().timestamp_millis(),
    )
}

impl Timestamp {
    /// The current time; the clock decides which, between the epoch and the
    /// last instant a timestamp holds.
    pub fn now() -> (res: Timestamp)
        ensures
            0 <= res.0 <= MAX_TIMESTAMP_MILLIS,
    {
        Timestamp(now_millis())
    }

    /// The time from `self` until `future_timestamp`, in milliseconds; zero
    /// when that instant is not after `self`.
    pub fn duration_until(&self, future_timestamp: &Timestamp) -> (res: u64)
        ensures
            res == (if future_timestamp.0 > self.0 {
                future_timestamp.0 - self.0
            } else {
                0
            }),
    {
        if future_timestamp.0 > self.0 {
            (future_timestamp.0 as i128 - self.0 as i128) as u64
        } else {
            0
        }
    }

    /// `self + duration`
    pub fn add(&self, duration: &Duration) -> (res: Timestamp)
        requires
            self.0 + duration.0 <= MAX_TIMESTAMP_MILLIS,
        ensures
            res.0 == self.0 + duration.0,
    {
        Timestamp(self.0 + duration.0 as i64)
    }
}

} // verus!
