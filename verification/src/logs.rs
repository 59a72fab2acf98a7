//! EverQuest log files: their names, their lines, and where reading them
//! left off.
use vstd::prelude::*;
use crate::keyed::{Keyed, keyed_map, keys_unique, find_keyed, upsert, remove_keyed, lemma_keyed_lookup};
use crate::text::{chars_of, string_of, substring, replace_all, replace_spec, str_eq, utf8_len, utf8_len_exec};

verus! {

// ---------------------------------------------------------------------------
// Log file names
// ---------------------------------------------------------------------------

pub open spec fn is_separator(c: char) -> bool {
    c == '/' || c == '\\'
}

pub open spec fn occurs(s: Seq<char>, i: int, pat: Seq<char>) -> bool {
    0 <= i && i + pat.len() <= s.len() && s.subrange(i, i + pat.len()) == pat
}

/// The first position at or after `i` that holds `c` (or the end).
pub open spec fn first_of(s: Seq<char>, c: char, i: int) -> int
    decreases s.len() - i,
{
    if i < 0 || i >= s.len() {
        s.len() as int
    } else if s[i] == c {
        i
    } else {
        first_of(s, c, i + 1)
    }
}

/// A log file name that starts at position `q`:
/// `eqlog_<character>_<server>.txt` reaching the end of `s`, where the
/// character has no `_` and the server no `.`. Gives the bounds of the two.
pub open spec fn eqlog_at(s: Seq<char>, q: int) -> Option<(int, int, int, int)> {
    if occurs(s, q, "eqlog_"@) {
        let nl = q + 6;
        let nh = first_of(s, '_', nl);
        let sl = nh + 1;
        let sh = s.len() - 4;
        if nh > nl && nh < s.len() && sl < sh && occurs(s, sh, ".txt"@) && first_of(s, '.', sl) == sh {
            Some((nl, nh, sl, sh))
        } else {
            None
        }
    } else {
        None
    }
}

/// The log file name in `s` that the pattern
/// `(?:\A|[\\/])eqlog_([^_]+)_([^.]+)\.txt$` finds: the leftmost one that
/// starts at the beginning or right after a `/` or `\`, from position `p` on.
pub open spec fn log_name_from(s: Seq<char>, p: int) -> Option<(int, int, int, int)>
    decreases s.len() - p,
{
    if p < 0 || p >= s.len() {
        None
    } else if p == 0 && eqlog_at(s, 0) is Some {
        eqlog_at(s, 0)
    } else if is_separator(s[p]) && eqlog_at(s, p + 1) is Some {
        eqlog_at(s, p + 1)
    } else {
        log_name_from(s, p + 1)
    }
}

pub open spec fn log_file_name(s: Seq<char>) -> Option<(int, int, int, int)> {
    log_name_from(s, 0)
}

fn occurs_exec(s: &Vec<char>, i: usize, pat: &str) -> (r: bool)
    ensures
        r == occurs(s@, i as int, pat@),
{
    let p = chars_of(pat);
    let n = s.len();
    if p.len() > n || i > n - p.len() {
        return false;
    }
    let mut k: usize = 0;
    while k < p.len()
        invariant
            p@ == pat@,
            n == s@.len(),
            i + p@.len() <= n,
            k <= p@.len(),
            forall|j: int| 0 <= j < k ==> s@[i + j] == p@[j],
        decreases p@.len() - k,
    {
        if s[i + k] != p[k] {
            assert(s@.subrange(i as int, i + p@.len())[k as int] != p@[k as int]);
            return false;
        }
        k = k + 1;
    }
    assert(s@.subrange(i as int, i + p@.len()) =~= p@);
    true
}

pub(crate) fn first_of_exec(s: &Vec<char>, c: char, i: usize) -> (j: usize)
    requires
        i <= s@.len(),
    ensures
        j == first_of(s@, c, i as int),
        i <= j <= s@.len(),
{
    let mut j = i;
    while j < s.len() && s[j] != c
        invariant
            i <= j <= s@.len(),
            first_of(s@, c, i as int) == first_of(s@, c, j as int),
        decreases s@.len() - j,
    {
        j = j + 1;
    }
    j
}

fn eqlog_at_exec(s: &Vec<char>, q: usize) -> (r: Option<(usize, usize, usize, usize)>)
    requires
        q <= s@.len(),
    ensures
        r matches Some((a, b, c, d)) ==> eqlog_at(s@, q as int) == Some((a as int, b as int, c as int, d as int)),
        r is None ==> eqlog_at(s@, q as int) is None,
{
    if !occurs_exec(s, q, "eqlog_") {
        return None;
    }
    proof {
        reveal_strlit("eqlog_");
        reveal_strlit(".txt");
    }
    let n = s.len();
    let nl = q + 6;
    let nh = first_of_exec(s, '_', nl);
    if !(nh > nl && nh < n) {
        return None;
    }
    let sl = nh + 1;
    if n < 4 {
        return None;
    }
    let sh = n - 4;
    if !(sl < sh) {
        return None;
    }
    if !occurs_exec(s, sh, ".txt") {
        return None;
    }
    if first_of_exec(s, '.', sl) != sh {
        return None;
    }
    Some((nl, nh, sl, sh))
}

/// Finds the log file name in `s` (see `log_file_name`).
fn log_file_name_exec(s: &Vec<char>) -> (r: Option<(usize, usize, usize, usize)>)
    ensures
        r matches Some((a, b, c, d)) ==> log_file_name(s@) == Some((a as int, b as int, c as int, d as int)),
        r is None ==> log_file_name(s@) is None,
{
    let n = s.len();
    let mut p: usize = 0;
    while p < n
        invariant
            n == s@.len(),
            p <= n,
            log_file_name(s@) == log_name_from(s@, p as int),
        decreases n - p,
    {
        if p == 0 {
            match eqlog_at_exec(s, 0) {
                Some(m) => return Some(m),
                None => {},
            }
        }
        if s[p] == '/' || s[p] == '\\' {
            match eqlog_at_exec(s, p + 1) {
                Some(m) => return Some(m),
                None => {},
            }
        }
        p = p + 1;
    }
    None
}

/// Whether `path` names an EverQuest log file.
pub fn is_valid_log_file_name(path: &str) -> (res: bool)
    ensures
        res == (log_file_name(path@) is Some),
{
    let s = chars_of(path);
    log_file_name_exec(&s).is_some()
}

/// The character whose log a file is.
#[derive(Debug)]
pub struct Character {
    pub name: String,
    pub server: String,
    pub log_file_path: String,
}

impl Character {
    /// The character and server that the log file name `input` names.
    pub fn from(input: &str) -> (res: Character)
        requires
            log_file_name(input@) is Some,
        ensures
            ({
                let (nl, nh, sl, sh) = log_file_name(input@)->0;
                &&& res.name@ == input@.subrange(nl, nh)
                &&& res.server@ == input@.subrange(sl, sh)
                &&& res.log_file_path@ == input@
            }),
    {
        let s = chars_of(input);
        match log_file_name_exec(&s) {
            Some((nl, nh, sl, sh)) => {
                proof {
                    lemma_log_name_bounds(s@, 0);
                }
                Character { name: substring(&s, nl, nh), server: substring(&s, sl, sh), log_file_path: string_of(&s) }
            },
            None => {
                assert(false);
                Character { name: String::new(), server: String::new(), log_file_path: String::new() }
            },
        }
    }
}

proof fn lemma_first_of(s: Seq<char>, c: char, i: int)
    requires
        0 <= i <= s.len(),
    ensures
        i <= first_of(s, c, i) <= s.len(),
    decreases s.len() - i,
{
    if i < s.len() && s[i] != c {
        lemma_first_of(s, c, i + 1);
    }
}

proof fn lemma_log_name_bounds(s: Seq<char>, p: int)
    requires
        0 <= p,
    ensures
        log_name_from(s, p) matches Some((a, b, c, d)) ==> 0 <= a <= b <= c <= d <= s.len(),
    decreases s.len() - p,
{
    if p < s.len() {
        if p == 0 && eqlog_at(s, 0) is Some {
            lemma_first_of(s, '_', 6);
        } else if is_separator(s[p]) && eqlog_at(s, p + 1) is Some {
            lemma_first_of(s, '_', p + 7);
        } else {
            lemma_log_name_bounds(s, p + 1);
        }
    }
}

// ---------------------------------------------------------------------------
// Log lines
// ---------------------------------------------------------------------------

/// A log line that could not be read.
#[derive(Debug)]
pub struct LogLineParseError(pub String);

/// A log line: `[Thu Jul 18 17:35:14 2024] You gain experience!!` splits
/// into the time stamp between the brackets and the content after `] `.
#[derive(Debug)]
pub struct Line {
    pub content: String,
    pub raw_datetime: String,
}

/// Reading a line needs the `]` that closes its time stamp (when there is
/// one) to be followed by a one-byte (ASCII) character.
pub open spec fn line_readable(raw: Seq<char>) -> bool {
    let j = first_of(raw, ']', 0);
    raw.len() > 0 && raw[0] == '[' && j < raw.len() ==> j + 1 < raw.len() && (raw[j + 1] as u32) < 0x80
}

/// The time stamp and the content of a log line, or `None` when it does
/// not start with `[` or has no `]`.
pub open spec fn parsed_line(raw: Seq<char>) -> Option<(Seq<char>, Seq<char>)> {
    let j = first_of(raw, ']', 0);
    if raw.len() > 0 && raw[0] == '[' && j < raw.len() {
        Some((raw.subrange(1, j), replace_spec(raw.subrange(j + 2, raw.len() as int), "&PCT;"@, "%"@)))
    } else {
        None
    }
}

impl Line {
    /// Splits a log line; a line that does not start with `[` or has no `]`
    /// is an error. `&PCT;` in the content stands for `%`.
    pub fn from(raw_line: &str) -> (res: Result<Line, LogLineParseError>)
        requires
            line_readable(raw_line@),
        ensures
            match parsed_line(raw_line@) {
                Some((datetime, content)) => res matches Ok(line) && line.raw_datetime@ == datetime && line.content@ == content,
                None => res matches Err(e) && e.0@ == raw_line@,
            },
    {
        let s = chars_of(raw_line);
        if s.len() == 0 || s[0] != '[' {
            return Err(LogLineParseError(string_of(&s)));
        }
        let j = first_of_exec(&s, ']', 1);
        assert(first_of(s@, ']', 0) == first_of(s@, ']', 1));
        if j >= s.len() {
            return Err(LogLineParseError(string_of(&s)));
        }
        let raw_datetime = substring(&s, 1, j);
        let rest: Vec<char> = chars_of(substring(&s, j + 2, s.len()).as_str());
        proof {
            reveal_strlit("&PCT;");
        }
        let pat = chars_of("&PCT;");
        let rep = chars_of("%");
        let content = replace_all(&rest, &pat, &rep);
        Ok(Line { content: string_of(&content), raw_datetime })
    }
}

/// What happened to a log file.
#[derive(Debug)]
pub enum LogFileEvent {
    Created(String),
    Updated(String),
    Deleted(String),
}


// ---------------------------------------------------------------------------
// Cursors
// ---------------------------------------------------------------------------

/// Where reading a log file has got to: a byte offset into it.
#[derive(Debug)]
pub struct LogFileCursor {
    pub path: String,
    pub position: u64,
}

impl Clone for LogFileCursor {
    fn clone(&self) -> (res: Self)
        ensures
            res == *self,
    {
        LogFileCursor { path: self.path.clone(), position: self.position }
    }
}

/// What a line read from a log file moves its cursor by: the line's bytes
/// and the newline, and one byte more when the line ends in a carriage
/// return.
pub open spec fn line_advance(raw: Seq<char>) -> nat {
    if raw.len() > 0 && raw.last() == '\r' {
        utf8_len(raw) + 2
    } else {
        utf8_len(raw) + 1
    }
}

/// A line read from a log file without its trailing carriage return.
pub open spec fn without_cr(raw: Seq<char>) -> Seq<char> {
    if raw.len() > 0 && raw.last() == '\r' {
        raw.drop_last()
    } else {
        raw
    }
}

impl LogFileCursor {
    /// A cursor at `size`, the end of the file at `path`.
    pub fn new(path: &str, size: u64) -> (res: LogFileCursor)
        ensures
            res.path@ == path@,
            res.position == size,
    {
        LogFileCursor { path: path.to_owned(), position: size }
    }

    /// Takes in the line `raw_line` read at the cursor (without its newline):
    /// moves the cursor past it and gives the line, unless the line cannot
    /// be read as a log line.
    pub fn advance(&mut self, raw_line: &str) -> (res: Option<Line>)
        requires
            old(self).position + line_advance(raw_line@) <= u64::MAX,
            line_readable(without_cr(raw_line@)),
        ensures
            final(self).path == old(self).path,
            final(self).position == old(self).position + line_advance(raw_line@),
            match parsed_line(without_cr(raw_line@)) {
                Some((datetime, content)) => res matches Some(line) && line.raw_datetime@ == datetime && line.content@ == content,
                None => res is None,
            },
    {
        let s = chars_of(raw_line);
        let n = match utf8_len_exec(&s) {
            Some(n) => n,
            None => {
                assert(false);
                0
            },
        };
        self.position = self.position + 1 + n;
        let line: String = if s.len() > 0 && s[s.len() - 1] == '\r' {
            self.position = self.position + 1;
            substring(&s, 0, s.len() - 1)
        } else {
            string_of(&s)
        };
        assert(line@ == without_cr(raw_line@));
        match Line::from(line.as_str()) {
            Ok(l) => Some(l),
            Err(_) => None,
        }
    }
}

/// What is known of a log file's size.
#[derive(Debug, Clone, Copy, PartialEq, Eq, Structural)]
pub enum LogFileCursorCacheEntry {
    CachedSize(u64),
    StaleSize,
}

/// A log file and what is known of its size.
#[derive(Debug)]
pub struct CursorSlot {
    pub path: String,
    pub entry: LogFileCursorCacheEntry,
}

impl View for CursorSlot {
    type V = LogFileCursorCacheEntry;

    open spec fn view(&self) -> LogFileCursorCacheEntry {
        self.entry
    }
}

impl Keyed for CursorSlot {
    open spec fn key(&self) -> Seq<char> {
        self.path@
    }

    fn key_str(&self) -> (res: &str) {
        self.path.as_str()
    }
}

/// The sizes of the log files, as far as they were read and not yet
/// consumed by a cursor.
#[derive(Debug)]
pub struct LogFileCursorCache {
    pub cursors: Vec<CursorSlot>,
}

/// The cache that a scan of the files `files` (path and size) gives: the log
/// files among them, each with its size.
pub open spec fn scanned(files: Seq<(Seq<char>, u64)>) -> Map<Seq<char>, LogFileCursorCacheEntry>
    decreases files.len(),
{
    if files.len() == 0 {
        Map::empty()
    } else if log_file_name(files.last().0) is Some {
        scanned(files.drop_last()).insert(files.last().0, LogFileCursorCacheEntry::CachedSize(files.last().1))
    } else {
        scanned(files.drop_last())
    }
}

pub open spec fn files_view(files: Seq<(String, u64)>) -> Seq<(Seq<char>, u64)> {
    Seq::new(files.len(), |i: int| (files[i].0@, files[i].1))
}

impl View for LogFileCursorCache {
    type V = Map<Seq<char>, LogFileCursorCacheEntry>;

    open spec fn view(&self) -> Map<Seq<char>, LogFileCursorCacheEntry> {
        keyed_map(self.cursors@)
    }
}

impl LogFileCursorCache {
    pub open spec fn wf(&self) -> bool {
        keys_unique(self.cursors@)
    }

    /// The cache after a scan of the logs directory that found the files
    /// `files` (path and size): the log files among them, each with its size.
    pub fn scan_dir(files: &Vec<(String, u64)>) -> (res: LogFileCursorCache)
        ensures
            res.wf(),
            res@ == scanned(files_view(files@)),
    {
        let mut cursors: Vec<CursorSlot> = Vec::new();
        let mut i: usize = 0;
        while i < files.len()
            invariant
                i <= files@.len(),
                keys_unique(cursors@),
                keyed_map(cursors@) == scanned(files_view(files@).take(i as int)),
            decreases files@.len() - i,
        {
            let ghost fv = files_view(files@);
            assert(fv.take(i + 1).drop_last() == fv.take(i as int));
            assert(fv.take(i + 1).last() == fv[i as int]);
            if is_valid_log_file_name(files[i].0.as_str()) {
                let slot = CursorSlot { path: files[i].0.clone(), entry: LogFileCursorCacheEntry::CachedSize(files[i].1) };
                let _ = upsert(&mut cursors, slot);
            }
            i = i + 1;
        }
        assert(files_view(files@).take(files@.len() as int) == files_view(files@));
        LogFileCursorCache { cursors }
    }

    /// The cursor of the log file at `path`, at the size that was known of
    /// it; the size is marked stale. `None` when no size was known: the
    /// caller reads the file's size then.
    pub fn get_cursor_and_mark_size_stale(&mut self, path: &str) -> (res: Option<LogFileCursor>)
        requires
            old(self).wf(),
        ensures
            final(self).wf(),
            final(self)@ == old(self)@.insert(path@, LogFileCursorCacheEntry::StaleSize),
            match res {
                Some(c) => c.path@ == path@ && old(self)@.contains_key(path@) && old(self)@[path@] == LogFileCursorCacheEntry::CachedSize(c.position),
                None => !old(self)@.contains_key(path@) || old(self)@[path@] == LogFileCursorCacheEntry::StaleSize,
            },
    {
        let slot = CursorSlot { path: path.to_owned(), entry: LogFileCursorCacheEntry::StaleSize };
        match upsert(&mut self.cursors, slot) {
            Some(CursorSlot { entry: LogFileCursorCacheEntry::CachedSize(size), .. }) => Some(LogFileCursor { path: path.to_owned(), position: size }),
            _ => None,
        }
    }

    /// Records `size` as the size of the log file at `path`; `None` (its
    /// size could not be read) forgets the file.
    pub fn reset_cursor_position(&mut self, path: &str, size: Option<u64>)
        requires
            old(self).wf(),
        ensures
            final(self).wf(),
            match size {
                Some(n) => final(self)@ == old(self)@.insert(path@, LogFileCursorCacheEntry::CachedSize(n)),
                None => final(self)@ == old(self)@.remove(path@),
            },
    {
        match size {
            Some(n) => {
                let slot = CursorSlot { path: path.to_owned(), entry: LogFileCursorCacheEntry::CachedSize(n) };
                let _ = upsert(&mut self.cursors, slot);
            },
            None => {
                let _ = remove_keyed(&mut self.cursors, path);
            },
        }
    }
}

/// A recorded size gives one cursor: once a cursor of `path` was taken, the
/// next request for `path` finds its size stale until the size is recorded
/// again, and then it gives a cursor at that size.
pub proof fn lemma_cursor_taken_once(m: Map<Seq<char>, LogFileCursorCacheEntry>, path: Seq<char>, size: u64)
    ensures
        m.insert(path, LogFileCursorCacheEntry::StaleSize).contains_key(path),
        m.insert(path, LogFileCursorCacheEntry::StaleSize)[path] == LogFileCursorCacheEntry::StaleSize,
        m.insert(path, LogFileCursorCacheEntry::StaleSize).insert(path, LogFileCursorCacheEntry::CachedSize(size))[path]
            == LogFileCursorCacheEntry::CachedSize(size),
{
}

/// Forgetting a file leaves no size for it: the next request reads the
/// file's size anew.
pub proof fn lemma_forgotten_file_has_no_size(m: Map<Seq<char>, LogFileCursorCacheEntry>, path: Seq<char>)
    ensures
        !m.remove(path).contains_key(path),
{
}

// ---------------------------------------------------------------------------
// File events
// ---------------------------------------------------------------------------

pub open spec fn event_path(e: LogFileEvent) -> String {
    match e {
        LogFileEvent::Created(p) => p,
        LogFileEvent::Updated(p) => p,
        LogFileEvent::Deleted(p) => p,
    }
}

/// The kinds of change to a file in the logs directory that matter.
#[derive(Debug, Clone, Copy, PartialEq, Eq, Structural)]
pub enum FileChangeKind {
    FileCreated,
    DataModified,
    FileRemoved,
    Other,
}

pub open spec fn event_of(kind: FileChangeKind, path: String) -> Option<LogFileEvent> {
    match kind {
        FileChangeKind::FileCreated => Some(LogFileEvent::Created(path)),
        FileChangeKind::DataModified => Some(LogFileEvent::Updated(path)),
        FileChangeKind::FileRemoved => Some(LogFileEvent::Deleted(path)),
        FileChangeKind::Other => None,
    }
}

/// The events that a change of kind `kind` to the files `paths` gives: each
/// pair is a path as it was reported and the path to pass on. Only the
/// log files count.
pub open spec fn events_of(kind: FileChangeKind, paths: Seq<(String, String)>) -> Seq<Option<LogFileEvent>>
    decreases paths.len(),
{
    if paths.len() == 0 {
        Seq::empty()
    } else {
        let rest = events_of(kind, paths.drop_last());
        if log_file_name(paths.last().0@) is Some && event_of(kind, paths.last().1) is Some {
            rest.push(event_of(kind, paths.last().1))
        } else {
            rest
        }
    }
}

pub open spec fn events_view(events: Seq<LogFileEvent>) -> Seq<Option<LogFileEvent>> {
    Seq::new(events.len(), |i: int| Some(events[i]))
}

fn event_for(kind: FileChangeKind, path: String) -> (r: Option<LogFileEvent>)
    ensures
        r == event_of(kind, path),
{
    match kind {
        FileChangeKind::FileCreated => Some(LogFileEvent::Created(path)),
        FileChangeKind::DataModified => Some(LogFileEvent::Updated(path)),
        FileChangeKind::FileRemoved => Some(LogFileEvent::Deleted(path)),
        FileChangeKind::Other => None,
    }
}

/// The log file events that a change of kind `kind` to the files `paths`
/// gives, in order (see `events_of`).
pub fn log_file_events(kind: FileChangeKind, paths: &Vec<(String, String)>) -> (res: Vec<LogFileEvent>)
    ensures
        events_view(res@) == events_of(kind, paths@),
{
    let mut res: Vec<LogFileEvent> = Vec::new();
    let mut i: usize = 0;
    while i < paths.len()
        invariant
            i <= paths@.len(),
            events_view(res@) == events_of(kind, paths@.take(i as int)),
        decreases paths@.len() - i,
    {
        assert(paths@.take(i + 1).drop_last() == paths@.take(i as int));
        if is_valid_log_file_name(paths[i].0.as_str()) {
            match event_for(kind, paths[i].1.clone()) {
                Some(e) => {
                    res.push(e);
                    assert(events_view(res@) == events_view(res@.drop_last()).push(Some(e)));
                },
                None => {},
            }
        }
        i = i + 1;
    }
    assert(paths@.take(paths@.len() as int) == paths@);
    res
}

/// What a reader that follows one log file does on an event: `None` stands
/// for a failure of the file watch.
#[derive(Debug, Clone, Copy, PartialEq, Eq, Structural)]
pub enum FollowedFileReaction {
    Wake,
    Stop,
    Ignore,
}

pub open spec fn reaction(followed: Seq<char>, event: Option<LogFileEvent>) -> FollowedFileReaction {
    match event {
        None => FollowedFileReaction::Ignore,
        Some(LogFileEvent::Updated(p)) => if p@ == followed { FollowedFileReaction::Wake } else { FollowedFileReaction::Ignore },
        Some(LogFileEvent::Created(_)) => FollowedFileReaction::Ignore,
        Some(LogFileEvent::Deleted(p)) => if p@ == followed { FollowedFileReaction::Stop } else { FollowedFileReaction::Ignore },
    }
}

/// How a reader of `followed_file` reacts to `event`: it wakes when the
/// file was written and stops when it went away; it carries on past its
/// creation, a failure of the watch, and events of other files.
pub fn reaction_to(followed_file: &str, event: Option<&LogFileEvent>) -> (res: FollowedFileReaction)
    ensures
        res == reaction(followed_file@, match event { Some(e) => Some(*e), None => None }),
{
    match event {
        None => FollowedFileReaction::Ignore,
        Some(LogFileEvent::Created(_)) => FollowedFileReaction::Ignore,
        Some(LogFileEvent::Updated(p)) => {
            if str_eq(p.as_str(), followed_file) {
                FollowedFileReaction::Wake
            } else {
                FollowedFileReaction::Ignore
            }
        },
        Some(LogFileEvent::Deleted(p)) => {
            if str_eq(p.as_str(), followed_file) {
                FollowedFileReaction::Stop
            } else {
                FollowedFileReaction::Ignore
            }
        },
    }
}

// ---------------------------------------------------------------------------
// The active character
// ---------------------------------------------------------------------------

/// What the active character becomes.
#[derive(Debug)]
pub enum CharacterChange {
    Switch(Character),
    Clear,
}

/// The log file that was written last, whose character is the active one.
#[derive(Debug)]
pub struct ActiveCharacterTracker {
    pub current_file: Option<String>,
}

/// Whether `path` is the current file.
pub open spec fn is_current(current: Option<String>, path: String) -> bool {
    current matches Some(c) && c@ == path@
}

/// The log files that an event may switch to have valid names.
pub open spec fn event_readable(current: Option<String>, e: LogFileEvent) -> bool {
    match e {
        LogFileEvent::Deleted(_) => true,
        _ => !is_current(current, event_path(e)) ==> log_file_name(event_path(e)@) is Some,
    }
}

pub open spec fn file_view(current: Option<String>) -> Option<Seq<char>> {
    match current {
        Some(c) => Some(c@),
        None => None,
    }
}

/// The current file after event `e`: a written file becomes current; the
/// deletion of the current file leaves none.
pub open spec fn tracked_file(current: Option<Seq<char>>, e: LogFileEvent) -> Option<Seq<char>> {
    match e {
        LogFileEvent::Deleted(p) => if current == Some(p@) { None } else { current },
        _ => Some(event_path(e)@),
    }
}

/// Whether event `e` changes the active character.
pub open spec fn changes_character(current: Option<Seq<char>>, e: LogFileEvent) -> bool {
    match e {
        LogFileEvent::Deleted(p) => current == Some(p@),
        _ => current != Some(event_path(e)@),
    }
}

/// The same event twice changes the active character once at most: after
/// it, the current file is what the event made it, and the event again
/// leaves it so.
pub proof fn lemma_repeated_event_changes_nothing(current: Option<Seq<char>>, e: LogFileEvent)
    ensures
        !changes_character(tracked_file(current, e), e),
        tracked_file(tracked_file(current, e), e) == tracked_file(current, e),
{
}

impl ActiveCharacterTracker {
    pub fn new() -> (res: ActiveCharacterTracker)
        ensures
            res.current_file is None,
    {
        ActiveCharacterTracker { current_file: None }
    }

    /// Takes in a log file event: a write to another log file than the
    /// current one makes its character the active one; the deletion of the
    /// current file leaves no active character. Anything else changes
    /// nothing.
    pub fn on_event(&mut self, event: &LogFileEvent) -> (res: Option<CharacterChange>)
        requires
            event_readable(old(self).current_file, *event),
        ensures
            file_view(final(self).current_file) == tracked_file(file_view(old(self).current_file), *event),
            res is Some <==> changes_character(file_view(old(self).current_file), *event),
            match *event {
                LogFileEvent::Deleted(p) => if is_current(old(self).current_file, p) {
                    res matches Some(CharacterChange::Clear) && final(self).current_file is None
                } else {
                    res is None && final(self).current_file == old(self).current_file
                },
                _ => if is_current(old(self).current_file, event_path(*event)) {
                    res is None && final(self).current_file == old(self).current_file
                } else {
                    final(self).current_file == Some(event_path(*event)) && (res matches Some(CharacterChange::Switch(c)) && ({
                        let (nl, nh, sl, sh) = log_file_name(event_path(*event)@)->0;
                        &&& c.name@ == event_path(*event)@.subrange(nl, nh)
                        &&& c.server@ == event_path(*event)@.subrange(sl, sh)
                        &&& c.log_file_path@ == event_path(*event)@
                    }))
                },
            },
    {
        match event {
            LogFileEvent::Deleted(p) => {
                let same = match &self.current_file {
                    Some(cur) => str_eq(cur.as_str(), p.as_str()),
                    None => false,
                };
                if same {
                    self.current_file = None;
                    Some(CharacterChange::Clear)
                } else {
                    None
                }
            },
            LogFileEvent::Created(p) | LogFileEvent::Updated(p) => {
                let same = match &self.current_file {
                    Some(cur) => str_eq(cur.as_str(), p.as_str()),
                    None => false,
                };
                if same {
                    None
                } else {
                    let c = Character::from(p.as_str());
                    self.current_file = Some(p.clone());
                    Some(CharacterChange::Switch(c))
                }
            },
        }
    }
}

} // verus!
