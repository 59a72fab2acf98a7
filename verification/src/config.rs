//! The configuration: which EverQuest installation to read and where its
//! logs are, and which data files stand for which records. What the file
//! system says is handed in; the rules that decide are here.
use vstd::prelude::*;
use crate::common::{UUID, UUID_LEN};
use crate::text::{chars_of, starts_with_at, substring, string_of, str_eq, occurs_at, utf8_len, utf8_len_exec};

verus! {

/// Why a directory is not taken as the EverQuest directory.
#[derive(Debug, Clone, Copy, PartialEq, Eq, Structural)]
pub enum EverQuestDirectoryError {
    DoesNotExist,
    DoesNotHaveLogsDir,
    NotValidEverQuestDir,
    CouldNotCanonicalize,
    CorruptedPath,
}

/// The absolute form of a path, as far as it could be had.
#[derive(Debug)]
pub enum CanonicalPath {
    Failed,
    NotUnicode,
    Path(String),
}

/// What the file system says of a directory offered as the EverQuest
/// directory.
#[derive(Debug)]
pub struct EqDirProbe {
    pub is_dir: bool,
    /// Whether it holds an `eqclient.ini`.
    pub has_eqclient_ini: bool,
    pub canonical: CanonicalPath,
    /// The `Logs` directory inside its absolute form, when that is a
    /// directory.
    pub logs_dir: Option<String>,
}

/// The EverQuest directory that a probe accepts, or why it refuses it.
pub open spec fn eq_dir_outcome(p: EqDirProbe) -> Result<Seq<char>, EverQuestDirectoryError> {
    if !p.is_dir {
        Err(EverQuestDirectoryError::DoesNotExist)
    } else if !p.has_eqclient_ini {
        Err(EverQuestDirectoryError::NotValidEverQuestDir)
    } else {
        match p.canonical {
            CanonicalPath::Failed => Err(EverQuestDirectoryError::CouldNotCanonicalize),
            CanonicalPath::NotUnicode => Err(EverQuestDirectoryError::CorruptedPath),
            CanonicalPath::Path(s) => Ok(s@),
        }
    }
}

pub open spec fn result_view(r: Result<String, EverQuestDirectoryError>) -> Result<Seq<char>, EverQuestDirectoryError> {
    match r {
        Ok(s) => Ok(s@),
        Err(e) => Err(e),
    }
}

/// The EverQuest directory that `probe` describes: it must exist, hold an
/// `eqclient.ini` and have an absolute form in Unicode, which is given.
pub fn validate_eq_dir(probe: &EqDirProbe) -> (res: Result<String, EverQuestDirectoryError>)
    ensures
        result_view(res) == eq_dir_outcome(*probe),
{
    if !probe.is_dir {
        return Err(EverQuestDirectoryError::DoesNotExist);
    }
    if !probe.has_eqclient_ini {
        return Err(EverQuestDirectoryError::NotValidEverQuestDir);
    }
    match &probe.canonical {
        CanonicalPath::Failed => Err(EverQuestDirectoryError::CouldNotCanonicalize),
        CanonicalPath::NotUnicode => Err(EverQuestDirectoryError::CorruptedPath),
        CanonicalPath::Path(s) => Ok(s.clone()),
    }
}

/// The `Logs` directory of an accepted EverQuest directory.
pub fn default_logs_dir_from_eq_dir(probe: &EqDirProbe) -> (res: Result<String, EverQuestDirectoryError>)
    ensures
        match probe.logs_dir {
            Some(d) => res matches Ok(r) && r@ == d@,
            None => res == Err::<String, EverQuestDirectoryError>(EverQuestDirectoryError::DoesNotHaveLogsDir),
        },
{
    match &probe.logs_dir {
        Some(d) => Ok(d.clone()),
        None => Err(EverQuestDirectoryError::DoesNotHaveLogsDir),
    }
}

/// The settings of the application.
#[derive(Debug)]
pub struct LogQuestConfig {
    pub everquest_directory: Option<String>,
    pub config_file_path: String,
    /// The logs directory: the `Logs` directory of the EverQuest directory,
    /// unless the command line names another.
    pub logs_dir_path: Option<String>,
}

pub open spec fn opt_view(o: Option<String>) -> Option<Seq<char>> {
    match o {
        Some(s) => Some(s@),
        None => None,
    }
}

fn clone_opt(o: &Option<String>) -> (res: Option<String>)
    ensures
        res == *o,
{
    match o {
        Some(s) => Some(s.clone()),
        None => None,
    }
}

impl LogQuestConfig {
    /// A fresh configuration, kept at `config_file_path`.
    pub fn new_with_config_file_path(config_file_path: &str) -> (res: LogQuestConfig)
        ensures
            res.config_file_path@ == config_file_path@,
            res.everquest_directory is None,
            res.logs_dir_path is None,
    {
        LogQuestConfig { everquest_directory: None, config_file_path: config_file_path.to_owned(), logs_dir_path: None }
    }

    /// The configuration read from the file at `config_file_path`, which
    /// named `everquest_directory` (`probe` describes that directory); a
    /// logs directory named on the command line comes first, else the one
    /// of a valid EverQuest directory.
    pub fn resolve_loaded(
        everquest_directory: Option<String>,
        probe: Option<&EqDirProbe>,
        logs_dir_override: Option<String>,
        config_file_path: &str,
    ) -> (res: LogQuestConfig)
        requires
            everquest_directory is Some ==> probe is Some,
        ensures
            res.config_file_path@ == config_file_path@,
            opt_view(res.everquest_directory) == match everquest_directory {
                Some(_) => match eq_dir_outcome(*probe->0) {
                    Ok(d) => Some(d),
                    Err(_) => None,
                },
                None => None,
            },
            opt_view(res.logs_dir_path) == match logs_dir_override {
                Some(o) => Some(o@),
                None => if res.everquest_directory is Some { opt_view(probe->0.logs_dir) } else { None },
            },
    {
        let eq_dir: Option<String> = match (&everquest_directory, probe) {
            (Some(_), Some(p)) => match validate_eq_dir(p) {
                Ok(d) => Some(d),
                Err(_) => None,
            },
            _ => None,
        };
        let logs_dir: Option<String> = match logs_dir_override {
            Some(o) => Some(o),
            None => match (&eq_dir, probe) {
                (Some(_), Some(p)) => match default_logs_dir_from_eq_dir(p) {
                    Ok(d) => Some(d),
                    Err(_) => None,
                },
                _ => None,
            },
        };
        LogQuestConfig { everquest_directory: eq_dir, config_file_path: config_file_path.to_owned(), logs_dir_path: logs_dir }
    }

    /// Sets the EverQuest directory to the one `probe` describes, once it is
    /// validated, and the logs directory to its `Logs` directory when none
    /// is set. A directory without one is refused after the EverQuest
    /// directory was set.
    pub fn set_eq_dir(&mut self, probe: &EqDirProbe) -> (res: Result<String, EverQuestDirectoryError>)
        ensures
            (final(self)@, result_view(res)) == after_set_eq_dir(old(self)@, *probe),
    {
        let eq_dir = validate_eq_dir(probe)?;
        self.everquest_directory = Some(eq_dir.clone());
        if self.logs_dir_path.is_none() {
            match default_logs_dir_from_eq_dir(probe) {
                Ok(l) => self.logs_dir_path = Some(l),
                Err(e) => return Err(e),
            }
        }
        Ok(eq_dir)
    }

    /// Whether the EverQuest directory and the logs directory are both
    /// known, so that reading the logs can begin.
    pub fn is_ready(&self) -> (res: bool)
        ensures
            res == ready(self@),
    {
        self.everquest_directory.is_some() && self.logs_dir_path.is_some()
    }
}

pub struct ConfigView {
    pub everquest_directory: Option<Seq<char>>,
    pub config_file_path: Seq<char>,
    pub logs_dir_path: Option<Seq<char>>,
}

impl View for LogQuestConfig {
    type V = ConfigView;

    open spec fn view(&self) -> ConfigView {
        ConfigView {
            everquest_directory: opt_view(self.everquest_directory),
            config_file_path: self.config_file_path@,
            logs_dir_path: opt_view(self.logs_dir_path),
        }
    }
}

/// Whether reading the logs can begin.
pub open spec fn ready(c: ConfigView) -> bool {
    c.everquest_directory is Some && c.logs_dir_path is Some
}

/// The configuration after `c` is given the directory that `p` describes as
/// its EverQuest directory, and what that gives back.
pub open spec fn after_set_eq_dir(c: ConfigView, p: EqDirProbe) -> (ConfigView, Result<Seq<char>, EverQuestDirectoryError>) {
    match eq_dir_outcome(p) {
        Err(e) => (c, Err(e)),
        Ok(d) => {
            let c2 = ConfigView { everquest_directory: Some(d), ..c };
            if c.logs_dir_path is Some {
                (c2, Ok(d))
            } else {
                match p.logs_dir {
                    Some(l) => (ConfigView { logs_dir_path: Some(l@), ..c2 }, Ok(d)),
                    None => (c2, Err(EverQuestDirectoryError::DoesNotHaveLogsDir)),
                }
            }
        },
    }
}

/// Once a directory is accepted as the EverQuest directory, reading the logs
/// can begin; a refused directory changes nothing.
pub proof fn lemma_accepted_eq_dir_is_ready(c: ConfigView, p: EqDirProbe)
    ensures
        after_set_eq_dir(c, p).1 is Ok ==> ready(after_set_eq_dir(c, p).0),
        eq_dir_outcome(p) is Err ==> after_set_eq_dir(c, p).0 == c,
        after_set_eq_dir(c, p).0.config_file_path == c.config_file_path,
{
}

// ---------------------------------------------------------------------------
// Data files
// ---------------------------------------------------------------------------

/// The id that a data file named `name` stands for: a name of `UUID_LEN`
/// bytes followed by `.json`.
pub open spec fn id_of_file_name(name: Seq<char>) -> Option<Seq<char>> {
    if utf8_len(name) == UUID_LEN + 5 && occurs_at(name, name.len() - 5, ".json"@) {
        Some(name.subrange(0, name.len() - 5))
    } else {
        None
    }
}

/// The ids that the data files named `names` stand for, in order.
pub open spec fn ids_of_file_names(names: Seq<Seq<char>>) -> Seq<Seq<char>>
    decreases names.len(),
{
    if names.len() == 0 {
        Seq::empty()
    } else {
        match id_of_file_name(names.last()) {
            Some(id) => ids_of_file_names(names.drop_last()).push(id),
            None => ids_of_file_names(names.drop_last()),
        }
    }
}

pub open spec fn names_view(v: Seq<String>) -> Seq<Seq<char>> {
    Seq::new(v.len(), |i: int| v[i]@)
}

pub open spec fn uuids_view(v: Seq<UUID>) -> Seq<Seq<char>> {
    Seq::new(v.len(), |i: int| v[i]@)
}

/// The ids that the data files named `names` stand for (see
/// `id_of_file_name`).
pub fn ids_in_file_names(names: &Vec<String>) -> (res: Vec<UUID>)
    ensures
        uuids_view(res@) == ids_of_file_names(names_view(names@)),
{
    proof {
        reveal_strlit(".json");
    }
    let suffix = chars_of(".json");
    let mut res: Vec<UUID> = Vec::new();
    let mut i: usize = 0;
    while i < names.len()
        invariant
            suffix@ == ".json"@,
            i <= names@.len(),
            uuids_view(res@) == ids_of_file_names(names_view(names@).take(i as int)),
        decreases names@.len() - i,
    {
        let ghost nv = names_view(names@);
        assert(nv.take(i + 1).drop_last() == nv.take(i as int));
        assert(nv.take(i + 1).last() == names@[i as int]@);
        let s = chars_of(names[i].as_str());
        let len_ok = match utf8_len_exec(&s) {
            Some(n) => n == 41,
            None => false,
        };
        if len_ok && s.len() >= 5 && starts_with_at(&s, s.len() - 5, &suffix) {
            let id = UUID::from_str_unchecked(substring(&s, 0, s.len() - 5).as_str());
            res.push(id);
            assert(uuids_view(res@) == uuids_view(res@.drop_last()).push(id@));
        } else {
            assert(id_of_file_name(s@) is None);
        }
        i = i + 1;
    }
    assert(names_view(names@).take(names@.len() as int) == names_view(names@));
    res
}

/// Whether `id` is among `ids`.
fn contains_id(ids: &Vec<UUID>, id: &UUID) -> (res: bool)
    ensures
        res == uuids_view(ids@).contains(id@),
{
    let mut i: usize = 0;
    while i < ids.len()
        invariant
            i <= ids@.len(),
            forall|j: int| 0 <= j < i ==> ids@[j]@ != id@,
        decreases ids@.len() - i,
    {
        if str_eq(ids[i].as_str(), id.as_str()) {
            assert(uuids_view(ids@)[i as int] == id@);
            return true;
        }
        i = i + 1;
    }
    assert forall|j: int| 0 <= j < uuids_view(ids@).len() implies uuids_view(ids@)[j] != id@ by {
        assert(uuids_view(ids@)[j] == ids@[j]@);
    }
    false
}

/// The ids of data files on disk (`persisted`) that no record keeps
/// (`kept`): the files to remove. Each comes once.
pub fn stale_ids(persisted: &Vec<UUID>, kept: &Vec<UUID>) -> (res: Vec<UUID>)
    ensures
        forall|j: int| 0 <= j < res@.len() ==> uuids_view(persisted@).contains(#[trigger] res@[j]@) && !uuids_view(kept@).contains(res@[j]@),
        forall|id: Seq<char>| uuids_view(persisted@).contains(id) && !uuids_view(kept@).contains(id) ==> uuids_view(res@).contains(id),
        forall|a: int, b: int| 0 <= a < b < res@.len() ==> (#[trigger] res@[a])@ != (#[trigger] res@[b])@,
{
    let mut res: Vec<UUID> = Vec::new();
    let mut i: usize = 0;
    while i < persisted.len()
        invariant
            i <= persisted@.len(),
            forall|j: int| 0 <= j < res@.len() ==> uuids_view(persisted@).contains(#[trigger] res@[j]@) && !uuids_view(kept@).contains(res@[j]@),
            forall|p: int| 0 <= p < i && !uuids_view(kept@).contains(#[trigger] persisted@[p]@) ==> uuids_view(res@).contains(persisted@[p]@),
            forall|a: int, b: int| 0 <= a < b < res@.len() ==> (#[trigger] res@[a])@ != (#[trigger] res@[b])@,
        decreases persisted@.len() - i,
    {
        let id = &persisted[i];
        assert(uuids_view(persisted@)[i as int] == id@);
        if !contains_id(kept, id) && !contains_id(&res, id) {
            let ghost before = res@;
            res.push(id.clone());
            proof {
                assert forall|j: int| 0 <= j < before.len() implies uuids_view(res@)[j] == uuids_view(before)[j] by {}
                assert forall|p: int| 0 <= p < i + 1 && !uuids_view(kept@).contains(#[trigger] persisted@[p]@) implies uuids_view(res@).contains(persisted@[p]@) by {
                    if p == i {
                        assert(uuids_view(res@)[res@.len() - 1] == id@);
                    } else {
                        let k = choose|k: int| 0 <= k < uuids_view(before).len() && uuids_view(before)[k] == persisted@[p]@;
                        assert(uuids_view(res@)[k] == persisted@[p]@);
                    }
                }
                assert forall|a: int, b: int| 0 <= a < b < res@.len() implies (#[trigger] res@[a])@ != (#[trigger] res@[b])@ by {
                    if b == res@.len() - 1 {
                        assert(uuids_view(before)[a] == res@[a]@);
                    }
                }
            }
        }
        i = i + 1;
    }
    proof {
        assert forall|id: Seq<char>| uuids_view(persisted@).contains(id) && !uuids_view(kept@).contains(id) implies uuids_view(res@).contains(id) by {
            let p = choose|p: int| 0 <= p < uuids_view(persisted@).len() && uuids_view(persisted@)[p] == id;
            assert(persisted@[p]@ == id);
        }
    }
    res
}

/// The name of the data file of the record `id`: the id and `.json`.
pub fn id_file_name(id: &UUID) -> (res: String)
    ensures
        res@ == id@ + ".json"@,
{
    let mut s = string_of(&chars_of(id.as_str()));
    crate::text::append_str(&mut s, ".json");
    s
}

} // verus!
