//! Finding and loading the database of a CPU.

use vstd::prelude::*;
use vstd::string::*;

use crate::document::{read_tree, Plist};
use crate::kpep::{distinct_names, law_event_names_distinct, reads_as, KpepDatabase, KpepError};
use crate::text::{ends_with, hexadecimal, hexadecimal_text, starts_with};

verus! {

/// What a database file is looked up by.
#[derive(Debug, Clone, Copy)]
pub struct CpuId {
    pub cpu_type: u32,
    pub cpu_subtype: u32,
    pub cpu_family: u32,
}

/// What the files of all databases for this CPU type and subtype begin with.
pub open spec fn file_prefix(cpu: CpuId) -> Seq<char> {
    "cpu_"@ + hexadecimal(cpu.cpu_type as nat) + "_"@ + hexadecimal(cpu.cpu_subtype as nat) + "_"@
}

/// The name of the database file of this very CPU.
pub open spec fn file_name(cpu: CpuId) -> Seq<char> {
    file_prefix(cpu) + hexadecimal(cpu.cpu_family as nat) + ".plist"@
}

/// Whether a file can stand in for the database of this very CPU.
pub open spec fn is_substitute(cpu: CpuId, name: Seq<char>) -> bool {
    file_prefix(cpu).is_prefix_of(name) && ".plist"@.is_suffix_of(name)
}

/// The first of `names` that can stand in for the database of this very CPU.
pub open spec fn first_substitute(cpu: CpuId, names: Seq<String>, from: nat) -> Option<nat>
    decreases names.len() - from,
{
    if from >= names.len() {
        None
    } else if is_substitute(cpu, names[from as int]@) {
        Some(from)
    } else {
        first_substitute(cpu, names, from + 1)
    }
}

impl CpuId {
    fn prefix(&self) -> (text: String)
        ensures
            text@ == file_prefix(*self),
    {
        let mut text = "cpu_".to_owned();
        text.append(hexadecimal_text(self.cpu_type as u64).as_str());
        text.append("_");
        text.append(hexadecimal_text(self.cpu_subtype as u64).as_str());
        text.append("_");
        text
    }

    /// The name of the database file of this very CPU.
    pub fn file_name(&self) -> (text: String)
        ensures
            text@ == file_name(*self),
    {
        let mut text = self.prefix();
        text.append(hexadecimal_text(self.cpu_family as u64).as_str());
        text.append(".plist");
        text
    }
}

/// A file in the database directory.
#[derive(Debug, Clone, Copy, PartialEq, Eq)]
pub enum DatabaseFile {
    /// The one with the CPU's own file name.
    Exact,
    /// The one at this index of the directory listing.
    Listed(usize),
}

/// Reads the CPU's identity out of the three `sysctl` replies; the first
/// failure, in the order type, subtype, family, is the error.
pub fn read_cpu_info(
    cpu_type: Result<u32, String>,
    cpu_subtype: Result<u32, String>,
    cpu_family: Result<u32, String>,
) -> (result: Result<CpuId, KpepError>)
    ensures
        match (cpu_type, cpu_subtype, cpu_family) {
            (Ok(t), Ok(s), Ok(f)) => result == Ok::<CpuId, KpepError>(
                (CpuId { cpu_type: t, cpu_subtype: s, cpu_family: f }),
            ),
            (Err(text), _, _) => result == Err::<CpuId, KpepError>(KpepError::SysctlError(text)),
            (_, Err(text), _) => result == Err::<CpuId, KpepError>(KpepError::SysctlError(text)),
            (_, _, Err(text)) => result == Err::<CpuId, KpepError>(KpepError::SysctlError(text)),
        },
{
    let cpu_type = match cpu_type {
        Ok(value) => value,
        Err(text) => return Err(KpepError::SysctlError(text)),
    };
    let cpu_subtype = match cpu_subtype {
        Ok(value) => value,
        Err(text) => return Err(KpepError::SysctlError(text)),
    };
    let cpu_family = match cpu_family {
        Ok(value) => value,
        Err(text) => return Err(KpepError::SysctlError(text)),
    };
    Ok(CpuId { cpu_type, cpu_subtype, cpu_family })
}

/// What looking for a CPU's database gives: its own file where there is one,
/// the first substitute in the directory otherwise, or an error.
pub open spec fn finds(cpu: CpuId, exact: bool, names: Seq<String>) -> Result<
    DatabaseFile,
    KpepError,
> {
    if exact {
        Ok(DatabaseFile::Exact)
    } else {
        match first_substitute(cpu, names, 0) {
            Some(index) => Ok(DatabaseFile::Listed(index as usize)),
            None => Err(
                KpepError::DatabaseNotFound {
                    cpu_type: cpu.cpu_type,
                    cpu_subtype: cpu.cpu_subtype,
                    cpu_family: cpu.cpu_family,
                },
            ),
        }
    }
}

/// Finds the database file of a CPU.
///
/// `exact` says whether the file with the CPU's own name exists, and `names`
/// lists the database directory (nothing where it cannot be read).
pub fn find_database_path(cpu: CpuId, exact: bool, names: &Vec<String>) -> (result: Result<
    DatabaseFile,
    KpepError,
>)
    ensures
        result == finds(cpu, exact, names@),
{
    if exact {
        return Ok(DatabaseFile::Exact);
    }
    let prefix = cpu.prefix();
    let mut at: usize = 0;
    while at < names.len()
        invariant
            at <= names@.len(),
            !exact,
            prefix@ == file_prefix(cpu),
            first_substitute(cpu, names@, 0) == first_substitute(cpu, names@, at as nat),
        decreases names@.len() - at,
    {
        let name = names[at].as_str();
        if starts_with(name, prefix.as_str()) && ends_with(name, ".plist") {
            return Ok(DatabaseFile::Listed(at));
        }
        at += 1;
    }
    Err(
        KpepError::DatabaseNotFound {
            cpu_type: cpu.cpu_type,
            cpu_subtype: cpu.cpu_subtype,
            cpu_family: cpu.cpu_family,
        },
    )
}

/// What loading a database from the file at `path` gives, for what reading the
/// file gave: a failure to read it, or to make a property list of it, is a
/// read error.
pub open spec fn loads_as(
    path: Seq<char>,
    contents: Result<Seq<u8>, Seq<char>>,
    result: Result<KpepDatabase, KpepError>,
) -> bool {
    match contents {
        Ok(bytes) => match read_tree(bytes) {
            Ok(root) => reads_as(root, result),
            Err(text) => is_read_error(path, text, result),
        },
        Err(text) => is_read_error(path, text, result),
    }
}

/// Whether `result` is the read error with this path and cause.
pub open spec fn is_read_error(
    path: Seq<char>,
    cause: Seq<char>,
    result: Result<KpepDatabase, KpepError>,
) -> bool {
    result matches Err(KpepError::ReadError { path: p, source }) && p@ == path && source@ == cause
}

/// What reading a file gave, as plain values.
pub open spec fn contents_model(contents: Result<Vec<u8>, String>) -> Result<Seq<u8>, Seq<char>> {
    match contents {
        Ok(bytes) => Ok(bytes@),
        Err(text) => Err(text@),
    }
}

impl KpepDatabase {
    /// Makes a database of the contents of the file at `path`.
    pub fn load_from_path(path: String, contents: Result<Vec<u8>, String>) -> (result: Result<
        KpepDatabase,
        KpepError,
    >)
        ensures
            loads_as(path@, contents_model(contents), result),
            result matches Ok(database) ==> distinct_names(database@.events),
    {
        let bytes = match contents {
            Ok(bytes) => bytes,
            Err(text) => return Err(KpepError::ReadError { path, source: text }),
        };
        match Plist::from_bytes(bytes.as_slice()) {
            Ok(root) => {
                let result = KpepDatabase::from_plist(&root);
                proof {
                    if result is Ok {
                        law_event_names_distinct(root.tree());
                    }
                }
                result
            },
            Err(text) => Err(KpepError::ReadError { path, source: text }),
        }
    }
}

/// How far the loading of the running CPU's database has come, and what it
/// waits for.
#[derive(Debug)]
pub enum CpuLoad {
    /// It waits for the replies to the three `sysctl` questions.
    ReadCpuInfo,
    /// It waits to hear whether the file with the CPU's own name exists.
    CheckFile(CpuId),
    /// It waits for the listing of the database directory.
    ListDirectory(CpuId),
    /// It waits for the contents of a file, whose path is `path`.
    ReadFile { file: DatabaseFile, path: String },
    /// It has come to its end.
    Finished(Result<KpepDatabase, KpepError>),
}

/// What the loading of the running CPU's database is told.
#[derive(Debug)]
pub enum CpuLoadEvent {
    /// The replies to the `sysctl` questions for CPU type, subtype and family.
    CpuInfo(Result<u32, String>, Result<u32, String>, Result<u32, String>),
    /// Whether the file exists.
    FileExists(bool),
    /// The names in the database directory, none where it cannot be read.
    Directory(Vec<String>),
    /// The contents of the file, or why it cannot be read.
    Contents(Result<Vec<u8>, String>),
}

/// The path of a file in the database directory.
pub open spec fn database_path(name: Seq<char>) -> Seq<char> {
    "/usr/share/kpep/"@ + name
}

/// Joins a file name to the database directory.
fn database_path_text(name: &str) -> (path: String)
    ensures
        path@ == database_path(name@),
{
    "/usr/share/kpep/".to_owned().concat(name)
}

/// Whether `after` is the state in which `event` leaves the state `before`. An
/// event that the state does not wait for changes nothing.
pub open spec fn load_step(before: CpuLoad, event: CpuLoadEvent, after: CpuLoad) -> bool {
    match (before, event) {
        (CpuLoad::ReadCpuInfo, CpuLoadEvent::CpuInfo(Ok(t), Ok(s), Ok(f))) => after
            == CpuLoad::CheckFile(CpuId { cpu_type: t, cpu_subtype: s, cpu_family: f }),
        (CpuLoad::ReadCpuInfo, CpuLoadEvent::CpuInfo(t, s, f)) => {
            let text = match t {
                Err(text) => text,
                Ok(_) => match s {
                    Err(text) => text,
                    Ok(_) => f->Err_0,
                },
            };
            after == CpuLoad::Finished(Err(KpepError::SysctlError(text)))
        },
        (CpuLoad::CheckFile(cpu), CpuLoadEvent::FileExists(true)) => after matches CpuLoad::ReadFile {
            file,
            path,
        } && file == DatabaseFile::Exact && path@ == database_path(file_name(cpu)),
        (CpuLoad::CheckFile(cpu), CpuLoadEvent::FileExists(false)) => after
            == CpuLoad::ListDirectory(cpu),
        (CpuLoad::ListDirectory(cpu), CpuLoadEvent::Directory(names)) => match finds(
            cpu,
            false,
            names@,
        ) {
            Ok(DatabaseFile::Listed(index)) => after matches CpuLoad::ReadFile { file, path } && file
                == DatabaseFile::Listed(index) && path@ == database_path(names@[index as int]@),
            Ok(DatabaseFile::Exact) => false,
            Err(error) => after == CpuLoad::Finished(Err(error)),
        },
        (CpuLoad::ReadFile { path, .. }, CpuLoadEvent::Contents(contents)) => after matches
            CpuLoad::Finished(result) && loads_as(path@, contents_model(contents), result),
        (before, _) => after == before,
    }
}

proof fn lemma_first_substitute(cpu: CpuId, names: Seq<String>, from: nat)
    ensures
        match first_substitute(cpu, names, from) {
            Some(index) => from <= index < names.len() && is_substitute(cpu, names[index as int]@)
                && forall|k: int|
                from <= k < index ==> !is_substitute(cpu, (#[trigger] names[k])@),
            None => forall|k: int|
                from <= k < names.len() ==> !is_substitute(cpu, (#[trigger] names[k])@),
        },
    decreases names.len() - from,
{
    if from < names.len() && !is_substitute(cpu, names[from as int]@) {
        lemma_first_substitute(cpu, names, from + 1);
    }
}

impl KpepDatabase {
    /// Loads the database of the running CPU, one step at a time.
    ///
    /// Identifies the CPU, looks for its database file, or for a substitute in
    /// the directory where that is missing, and reads it.
    pub fn load_current_cpu(state: CpuLoad, event: CpuLoadEvent) -> (next: CpuLoad)
        ensures
            load_step(state, event, next),
    {
        match (state, event) {
            (
                CpuLoad::ReadCpuInfo,
                CpuLoadEvent::CpuInfo(cpu_type, cpu_subtype, cpu_family),
            ) => match read_cpu_info(cpu_type, cpu_subtype, cpu_family) {
                Ok(cpu) => CpuLoad::CheckFile(cpu),
                Err(error) => CpuLoad::Finished(Err(error)),
            },
            (CpuLoad::CheckFile(cpu), CpuLoadEvent::FileExists(exists)) => if exists {
                CpuLoad::ReadFile {
                    file: DatabaseFile::Exact,
                    path: database_path_text(cpu.file_name().as_str()),
                }
            } else {
                CpuLoad::ListDirectory(cpu)
            },
            (CpuLoad::ListDirectory(cpu), CpuLoadEvent::Directory(names)) => {
                proof {
                    lemma_first_substitute(cpu, names@, 0);
                }
                match find_database_path(cpu, false, &names) {
                    Ok(DatabaseFile::Listed(index)) => CpuLoad::ReadFile {
                        file: DatabaseFile::Listed(index),
                        path: database_path_text(names[index].as_str()),
                    },
                    Ok(DatabaseFile::Exact) => CpuLoad::ListDirectory(cpu),
                    Err(error) => CpuLoad::Finished(Err(error)),
                }
            },
            (CpuLoad::ReadFile { path, .. }, CpuLoadEvent::Contents(contents)) => CpuLoad::Finished(
                KpepDatabase::load_from_path(path, contents),
            ),
            (state, _) => state,
        }
    }
}

/// How many steps a loading has behind it at least.
pub open spec fn load_progress(state: CpuLoad) -> nat {
    match state {
        CpuLoad::ReadCpuInfo => 0,
        CpuLoad::CheckFile(_) => 1,
        CpuLoad::ListDirectory(_) => 2,
        CpuLoad::ReadFile { .. } => 3,
        CpuLoad::Finished(_) => 4,
    }
}

/// Whether `event` is what the state waits for.
pub open spec fn awaits(state: CpuLoad, event: CpuLoadEvent) -> bool {
    match (state, event) {
        (CpuLoad::ReadCpuInfo, CpuLoadEvent::CpuInfo(_, _, _)) => true,
        (CpuLoad::CheckFile(_), CpuLoadEvent::FileExists(_)) => true,
        (CpuLoad::ListDirectory(_), CpuLoadEvent::Directory(_)) => true,
        (CpuLoad::ReadFile { .. }, CpuLoadEvent::Contents(_)) => true,
        _ => false,
    }
}

/// Law: an awaited event takes a loading further, so that it ends after at
/// most four of them; any other event leaves it as it is.
pub proof fn law_load_progresses(before: CpuLoad, event: CpuLoadEvent, after: CpuLoad)
    requires
        load_step(before, event, after),
    ensures
        awaits(before, event) ==> load_progress(before) < load_progress(after) <= 4,
        !awaits(before, event) ==> after == before,
{
}

/// Law: where the file with the CPU's own name exists, that file is loaded,
/// and the directory is not asked for.
pub proof fn law_exact_file_is_loaded(
    cpu: CpuId,
    contents: Result<Vec<u8>, String>,
    identified: CpuLoad,
    found: CpuLoad,
    loaded: CpuLoad,
)
    requires
        load_step(
            CpuLoad::ReadCpuInfo,
            CpuLoadEvent::CpuInfo(Ok(cpu.cpu_type), Ok(cpu.cpu_subtype), Ok(cpu.cpu_family)),
            identified,
        ),
        load_step(identified, CpuLoadEvent::FileExists(true), found),
        load_step(found, CpuLoadEvent::Contents(contents), loaded),
    ensures
        loaded matches CpuLoad::Finished(result) && loads_as(
            database_path(file_name(cpu)),
            contents_model(contents),
            result,
        ),
{
}

/// Law: where the file with the CPU's own name is missing, the first file of
/// the directory whose name fits the CPU's type and subtype is loaded; where
/// none fits, the database is not found.
pub proof fn law_substitute_is_loaded(
    cpu: CpuId,
    names: Vec<String>,
    contents: Result<Vec<u8>, String>,
    missing: CpuLoad,
    listed: CpuLoad,
    loaded: CpuLoad,
)
    requires
        load_step(CpuLoad::CheckFile(cpu), CpuLoadEvent::FileExists(false), missing),
        load_step(missing, CpuLoadEvent::Directory(names), listed),
        load_step(listed, CpuLoadEvent::Contents(contents), loaded),
    ensures
        match first_substitute(cpu, names@, 0) {
            Some(index) => is_substitute(cpu, names@[index as int]@) && (forall|k: int|
                0 <= k < index ==> !is_substitute(cpu, (#[trigger] names@[k])@)) && (loaded matches
                CpuLoad::Finished(result) && loads_as(
                database_path(names@[index as int]@),
                contents_model(contents),
                result,
            )),
            None => (forall|k: int|
                0 <= k < names@.len() ==> !is_substitute(cpu, (#[trigger] names@[k])@)) && loaded
                == CpuLoad::Finished(
                Err(
                    KpepError::DatabaseNotFound {
                        cpu_type: cpu.cpu_type,
                        cpu_subtype: cpu.cpu_subtype,
                        cpu_family: cpu.cpu_family,
                    },
                ),
            ),
        },
{
    lemma_first_substitute(cpu, names@, 0);
    assert(names@.len() == names.len());
}

} // verus!
