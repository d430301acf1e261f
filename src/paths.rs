//! Where the store, its snapshot and its exported copy live.
use vstd::prelude::*;
use crate::text::occurs_here;

verus! {

/// Name of the store file inside a folder.
pub const STORE_FILE_NAME: &'static str = "mangas.csv";

/// Added to the store's path to name its snapshot.
pub const BACKUP_SUFFIX: &'static str = ".bak";

/// How a snapshot's path must end.
pub const BACKUP_ENDING: &'static str = ".csv.bak";

/// A copy of one file onto another, to be made by the caller.
#[derive(Debug)]
pub struct FileCopy {
    pub from: String,
    pub to: String,
}

/// Why a copy cannot be planned.
#[derive(Clone, Copy, Debug, PartialEq, Eq, Structural)]
pub enum PathError {
    /// No folder was given to export to.
    NoExportTarget,
    /// The path given to restore from does not end with `.csv.bak`.
    NotABackup,
}

/// `name` inside the folder `dir`.
pub open spec fn join_path(dir: Seq<char>, name: Seq<char>) -> Seq<char> {
    if dir.len() == 0 {
        name
    } else if dir.last() == '/' {
        dir + name
    } else {
        dir + seq!['/'] + name
    }
}

/// The snapshot of the store at `store`: the same path with `.bak` added.
pub fn backup_file(store: &str) -> (r: FileCopy)
    ensures
        r.from@ == store@,
        r.to@ == store@ + BACKUP_SUFFIX@,
{
    let mut to = String::new();
    to.append(store);
    to.append(BACKUP_SUFFIX);
    FileCopy { from: store.to_string(), to }
}

/// Restoring from the snapshot at `backup`: it must end with `.csv.bak`,
/// and it is copied onto the same path without `.bak`.
pub fn restore_file(backup: &str) -> (r: Result<FileCopy, PathError>)
    ensures
        ({
            let n = backup@.len();
            let ok = n >= BACKUP_ENDING@.len() && backup@.skip(n - BACKUP_ENDING@.len())
                == BACKUP_ENDING@;
            &&& r is Ok == ok
            &&& r matches Ok(c) ==> c.from@ == backup@ && c.to@ == backup@.take(n - BACKUP_SUFFIX@.len())
            &&& r matches Err(e) ==> e == PathError::NotABackup
        }),
{
    proof {
        reveal_strlit(".csv.bak");
        reveal_strlit(".bak");
    }
    let n = backup.unicode_len();
    if n < 8 || !occurs_here(backup, BACKUP_ENDING, n - 8) {
        if n >= 8 {
            assert(backup@.subrange(n - 8, n as int) =~= backup@.skip(n - 8));
        }
        return Err(PathError::NotABackup);
    }
    assert(backup@.subrange(n - 8, n as int) =~= backup@.skip(n - 8));
    Ok(FileCopy { from: backup.to_string(), to: backup.substring_char(0, n - 4).to_string() })
}

/// Exporting the store at `store` into the folder `dir`, as `mangas.csv`.
pub fn export_file(store: &str, dir: &str) -> (r: FileCopy)
    ensures
        r.from@ == store@,
        r.to@ == join_path(dir@, STORE_FILE_NAME@),
{
    let mut to = String::new();
    let n = dir.unicode_len();
    if n > 0 {
        to.append(dir);
        if dir.get_char(n - 1) != '/' {
            to.append("/");
            proof {
                reveal_strlit("/");
            }
        }
    }
    to.append(STORE_FILE_NAME);
    assert(to@ =~= join_path(dir@, STORE_FILE_NAME@));
    FileCopy { from: store.to_string(), to }
}

/// Exporting the store at `store` into the folder `to`; without a folder
/// there is nothing to export to.
pub fn export(store: &str, to: Option<&str>) -> (r: Result<FileCopy, PathError>)
    ensures
        match to {
            Some(dir) => r matches Ok(c) && c.from@ == store@ && c.to@ == join_path(
                dir@,
                STORE_FILE_NAME@,
            ),
            None => r == Err::<FileCopy, _>(PathError::NoExportTarget),
        },
{
    match to {
        Some(dir) => Ok(export_file(store, dir)),
        None => Err(PathError::NoExportTarget),
    }
}

/// Undoing the last write of the store from its snapshot at `from`.
pub fn undo(from: &str) -> (r: Result<FileCopy, PathError>)
    ensures
        ({
            let n = from@.len();
            let ok = n >= BACKUP_ENDING@.len() && from@.skip(n - BACKUP_ENDING@.len())
                == BACKUP_ENDING@;
            &&& r is Ok == ok
            &&& r matches Ok(c) ==> c.from@ == from@ && c.to@ == from@.take(n - BACKUP_SUFFIX@.len())
            &&& r matches Err(e) ==> e == PathError::NotABackup
        }),
{
    restore_file(from)
}

} // verus!
