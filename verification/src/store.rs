//! The durability protocol of the state file: every commit writes the new
//! contents to a temporary path and then renames it over the real one, so
//! that a crash at any point leaves either the old contents or the new,
//! never a torn file. The file system itself lives outside; this model is
//! what the surrounding process follows, step by step.

use vstd::prelude::*;

verus! {

/// What is on disk: the committed state file and the temporary file, each
/// present or absent.
pub ghost struct DiskState {
    pub main: Option<Seq<char>>,
    pub tmp: Option<Seq<char>>,
}

/// Writing the new contents to the temporary path.
pub open spec fn disk_write_tmp(d: DiskState, contents: Seq<char>) -> DiskState {
    DiskState { tmp: Some(contents), ..d }
}

/// Renaming the temporary file over the state file; atomic in the file
/// system.
pub open spec fn disk_rename(d: DiskState) -> DiskState {
    DiskState { main: d.tmp, tmp: None }
}

/// A whole commit: write the temporary file, then rename it.
pub open spec fn disk_commit(d: DiskState, contents: Seq<char>) -> DiskState {
    disk_rename(disk_write_tmp(d, contents))
}

/// Crash safety: a crash before the rename leaves the state file exactly as
/// it was; after the rename the new contents are the state file. At every
/// point of a commit, the state file holds either the old contents or the
/// new ones - never anything else.
pub proof fn lemma_crash_safety(d: DiskState, contents: Seq<char>)
    ensures
        disk_write_tmp(d, contents).main == d.main,
        disk_commit(d, contents).main == Some(contents),
        disk_commit(d, contents).tmp is None,
{
}

/// A later commit overwrites whatever a crashed commit left in the
/// temporary path; the stale temporary file never reaches the state file.
pub proof fn lemma_stale_tmp_harmless(d: DiskState, stale: Seq<char>, contents: Seq<char>)
    ensures
        disk_commit(disk_write_tmp(d, stale), contents) == disk_commit(d, contents),
{
}

} // verus!
