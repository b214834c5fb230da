//! Bootstrap policy for the one-shot "initialize schema" mode: setup onto an
//! existing database file is refused, so live data is never clobbered, and
//! the process ends with a status that tells success from any failure.

use vstd::prelude::*;

verus! {

/// How a schema-setup run ended.
pub enum SetupOutcome {
    /// The schema was created in a fresh database file.
    SchemaCreated,
    /// The target database file already existed; nothing was touched.
    FileAlreadyExists,
    /// Creating the file or the schema failed.
    SetupFailed,
}

impl SetupOutcome {
    /// The process exit status for this outcome: 0 on success, 1 on any
    /// failure, the refused existing file included.
    pub fn exit_status(&self) -> (s: i32)
        ensures
            self is SchemaCreated ==> s == 0,
            !(self is SchemaCreated) ==> s == 1,
    {
        match self {
            SetupOutcome::SchemaCreated => 0,
            SetupOutcome::FileAlreadyExists => 1,
            SetupOutcome::SetupFailed => 1,
        }
    }
}

/// Decides whether schema setup may proceed: only onto a database file that
/// does not exist yet.
pub fn setup_may_proceed(db_file_exists: bool) -> (r: bool)
    ensures
        r == !db_file_exists,
{
    !db_file_exists
}

} // verus!
