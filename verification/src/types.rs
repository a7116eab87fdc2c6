//! Value types shared by the migration sources and the runner, and the
//! `MigrationSource` abstraction that discovers migrations.

use vstd::prelude::*;

verus! {

/// True when `name` begins with an ASCII decimal digit. Discovery ignores
/// every entry whose name does not: digit (or timestamp) prefixes are what
/// make migration names sort in execution order.
pub open spec fn digit_prefixed(name: Seq<char>) -> bool {
    name.len() > 0 && '0' <= name[0] <= '9'
}

/// The kind of migration found in a migration source.
#[derive(Debug, Clone, Copy, PartialEq, Eq, Structural)]
pub enum MigrationKind {
    /// A migration stored as a single script file (up-only).
    File,
    /// A migration stored as a directory with an up script and, optionally,
    /// a down script.
    Paired,
}

/// A migration entry found in a migration source.
///
/// `name` is the file name (for `File` migrations) or directory name (for
/// `Paired` migrations), read verbatim from the backing store; it is both
/// the sort key that establishes execution order and the ledger key. A
/// source must not return two entries with the same name.
#[derive(Debug, Clone, PartialEq, Eq)]
pub struct Migration {
    /// The migration's file or directory name (e.g. `001_init.surql`).
    pub name: String,
    /// How the migration is stored: `File` or `Paired`.
    pub kind: MigrationKind,
}

/// A persisted row of the ledger table: one applied migration.
///
/// `id` is the database-assigned identity of the row, carried as its
/// textual form; the runner never reads it. `name` is the migration name
/// that was applied.
#[derive(Debug, Clone, PartialEq, Eq)]
pub struct MigrationRecord {
    /// The database record id assigned to this ledger row.
    pub id: String,
    /// The applied migration's name.
    pub name: String,
}

/// Why a migration operation failed.
#[derive(Debug, Clone, PartialEq, Eq)]
pub enum MigrationError {
    /// A script could not be read or decoded.
    Io(String),
    /// An expected up or down script is missing for a paired migration.
    NotFound(String),
    /// The database reported a genuine failure while executing a script
    /// (transaction-cascade noise already filtered out).
    Execution(String),
    /// The ledger could not be read or written.
    Ledger(String),
}

impl MigrationError {
    /// The human-readable message carried by this error.
    pub fn message(&self) -> (r: &String)
        ensures
            r@ == self.spec_message(),
    {
        match self {
            MigrationError::Io(m) => m,
            MigrationError::NotFound(m) => m,
            MigrationError::Execution(m) => m,
            MigrationError::Ledger(m) => m,
        }
    }

    /// The message carried by this error, whatever its kind.
    pub open spec fn spec_message(&self) -> Seq<char> {
        match self {
            MigrationError::Io(m) => m@,
            MigrationError::NotFound(m) => m@,
            MigrationError::Execution(m) => m@,
            MigrationError::Ledger(m) => m@,
        }
    }
}

/// A source of migrations: some backing store (a directory on disk, an
/// embedded asset tree) that can enumerate migration units and load their
/// script bodies.
///
/// `list` establishes the order in which migrations are applied. A source
/// must not return two entries with the same name.
pub trait MigrationSource {
    /// List available migrations, in application order. Every returned
    /// name begins with an ASCII digit: other entries are invisible to
    /// discovery.
    fn list(&self) -> (r: Result<Vec<Migration>, MigrationError>)
        ensures
            r matches Ok(ms) ==> forall|i: int|
                0 <= i < ms@.len() ==> digit_prefixed(#[trigger] ms@[i].name@),
    ;

    /// Load the script that applies `migration`.
    fn get_up(&self, migration: &Migration) -> (r: Result<String, MigrationError>);

    /// Load the script that reverts `migration`, if there is one. A `File`
    /// migration is up-only by contract: the result is then `Ok(None)`,
    /// never an error.
    fn get_down(&self, migration: &Migration) -> (r: Result<
        Option<String>,
        MigrationError,
    >)
        ensures
            migration.kind == MigrationKind::File ==> r == Ok::<
                Option<String>,
                MigrationError,
            >(None),
    ;
}

} // verus!
