//! The migration runner: computes the pending and revert sets from a
//! discovery listing and the applied-state ledger, wraps each script in a
//! transaction, and filters transaction-cascade noise out of the database's
//! error report.
//!
//! The runner decides; it does not talk to a database itself. Each of
//! `up` and `down` is a small session: the caller asks for the next step,
//! performs the database work, and hands the outcome back.

use vstd::prelude::*;
use vstd::string::StringExecFns;

use crate::text::{contains_substring, has_substring};
use crate::types::{digit_prefixed, Migration, MigrationError, MigrationRecord, MigrationSource};

verus! {

broadcast use
    vstd::seq_lib::group_filter_ensures,
    Seq::lemma_filter_push,
    Seq::filter_distributes_over_add,
    Seq::lemma_push_map_commute,
;

/// The names of a migration listing, in the same order.
pub open spec fn spec_names(ms: Seq<Migration>) -> Seq<Seq<char>> {
    ms.map_values(|m: Migration| m.name@)
}

/// The pending set: discovered migrations whose name is not yet in the
/// ledger, in discovery order.
pub open spec fn spec_pending(discovered: Seq<Migration>, applied: Seq<Seq<char>>) -> Seq<
    Migration,
> {
    discovered.filter(|m: Migration| !applied.contains(m.name@))
}

/// Whether `name` occurs in the list of applied names.
pub fn contains_name(applied: &Vec<String>, name: &String) -> (r: bool)
    ensures
        r == applied.deep_view().contains(name@),
{
    let mut i: usize = 0;
    while i < applied.len()
        invariant
            i <= applied@.len(),
            forall|k: int| 0 <= k < i ==> applied.deep_view()[k] != name@,
        decreases applied@.len() - i,
    {
        if applied[i] == *name {
            proof {
                assert(applied.deep_view()[i as int] == name@);
            }
            return true;
        }
        i = i + 1;
    }
    false
}

/// Computes the pending set: the discovered migrations not recorded in the
/// ledger, in discovery order.
pub fn plan_pending(discovered: &Vec<Migration>, applied: &Vec<String>) -> (r: Vec<Migration>)
    ensures
        r@ == spec_pending(discovered@, applied.deep_view()),
{
    let pred = Ghost(|m: Migration| !applied.deep_view().contains(m.name@));
    let mut out: Vec<Migration> = Vec::new();
    let mut i: usize = 0;
    proof {
        assert(discovered@.take(0) =~= Seq::<Migration>::empty());
        assert(out@ =~= discovered@.take(0).filter(pred@));
    }
    while i < discovered.len()
        invariant
            i <= discovered@.len(),
            pred@ == (|m: Migration| !applied.deep_view().contains(m.name@)),
            out@ == discovered@.take(i as int).filter(pred@),
        decreases discovered@.len() - i,
    {
        let in_ledger = contains_name(applied, &discovered[i].name);
        if !in_ledger {
            let m = Migration { name: discovered[i].name.clone(), kind: discovered[i].kind };
            proof {
                assert(m == discovered@[i as int]);
            }
            out.push(m);
        }
        proof {
            assert(discovered@.take(i + 1) =~= discovered@.take(i as int).push(
                discovered@[i as int],
            ));
            assert(discovered@.take(i + 1).filter(pred@) == discovered@.take(i as int).push(
                discovered@[i as int],
            ).filter(pred@));
        }
        i = i + 1;
    }
    proof {
        assert(discovered@.take(discovered@.len() as int) =~= discovered@);
    }
    out
}

/// The script text the runner executes for one migration: the script body
/// wrapped in a single transaction.
pub open spec fn spec_wrap_tx(content: Seq<char>) -> Seq<char> {
    "BEGIN TRANSACTION;\n"@ + content + "\nCOMMIT TRANSACTION;"@
}

/// Wraps a migration script in one database transaction.
pub fn wrap_transaction(content: &str) -> (r: String)
    ensures
        r@ == spec_wrap_tx(content@),
{
    let mut s = String::from_str("BEGIN TRANSACTION;\n");
    s.append(content);
    s.append("\nCOMMIT TRANSACTION;");
    s
}

/// The message the database attaches to statements it skipped because the
/// surrounding transaction had already failed. Errors carrying it are
/// cascade artifacts, not independent failures.
pub open spec fn cascade_marker() -> Seq<char> {
    "The query was not executed due to a failed transaction"@
}

/// The genuine errors among a batch of error messages: those that are not
/// transaction-cascade artifacts, in their original order.
pub open spec fn spec_genuine_errors(errors: Seq<Seq<char>>) -> Seq<Seq<char>> {
    errors.filter(|e: Seq<char>| !has_substring(e, cascade_marker()))
}

/// Finds the first genuine error in a batch of error messages, dropping
/// transaction-cascade artifacts. Returns `None` when every reported error
/// was cascade noise (or the batch was empty).
pub fn first_genuine_error(errors: &Vec<String>) -> (r: Option<String>)
    ensures
        match r {
            Some(e) => {
                &&& spec_genuine_errors(errors.deep_view()).len() > 0
                &&& e@ == spec_genuine_errors(errors.deep_view())[0]
            },
            None => spec_genuine_errors(errors.deep_view()).len() == 0,
        },
{
    let marker: &str = "The query was not executed due to a failed transaction";
    let pred = Ghost(|e: Seq<char>| !has_substring(e, cascade_marker()));
    let ghost all = errors.deep_view();
    let mut i: usize = 0;
    proof {
        assert(all.take(0) =~= Seq::<Seq<char>>::empty());
        assert(all.take(0).filter(pred@) =~= Seq::<Seq<char>>::empty());
    }
    while i < errors.len()
        invariant
            i <= errors@.len(),
            all == errors.deep_view(),
            marker@ == cascade_marker(),
            pred@ == (|e: Seq<char>| !has_substring(e, cascade_marker())),
            all.take(i as int).filter(pred@) =~= Seq::<Seq<char>>::empty(),
        decreases errors@.len() - i,
    {
        let is_cascade = contains_substring(errors[i].as_str(), marker);
        proof {
            assert(all[i as int] == errors@[i as int]@);
            assert(all.take(i + 1) =~= all.take(i as int).push(all[i as int]));
            assert(all.take(i + 1).filter(pred@) == all.take(i as int).push(
                all[i as int],
            ).filter(pred@));
        }
        if !is_cascade {
            proof {
                assert(pred@(all[i as int]));
                assert(all.take(i + 1).filter(pred@) =~= seq![all[i as int]]);
                assert(all =~= all.take(i + 1) + all.skip(i + 1));
                assert(spec_genuine_errors(all) =~= all.take(i + 1).filter(pred@) + all.skip(
                    i + 1,
                ).filter(pred@));
                assert(spec_genuine_errors(all)[0] == all[i as int]);
            }
            return Some(errors[i].clone());
        }
        i = i + 1;
    }
    proof {
        assert(all.take(errors@.len() as int) =~= all);
    }
    None
}

/// The applied names a ledger read yields: the `name` of each row, in row
/// order, blank names dropped. A failed read counts as an empty ledger.
pub open spec fn spec_applied_names(rows: Seq<MigrationRecord>) -> Seq<Seq<char>> {
    rows.map_values(|r: MigrationRecord| r.name@).filter(|n: Seq<char>| n.len() > 0)
}

/// Extracts the applied migration names from the rows a ledger read
/// returned, or from nothing when the read failed: a ledger that cannot be
/// read counts as empty rather than aborting the run.
pub fn applied_names(read: Option<Vec<MigrationRecord>>) -> (r: Vec<String>)
    ensures
        r.deep_view() == match read {
            Some(rows) => spec_applied_names(rows@),
            None => Seq::<Seq<char>>::empty(),
        },
{
    let pred = Ghost(|n: Seq<char>| n.len() > 0);
    let f = Ghost(|rec: MigrationRecord| rec.name@);
    let mut out: Vec<String> = Vec::new();
    match read {
        None => {
            proof {
                assert(out.deep_view() =~= Seq::<Seq<char>>::empty());
            }
            out
        },
        Some(rows) => {
            let mut i: usize = 0;
            proof {
                assert(rows@.take(0) =~= Seq::<MigrationRecord>::empty());
                assert(out.deep_view() =~= rows@.take(0).map_values(f@).filter(pred@));
            }
            while i < rows.len()
                invariant
                    i <= rows@.len(),
                    pred@ == (|n: Seq<char>| n.len() > 0),
                    f@ == (|rec: MigrationRecord| rec.name@),
                    out.deep_view() =~= rows@.take(i as int).map_values(f@).filter(pred@),
                decreases rows@.len() - i,
            {
                let ghost prev = out.deep_view();
                if !rows[i].name.as_str().is_empty() {
                    out.push(rows[i].name.clone());
                    proof {
                        assert(out.deep_view() =~= prev.push(rows@[i as int].name@));
                    }
                }
                proof {
                    assert(rows@.take(i + 1) =~= rows@.take(i as int).push(rows@[i as int]));
                    assert(rows@.take(i + 1).map_values(f@) == rows@.take(i as int).push(
                        rows@[i as int],
                    ).map_values(f@));
                    assert(rows@.take(i + 1).map_values(f@).filter(pred@) == rows@.take(
                        i as int,
                    ).map_values(f@).push(f@(rows@[i as int])).filter(pred@));
                }
                i = i + 1;
            }
            proof {
                assert(rows@.take(rows@.len() as int) =~= rows@);
            }
            out
        },
    }
}

} // verus!

verus! {

/// One unit of database work: run `tx` (a transaction-wrapped script) on
/// behalf of the migration called `name`.
#[derive(Debug, Clone, PartialEq, Eq)]
pub struct ScriptJob {
    /// The migration the script belongs to: its ledger key.
    pub name: String,
    /// The full transaction text to execute.
    pub tx: String,
}

/// Checks the database's error report for one executed script: cascade
/// artifacts are dropped, and the first genuine error, if any, aborts the
/// operation.
pub fn check_execution(errors: &Vec<String>) -> (r: Result<(), MigrationError>)
    ensures
        match r {
            Ok(_) => spec_genuine_errors(errors.deep_view()).len() == 0,
            Err(e) => {
                &&& spec_genuine_errors(errors.deep_view()).len() > 0
                &&& e matches MigrationError::Execution(m) && m@ == spec_genuine_errors(
                    errors.deep_view(),
                )[0]
            },
        },
{
    match first_genuine_error(errors) {
        None => Ok(()),
        Some(e) => Err(MigrationError::Execution(e)),
    }
}

/// A migration runner: discovers migrations through `source`, and walks a
/// caller owning the database connection through applying (`up_begin`,
/// `up_next`) or reverting (`down_begin`, `down_next`) them, one
/// transaction at a time.
pub struct MigrationRunner<S> {
    /// Migration discovery/source implementation (disk, embedded, ...).
    pub source: S,
}

/// The state of one `up` run: the pending migrations, how many have been
/// applied and recorded so far, and whether the ledger record for the
/// migration just executed is still owed.
pub struct UpSession {
    pending: Vec<Migration>,
    idx: usize,
    awaiting_record: bool,
}

impl UpSession {
    /// The pending migrations this session applies, in order.
    pub closed spec fn pending_migrations(&self) -> Seq<Migration> {
        self.pending@
    }

    /// How many pending migrations have been applied and recorded.
    pub closed spec fn spec_idx(&self) -> int {
        self.idx as int
    }

    /// Whether a script has been executed whose ledger record is still owed.
    pub closed spec fn spec_awaiting(&self) -> bool {
        self.awaiting_record
    }

    /// Session well-formedness.
    pub closed spec fn wf(&self) -> bool {
        &&& self.idx <= self.pending@.len()
        &&& (self.awaiting_record ==> self.idx < self.pending@.len())
    }

    /// The names recorded in the ledger by this session so far: the names
    /// of the pending migrations already applied, in application order.
    pub closed spec fn recorded_names(&self) -> Seq<Seq<char>> {
        spec_names(self.pending@.take(self.idx as int))
    }

    /// How many migrations this session has yet to apply.
    pub fn remaining(&self) -> (n: usize)
        requires
            self.wf(),
        ensures
            n == self.pending_migrations().len() - self.spec_idx(),
    {
        self.pending.len() - self.idx
    }

    /// Whether every pending migration has been applied and recorded.
    pub fn is_done(&self) -> (r: bool)
        requires
            self.wf(),
        ensures
            r == (self.spec_idx() == self.pending_migrations().len() && !self.spec_awaiting()),
    {
        self.idx == self.pending.len() && !self.awaiting_record
    }

    /// Digest the database's error report for the script just executed.
    /// When no genuine error remains, the migration counts as applied: the
    /// caller must now insert a ledger record for the returned name and
    /// acknowledge it with `recorded`. A genuine error aborts the run and
    /// leaves the session where it was.
    pub fn script_executed(&mut self, errors: &Vec<String>) -> (r: Result<String, MigrationError>)
        requires
            old(self).wf(),
            !old(self).spec_awaiting(),
            old(self).spec_idx() < old(self).pending_migrations().len(),
        ensures
            final (self).pending_migrations() == old(self).pending_migrations(),
            final (self).spec_idx() == old(self).spec_idx(),
            final (self).wf(),
            match r {
                Ok(name) => {
                    &&& spec_genuine_errors(errors.deep_view()).len() == 0
                    &&& name@ == old(self).pending_migrations()[old(self).spec_idx()].name@
                    &&& final (self).spec_awaiting()
                },
                Err(e) => {
                    &&& spec_genuine_errors(errors.deep_view()).len() > 0
                    &&& e matches MigrationError::Execution(m) && m@ == spec_genuine_errors(
                        errors.deep_view(),
                    )[0]
                    &&& !final (self).spec_awaiting()
                },
            },
    {
        match check_execution(errors) {
            Ok(_) => {
                self.awaiting_record = true;
                Ok(self.pending[self.idx].name.clone())
            },
            Err(e) => Err(e),
        }
    }

    /// Acknowledge that the ledger record for the migration just applied
    /// has been inserted: the session moves to the next pending migration.
    pub fn recorded(&mut self)
        requires
            old(self).wf(),
            old(self).spec_awaiting(),
        ensures
            final (self).wf(),
            final (self).pending_migrations() == old(self).pending_migrations(),
            final (self).spec_idx() == old(self).spec_idx() + 1,
            !final (self).spec_awaiting(),
            final (self).recorded_names() == old(self).recorded_names().push(
                old(self).pending_migrations()[old(self).spec_idx()].name@,
            ),
    {
        proof {
            let p = self.pending@;
            let i = self.idx as int;
            assert(self.pending.len() == p.len());
            assert(i < p.len());
            assert(p.take(i + 1) =~= p.take(i).push(p[i]));
            assert(spec_names(p.take(i + 1)) =~= spec_names(p.take(i)).push(p[i].name@));
        }
        self.idx = self.idx + 1;
        self.awaiting_record = false;
    }
}

impl<S: MigrationSource> MigrationRunner<S> {
    /// Create a runner that discovers migrations through `source`.
    pub fn new(source: S) -> (r: Self)
        ensures
            r.source == source,
    {
        MigrationRunner { source }
    }

    /// Begin an `up` run: discover migrations and compute the pending set
    /// against the applied names read from the ledger.
    pub fn up_begin(&self, applied: &Vec<String>) -> (r: Result<UpSession, MigrationError>)
        ensures
            r matches Ok(s) ==> {
                &&& s.wf()
                &&& s.spec_idx() == 0
                &&& !s.spec_awaiting()
                &&& s.recorded_names() == Seq::<Seq<char>>::empty()
                &&& exists|ds: Seq<Migration>|
                    {
                        &&& (forall|i: int|
                            0 <= i < ds.len() ==> digit_prefixed(#[trigger] ds[i].name@))
                        &&& s.pending_migrations() == #[trigger] spec_pending(
                            ds,
                            applied.deep_view(),
                        )
                    }
            },
    {
        let discovered = match self.source.list() {
            Ok(ms) => ms,
            Err(e) => {
                return Err(e);
            },
        };
        let pending = plan_pending(&discovered, applied);
        let s = UpSession { pending, idx: 0, awaiting_record: false };
        proof {
            assert(s.pending@.take(0) =~= Seq::<Migration>::empty());
            assert(spec_names(Seq::<Migration>::empty()) =~= Seq::<Seq<char>>::empty());
            assert(s.pending_migrations() == spec_pending(discovered@, applied.deep_view()));
        }
        Ok(s)
    }

    /// The next script to execute: the pending migration at the session's
    /// cursor, its up script wrapped in one transaction. `Ok(None)` means
    /// every pending migration has been applied. Loading a missing or
    /// unreadable script aborts the run with the source's error.
    pub fn up_next(&self, s: &UpSession) -> (r: Result<Option<ScriptJob>, MigrationError>)
        requires
            s.wf(),
            !s.spec_awaiting(),
        ensures
            match r {
                Ok(Some(job)) => {
                    &&& s.spec_idx() < s.pending_migrations().len()
                    &&& job.name@ == s.pending_migrations()[s.spec_idx()].name@
                    &&& exists|content: Seq<char>| job.tx@ == spec_wrap_tx(content)
                },
                Ok(None) => s.spec_idx() == s.pending_migrations().len(),
                Err(_) => s.spec_idx() < s.pending_migrations().len(),
            },
    {
        if s.idx == s.pending.len() {
            return Ok(None);
        }
        let migration = &s.pending[s.idx];
        let content = match self.source.get_up(migration) {
            Ok(c) => c,
            Err(e) => {
                return Err(e);
            },
        };
        let tx = wrap_transaction(content.as_str());
        Ok(Some(ScriptJob { name: migration.name.clone(), tx }))
    }
}

} // verus!

verus! {

/// Whether some discovered migration bears `name`.
pub open spec fn spec_in_discovery(discovered: Seq<Migration>, name: Seq<char>) -> bool {
    exists|i: int| 0 <= i < discovered.len() && (#[trigger] discovered[i].name@) == name
}

/// The names `down` reverts, in revert order: the applied names still
/// present in the discovery listing (ledger rows whose migration has since
/// disappeared from the source are silently skipped), reversed so that the
/// most recently applied is reverted first.
pub open spec fn spec_down_names(discovered: Seq<Migration>, applied: Seq<Seq<char>>) -> Seq<
    Seq<char>,
> {
    applied.filter(|n: Seq<char>| spec_in_discovery(discovered, n)).reverse()
}

/// Finds the first discovered migration named `name`, if any.
fn find_by_name(discovered: &Vec<Migration>, name: &String) -> (r: Option<Migration>)
    ensures
        match r {
            Some(m) => discovered@.contains(m) && m.name@ == name@,
            None => !spec_in_discovery(discovered@, name@),
        },
{
    let mut i: usize = 0;
    while i < discovered.len()
        invariant
            i <= discovered@.len(),
            forall|k: int| 0 <= k < i ==> (#[trigger] discovered@[k].name@) != name@,
        decreases discovered@.len() - i,
    {
        if discovered[i].name == *name {
            let m = Migration { name: discovered[i].name.clone(), kind: discovered[i].kind };
            proof {
                assert(m == discovered@[i as int]);
            }
            return Some(m);
        }
        i = i + 1;
    }
    None
}

/// Computes the revert list: the applied names still present in the
/// discovery listing, each resolved to its discovered migration, in
/// reverse ledger order (most recently applied first).
pub fn plan_down(discovered: &Vec<Migration>, applied: &Vec<String>) -> (r: Vec<Migration>)
    ensures
        spec_names(r@) == spec_down_names(discovered@, applied.deep_view()),
        forall|i: int| 0 <= i < r@.len() ==> discovered@.contains(#[trigger] r@[i]),
{
    let pred = Ghost(|n: Seq<char>| spec_in_discovery(discovered@, n));
    let ghost all = applied.deep_view();
    let mut retained: Vec<Migration> = Vec::new();
    let mut i: usize = 0;
    proof {
        assert(all.take(0) =~= Seq::<Seq<char>>::empty());
        assert(spec_names(retained@) =~= all.take(0).filter(pred@));
    }
    while i < applied.len()
        invariant
            i <= applied@.len(),
            all == applied.deep_view(),
            pred@ == (|n: Seq<char>| spec_in_discovery(discovered@, n)),
            spec_names(retained@) == all.take(i as int).filter(pred@),
            forall|k: int| 0 <= k < retained@.len() ==> discovered@.contains(
                #[trigger] retained@[k],
            ),
        decreases applied@.len() - i,
    {
        let ghost prev = retained@;
        let found = find_by_name(discovered, &applied[i]);
        match found {
            Some(m) => {
                proof {
                    assert(all[i as int] == applied@[i as int]@);
                    assert(pred@(all[i as int]));
                }
                retained.push(m);
                proof {
                    assert(spec_names(retained@) =~= spec_names(prev).push(all[i as int]));
                }
            },
            None => {
                proof {
                    assert(all[i as int] == applied@[i as int]@);
                    assert(!pred@(all[i as int]));
                }
            },
        }
        proof {
            assert(all.take(i + 1) =~= all.take(i as int).push(all[i as int]));
            assert(all.take(i + 1).filter(pred@) == all.take(i as int).push(
                all[i as int],
            ).filter(pred@));
        }
        i = i + 1;
    }
    proof {
        assert(all.take(applied@.len() as int) =~= all);
    }
    let mut out: Vec<Migration> = Vec::new();
    let mut j: usize = retained.len();
    while j > 0
        invariant
            j <= retained@.len(),
            out@.len() == retained@.len() - j,
            forall|k: int| 0 <= k < out@.len() ==> out@[k] == retained@[retained@.len() - 1 - k],
            forall|k: int| 0 <= k < retained@.len() ==> discovered@.contains(
                #[trigger] retained@[k],
            ),
        decreases j,
    {
        j = j - 1;
        let m = Migration { name: retained[j].name.clone(), kind: retained[j].kind };
        proof {
            assert(m == retained@[j as int]);
        }
        out.push(m);
    }
    proof {
        assert(out@ =~= retained@.reverse());
        assert(spec_names(out@) =~= spec_names(retained@).reverse());
        assert(forall|k: int|
            0 <= k < out@.len() ==> discovered@.contains(#[trigger] out@[k]));
    }
    out
}

/// The state of one `down` run: the migrations to revert, in revert order,
/// how many have been dealt with, and whether the ledger-row deletion for
/// the migration just reverted is still owed.
pub struct DownSession {
    to_revert: Vec<Migration>,
    idx: usize,
    awaiting_delete: bool,
}

/// What a `down` session asks its caller to do next.
#[derive(Debug, Clone, PartialEq, Eq)]
pub enum DownStep {
    /// Execute the job's transaction, then delete the ledger row for the
    /// job's name and acknowledge with `deleted`.
    Revert(ScriptJob),
    /// The named migration has no down script: report it and move on; its
    /// ledger row stays.
    Skip(String),
    /// Every revert has been dealt with.
    Done,
}

impl DownSession {
    /// The migrations this session reverts, in revert order.
    pub closed spec fn revert_list(&self) -> Seq<Migration> {
        self.to_revert@
    }

    /// How many entries of the revert list have been dealt with.
    pub closed spec fn spec_idx(&self) -> int {
        self.idx as int
    }

    /// Whether a revert script has run whose ledger-row deletion is owed.
    pub closed spec fn spec_awaiting(&self) -> bool {
        self.awaiting_delete
    }

    /// Session well-formedness.
    pub closed spec fn wf(&self) -> bool {
        &&& self.idx <= self.to_revert@.len()
        &&& (self.awaiting_delete ==> self.idx < self.to_revert@.len())
    }

    /// How many revert-list entries are still to be dealt with.
    pub fn remaining(&self) -> (n: usize)
        requires
            self.wf(),
        ensures
            n == self.revert_list().len() - self.spec_idx(),
    {
        self.to_revert.len() - self.idx
    }

    /// Whether every entry of the revert list has been dealt with.
    pub fn is_done(&self) -> (r: bool)
        requires
            self.wf(),
        ensures
            r == (self.spec_idx() == self.revert_list().len() && !self.spec_awaiting()),
    {
        self.idx == self.to_revert.len() && !self.awaiting_delete
    }

    /// Digest the database's error report for the revert script just
    /// executed. When no genuine error remains, the revert succeeded: the
    /// caller must now delete the ledger row for the returned name and
    /// acknowledge with `deleted`. A genuine error aborts the run, leaving
    /// the ledger row of the failed migration intact.
    pub fn script_executed(&mut self, errors: &Vec<String>) -> (r: Result<String, MigrationError>)
        requires
            old(self).wf(),
            old(self).spec_awaiting(),
        ensures
            final (self).revert_list() == old(self).revert_list(),
            final (self).spec_idx() == old(self).spec_idx(),
            final (self).wf(),
            match r {
                Ok(name) => {
                    &&& spec_genuine_errors(errors.deep_view()).len() == 0
                    &&& name@ == old(self).revert_list()[old(self).spec_idx()].name@
                    &&& final (self).spec_awaiting()
                },
                Err(e) => {
                    &&& spec_genuine_errors(errors.deep_view()).len() > 0
                    &&& e matches MigrationError::Execution(m) && m@ == spec_genuine_errors(
                        errors.deep_view(),
                    )[0]
                    &&& final (self).spec_awaiting()
                },
            },
    {
        match check_execution(errors) {
            Ok(_) => Ok(self.to_revert[self.idx].name.clone()),
            Err(e) => Err(e),
        }
    }

    /// Acknowledge that the ledger row for the migration just reverted has
    /// been deleted: the session moves to the next revert.
    pub fn deleted(&mut self)
        requires
            old(self).wf(),
            old(self).spec_awaiting(),
        ensures
            final (self).wf(),
            final (self).revert_list() == old(self).revert_list(),
            final (self).spec_idx() == old(self).spec_idx() + 1,
            !final (self).spec_awaiting(),
    {
        proof {
            assert(self.to_revert.len() == self.to_revert@.len());
        }
        self.idx = self.idx + 1;
        self.awaiting_delete = false;
    }
}

impl<S: MigrationSource> MigrationRunner<S> {
    /// Begin a `down` run: discover migrations and compute the revert list
    /// from the applied names read from the ledger.
    pub fn down_begin(&self, applied: &Vec<String>) -> (r: Result<DownSession, MigrationError>)
        ensures
            r matches Ok(s) ==> {
                &&& s.wf()
                &&& s.spec_idx() == 0
                &&& !s.spec_awaiting()
                &&& exists|ds: Seq<Migration>|
                    {
                        &&& (forall|i: int|
                            0 <= i < ds.len() ==> digit_prefixed(#[trigger] ds[i].name@))
                        &&& spec_names(s.revert_list()) == #[trigger] spec_down_names(
                            ds,
                            applied.deep_view(),
                        )
                    }
            },
    {
        let discovered = match self.source.list() {
            Ok(ms) => ms,
            Err(e) => {
                return Err(e);
            },
        };
        let to_revert = plan_down(&discovered, applied);
        let s = DownSession { to_revert, idx: 0, awaiting_delete: false };
        proof {
            assert(spec_names(s.revert_list()) == spec_down_names(
                discovered@,
                applied.deep_view(),
            ));
        }
        Ok(s)
    }

    /// The next revert step: load the down script of the revert-list entry
    /// at the session's cursor. A migration without a down script is
    /// skipped, not an error; a script that cannot be loaded aborts the
    /// run with the source's error.
    pub fn down_next(&self, s: &mut DownSession) -> (r: Result<DownStep, MigrationError>)
        requires
            old(s).wf(),
            !old(s).spec_awaiting(),
        ensures
            final (s).wf(),
            final (s).revert_list() == old(s).revert_list(),
            match r {
                Ok(DownStep::Done) => {
                    &&& old(s).spec_idx() == old(s).revert_list().len()
                    &&& final (s).spec_idx() == old(s).spec_idx()
                    &&& !final (s).spec_awaiting()
                },
                Ok(DownStep::Skip(name)) => {
                    &&& old(s).spec_idx() < old(s).revert_list().len()
                    &&& name@ == old(s).revert_list()[old(s).spec_idx()].name@
                    &&& final (s).spec_idx() == old(s).spec_idx() + 1
                    &&& !final (s).spec_awaiting()
                },
                Ok(DownStep::Revert(job)) => {
                    &&& old(s).spec_idx() < old(s).revert_list().len()
                    &&& job.name@ == old(s).revert_list()[old(s).spec_idx()].name@
                    &&& (exists|content: Seq<char>| job.tx@ == spec_wrap_tx(content))
                    &&& final (s).spec_idx() == old(s).spec_idx()
                    &&& final (s).spec_awaiting()
                },
                Err(_) => {
                    &&& old(s).spec_idx() < old(s).revert_list().len()
                    &&& final (s).spec_idx() == old(s).spec_idx()
                    &&& !final (s).spec_awaiting()
                },
            },
    {
        if s.idx == s.to_revert.len() {
            return Ok(DownStep::Done);
        }
        let migration = &s.to_revert[s.idx];
        let down_content = match self.source.get_down(migration) {
            Ok(c) => c,
            Err(e) => {
                return Err(e);
            },
        };
        match down_content {
            Some(content) => {
                let tx = wrap_transaction(content.as_str());
                let job = ScriptJob { name: migration.name.clone(), tx };
                s.awaiting_delete = true;
                Ok(DownStep::Revert(job))
            },
            None => {
                let name = migration.name.clone();
                proof {
                    assert(s.to_revert.len() == s.to_revert@.len());
                }
                s.idx = s.idx + 1;
                Ok(DownStep::Skip(name))
            },
        }
    }
}

} // verus!

verus! {

/// Helper: against an empty ledger, nothing is filtered out of the
/// discovery listing.
proof fn lemma_pending_of_empty(discovered: Seq<Migration>)
    ensures
        spec_pending(discovered, Seq::<Seq<char>>::empty()) == discovered,
    decreases discovered.len(),
{
    reveal(Seq::filter);
    let applied = Seq::<Seq<char>>::empty();
    if discovered.len() == 0 {
        assert(spec_pending(discovered, applied) =~= discovered);
    } else {
        lemma_pending_of_empty(discovered.drop_last());
        assert(!applied.contains(discovered.last().name@));
        assert(spec_pending(discovered, applied) =~= discovered.drop_last().push(
            discovered.last(),
        ));
        assert(discovered.drop_last().push(discovered.last()) =~= discovered);
    }
}

/// Law: `up` is idempotent. Once the ledger holds, besides what it held
/// before, the name of every migration the first run applied, a second run
/// over the same discovery listing finds nothing pending: it applies zero
/// migrations and leaves the ledger unchanged.
pub proof fn lemma_up_idempotent(discovered: Seq<Migration>, applied: Seq<Seq<char>>)
    ensures
        spec_pending(discovered, applied + spec_names(spec_pending(discovered, applied)))
            =~= Seq::<Migration>::empty(),
{
    let pend = spec_pending(discovered, applied);
    let applied2 = applied + spec_names(pend);
    let pred1 = |m: Migration| !applied.contains(m.name@);
    let pred2 = |m: Migration| !applied2.contains(m.name@);
    assert forall|i: int| 0 <= i < discovered.len() implies !pred2(discovered[i]) by {
        let m = discovered[i];
        if applied.contains(m.name@) {
            let j = choose|j: int| 0 <= j < applied.len() && applied[j] == m.name@;
            assert(applied2[j] == m.name@);
            assert(applied2.contains(m.name@));
        } else {
            discovered.lemma_filter_contains(pred1, i);
            assert(pend.contains(m));
            let k = choose|k: int| 0 <= k < pend.len() && pend[k] == m;
            assert(spec_names(pend)[k] == m.name@);
            assert(applied2[applied.len() + k] == m.name@);
            assert(applied2.contains(m.name@));
        }
    }
    assert(discovered.all(|m: Migration| !pred2(m)));
    discovered.lemma_all_neg_filter_empty(pred2);
    assert(spec_pending(discovered, applied2).len() == 0);
}

/// Law: against an empty ledger, `up` applies every discovered migration,
/// and the ledger afterwards holds exactly one row per discovered
/// migration, bearing its name, in discovery order.
pub proof fn lemma_up_fresh_applies_all(discovered: Seq<Migration>)
    ensures
        spec_pending(discovered, Seq::<Seq<char>>::empty()) == discovered,
        spec_names(spec_pending(discovered, Seq::<Seq<char>>::empty())) == spec_names(discovered),
        spec_names(discovered).len() == discovered.len(),
{
    lemma_pending_of_empty(discovered);
}

/// Law: `down` considers exactly the names present in both the ledger and
/// the current discovery listing — a ledger row whose migration has
/// disappeared from the source is skipped, and nothing outside the ledger
/// is ever reverted.
pub proof fn lemma_down_reverts_applied_only(discovered: Seq<Migration>, applied: Seq<Seq<char>>)
    ensures
        forall|n: Seq<char>| #[trigger] spec_down_names(discovered, applied).contains(n)
            ==> applied.contains(n) && spec_in_discovery(discovered, n),
        forall|n: Seq<char>| applied.contains(n) && spec_in_discovery(discovered, n)
            ==> #[trigger] spec_down_names(discovered, applied).contains(n),
{
    let pred = |n: Seq<char>| spec_in_discovery(discovered, n);
    let filtered = applied.filter(pred);
    let down = spec_down_names(discovered, applied);
    assert forall|n: Seq<char>| #[trigger] down.contains(n) implies applied.contains(n)
        && spec_in_discovery(discovered, n) by {
        let i = choose|i: int| 0 <= i < down.len() && down[i] == n;
        assert(down[i] == filtered[filtered.len() - 1 - i]);
        assert(filtered.contains(n));
        applied.lemma_filter_contains_rev(pred, n);
        let j = choose|j: int| 0 <= j < filtered.len() && filtered[j] == n;
        assert(pred(filtered[j]));
    }
    assert forall|n: Seq<char>| applied.contains(n) && spec_in_discovery(discovered, n)
        implies #[trigger] down.contains(n) by {
        let i = choose|i: int| 0 <= i < applied.len() && applied[i] == n;
        applied.lemma_filter_contains(pred, i);
        assert(filtered.contains(n));
        let j = choose|j: int| 0 <= j < filtered.len() && filtered[j] == n;
        assert(down[filtered.len() - 1 - j] == filtered[j]);
    }
}

} // verus!
