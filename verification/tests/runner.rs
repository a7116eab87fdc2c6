use surreal_migraine::runner::{
    applied_names, check_execution, first_genuine_error, plan_down, plan_pending,
    wrap_transaction, DownStep,
};
use surreal_migraine::source::{EmbeddedEntry, EmbeddedFile, EmbeddedSource};
use surreal_migraine::types::{Migration, MigrationError, MigrationKind, MigrationRecord};
use surreal_migraine::MigrationRunner;

const CASCADE: &str = "The query was not executed due to a failed transaction";

fn embedded_fixture() -> EmbeddedSource {
    EmbeddedSource::new(vec![
        EmbeddedEntry::File {
            name: "001_init.surql".to_string(),
            content: "CREATE TABLE test;".to_string(),
        },
        EmbeddedEntry::Dir {
            name: "002_add_user".to_string(),
            files: vec![
                EmbeddedFile {
                    name: "up.surql".to_string(),
                    content: "CREATE TABLE user;".to_string(),
                },
                EmbeddedFile {
                    name: "down.surql".to_string(),
                    content: "DROP TABLE user;".to_string(),
                },
            ],
        },
    ])
}

/// Drives a full `up` run against an in-memory ledger, with every script
/// execution succeeding. Returns the (name, transaction) pairs executed.
fn run_up(
    runner: &MigrationRunner<EmbeddedSource>,
    ledger: &mut Vec<String>,
) -> Vec<(String, String)> {
    let applied = ledger.clone();
    let mut session = runner.up_begin(&applied).unwrap();
    let mut executed = Vec::new();
    loop {
        match runner.up_next(&session).unwrap() {
            None => break,
            Some(job) => {
                let no_errors: Vec<String> = vec![];
                let name = session.script_executed(&no_errors).unwrap();
                ledger.push(name);
                session.recorded();
                executed.push((job.name, job.tx));
            }
        }
    }
    assert!(session.is_done());
    executed
}

#[test]
fn up_applies_all_in_order_on_fresh_ledger() {
    let runner = MigrationRunner::new(embedded_fixture());
    let mut ledger: Vec<String> = vec![];
    let executed = run_up(&runner, &mut ledger);

    assert_eq!(executed.len(), 2, "Should have applied 2 migrations");
    assert_eq!(executed[0].0, "001_init.surql");
    assert_eq!(
        executed[0].1,
        "BEGIN TRANSACTION;\nCREATE TABLE test;\nCOMMIT TRANSACTION;"
    );
    assert_eq!(executed[1].0, "002_add_user");
    assert_eq!(
        executed[1].1,
        "BEGIN TRANSACTION;\nCREATE TABLE user;\nCOMMIT TRANSACTION;"
    );
    // One ledger row per discovered migration, in application order.
    assert_eq!(ledger, vec!["001_init.surql".to_string(), "002_add_user".to_string()]);
}

#[test]
fn up_is_idempotent() {
    let runner = MigrationRunner::new(embedded_fixture());
    let mut ledger: Vec<String> = vec![];
    let first = run_up(&runner, &mut ledger);
    assert_eq!(first.len(), 2);

    let ledger_before = ledger.clone();
    let second = run_up(&runner, &mut ledger);
    assert_eq!(second.len(), 0, "second run must apply nothing");
    assert_eq!(ledger, ledger_before, "second run must leave the ledger unchanged");
}

#[test]
fn up_skips_already_applied() {
    let runner = MigrationRunner::new(embedded_fixture());
    let mut ledger: Vec<String> = vec!["001_init.surql".to_string()];
    let executed = run_up(&runner, &mut ledger);
    assert_eq!(executed.len(), 1);
    assert_eq!(executed[0].0, "002_add_user");
    assert_eq!(ledger, vec!["001_init.surql".to_string(), "002_add_user".to_string()]);
}

#[test]
fn up_aborts_on_genuine_error_and_keeps_ledger() {
    let runner = MigrationRunner::new(embedded_fixture());
    let applied: Vec<String> = vec![];
    let mut session = runner.up_begin(&applied).unwrap();
    let job = runner.up_next(&session).unwrap().unwrap();
    assert_eq!(job.name, "001_init.surql");
    let errors = vec!["table exists".to_string(), CASCADE.to_string()];
    match session.script_executed(&errors) {
        Err(MigrationError::Execution(m)) => assert_eq!(m, "table exists"),
        other => panic!("expected an execution error, got {:?}", other),
    }
    // The session did not advance: nothing was recorded.
    assert!(!session.is_done());
    assert_eq!(session.remaining(), 2);
}

#[test]
fn down_reverts_in_reverse_order_and_skips_up_only() {
    let runner = MigrationRunner::new(embedded_fixture());
    let mut ledger: Vec<String> = vec![];
    run_up(&runner, &mut ledger);

    let applied = ledger.clone();
    let mut session = runner.down_begin(&applied).unwrap();

    // Most recently applied first: 002_add_user is reverted...
    match runner.down_next(&mut session).unwrap() {
        DownStep::Revert(job) => {
            assert_eq!(job.name, "002_add_user");
            assert_eq!(job.tx, "BEGIN TRANSACTION;\nDROP TABLE user;\nCOMMIT TRANSACTION;");
            let no_errors: Vec<String> = vec![];
            let name = session.script_executed(&no_errors).unwrap();
            assert_eq!(name, "002_add_user");
            ledger.retain(|n| n != &name);
            session.deleted();
        }
        other => panic!("expected a revert step, got {:?}", other),
    }

    // ... then 001_init.surql has no down script: warn and skip, its
    // ledger row stays.
    match runner.down_next(&mut session).unwrap() {
        DownStep::Skip(name) => assert_eq!(name, "001_init.surql"),
        other => panic!("expected a skip step, got {:?}", other),
    }

    match runner.down_next(&mut session).unwrap() {
        DownStep::Done => {}
        other => panic!("expected the run to be done, got {:?}", other),
    }
    assert!(session.is_done());
    assert_eq!(ledger, vec!["001_init.surql".to_string()]);
}

#[test]
fn down_ignores_ledger_rows_missing_from_discovery() {
    let runner = MigrationRunner::new(embedded_fixture());
    let applied = vec!["001_init.surql".to_string(), "999_gone.surql".to_string()];
    let mut session = runner.down_begin(&applied).unwrap();
    assert_eq!(session.remaining(), 1);
    match runner.down_next(&mut session).unwrap() {
        DownStep::Skip(name) => assert_eq!(name, "001_init.surql"),
        other => panic!("expected a skip step, got {:?}", other),
    }
    match runner.down_next(&mut session).unwrap() {
        DownStep::Done => {}
        other => panic!("expected the run to be done, got {:?}", other),
    }
}

#[test]
fn plan_pending_preserves_discovery_order() {
    let discovered = vec![
        Migration { name: "001_a".to_string(), kind: MigrationKind::File },
        Migration { name: "002_b".to_string(), kind: MigrationKind::Paired },
        Migration { name: "003_c".to_string(), kind: MigrationKind::File },
    ];
    let applied = vec!["002_b".to_string()];
    let pending = plan_pending(&discovered, &applied);
    let names: Vec<&str> = pending.iter().map(|m| m.name.as_str()).collect();
    assert_eq!(names, vec!["001_a", "003_c"]);
}

#[test]
fn plan_down_restricts_and_reverses() {
    let discovered = vec![
        Migration { name: "001_a".to_string(), kind: MigrationKind::File },
        Migration { name: "002_b".to_string(), kind: MigrationKind::Paired },
    ];
    let applied = vec![
        "001_a".to_string(),
        "002_b".to_string(),
        "999_gone".to_string(),
    ];
    let to_revert = plan_down(&discovered, &applied);
    let names: Vec<&str> = to_revert.iter().map(|m| m.name.as_str()).collect();
    assert_eq!(names, vec!["002_b", "001_a"]);
}

#[test]
fn wrap_transaction_exact() {
    assert_eq!(
        wrap_transaction("CREATE TABLE t;"),
        "BEGIN TRANSACTION;\nCREATE TABLE t;\nCOMMIT TRANSACTION;"
    );
}

#[test]
fn cascade_errors_are_filtered() {
    let only_noise = vec![CASCADE.to_string(), format!("prefix {} suffix", CASCADE)];
    assert_eq!(first_genuine_error(&only_noise), None);
    assert!(check_execution(&only_noise).is_ok());

    let mixed = vec![CASCADE.to_string(), "boom".to_string(), "late".to_string()];
    assert_eq!(first_genuine_error(&mixed), Some("boom".to_string()));
    match check_execution(&mixed) {
        Err(MigrationError::Execution(m)) => assert_eq!(m, "boom"),
        other => panic!("expected an execution error, got {:?}", other),
    }

    let none: Vec<String> = vec![];
    assert_eq!(first_genuine_error(&none), None);
}

#[test]
fn applied_names_drops_blanks_and_failed_reads() {
    let rows = vec![
        MigrationRecord { id: "migrations:1".to_string(), name: "001_a".to_string() },
        MigrationRecord { id: "migrations:2".to_string(), name: "".to_string() },
        MigrationRecord { id: "migrations:3".to_string(), name: "002_b".to_string() },
    ];
    let names = applied_names(Some(rows));
    assert_eq!(names, vec!["001_a".to_string(), "002_b".to_string()]);

    let from_failed_read = applied_names(None);
    assert!(from_failed_read.is_empty());
}

#[test]
fn error_messages_are_reachable() {
    let errs = vec![
        MigrationError::Io("cannot read".to_string()),
        MigrationError::NotFound("up.surql not found".to_string()),
        MigrationError::Execution("boom".to_string()),
        MigrationError::Ledger("insert failed".to_string()),
    ];
    let msgs: Vec<&str> = errs.iter().map(|e| e.message().as_str()).collect();
    assert_eq!(msgs, vec!["cannot read", "up.surql not found", "boom", "insert failed"]);
}

#[test]
fn first_error_wins_when_all_are_genuine() {
    let errors = vec!["first".to_string(), "second".to_string()];
    assert_eq!(first_genuine_error(&errors), Some("first".to_string()));
}
