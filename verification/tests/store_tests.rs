use asset_store::db::{Database, StoreName};
use asset_store::errors::{OpenError, StoreError, TransactionError};
use asset_store::phase::{phase_step, Phase, PhaseEvent};
use asset_store::pipeline::{read, store, to_reference, to_text, StoreOutcome};
use asset_store::record::Record;
use asset_store::schema::{open_database, SCHEMA_VERSION};
use asset_store::store::StoreState;
use asset_store::txn::{begin, run_write, Mode, WriteOp};

fn rec(name: &str, lm: u64, size: u64, mt: &str, payload: &[u8]) -> Record {
    Record {
        name: name.to_string(),
        last_modified: lm,
        size,
        media_type: mt.to_string(),
        payload: payload.to_vec(),
    }
}

fn style(name: &str, text: &str) -> Record {
    rec(name, 1, text.len() as u64, "text/css", text.as_bytes())
}

fn open_fresh() -> Database {
    open_database(None, "assets".to_string(), SCHEMA_VERSION).unwrap()
}

fn schema_of(db: &Database) -> Vec<(bool, bool)> {
    [&db.controls, &db.backgrounds, &db.styles]
        .iter()
        .map(|slot| match slot {
            Some(s) => (true, s.unique),
            None => (false, false),
        })
        .collect()
}

#[test]
fn fresh_open_reaches_target_schema() {
    let db = open_fresh();
    assert_eq!(db.version, SCHEMA_VERSION);
    assert_eq!(db.name, "assets");
    assert_eq!(schema_of(&db), vec![(true, true), (true, true), (true, true)]);
}

#[test]
fn stepwise_and_direct_migrations_agree() {
    let stepwise0 = open_database(None, "assets".to_string(), 1).unwrap();
    let stepwise1 = open_database(Some(stepwise0), "assets".to_string(), 2).unwrap();
    let stepwise = open_database(Some(stepwise1), "assets".to_string(), 3).unwrap();
    let direct = open_database(None, "assets".to_string(), 3).unwrap();
    assert_eq!(stepwise.version, direct.version);
    assert_eq!(schema_of(&stepwise), schema_of(&direct));
    assert!(stepwise.styles.unwrap().records.is_empty());
    assert!(direct.styles.unwrap().records.is_empty());
}

#[test]
fn duplicate_meta_keeps_one_record() {
    let mut db = open_fresh();
    let first = rec("a.css", 100, 3, "text/css", b"one");
    let second = rec("a.css", 100, 3, "text/css", b"two");
    assert_eq!(store(&mut db, first), Ok(StoreOutcome::Stored));
    assert_eq!(store(&mut db, second), Ok(StoreOutcome::AlreadyPresent));
    assert_eq!(db.styles.as_ref().unwrap().records.len(), 1);
    let bundle = read(&db).unwrap();
    assert_eq!(bundle.styles, vec!["one".to_string()]);
}

#[test]
fn second_store_of_same_record_is_benign() {
    let mut db = open_fresh();
    assert_eq!(store(&mut db, style("a.css", "p{}")), Ok(StoreOutcome::Stored));
    assert_eq!(store(&mut db, style("a.css", "p{}")), Ok(StoreOutcome::AlreadyPresent));
    let bundle = read(&db).unwrap();
    assert_eq!(bundle.styles.len(), 1);
}

#[test]
fn failed_unit_of_work_leaves_no_record() {
    let mut db = open_fresh();
    let names = vec![StoreName::Styles];
    let ops = vec![
        WriteOp { store: StoreName::Styles, record: rec("a.css", 100, 3, "text/css", b"one") },
        WriteOp { store: StoreName::Styles, record: rec("a.css", 100, 3, "text/css", b"two") },
    ];
    let r = run_write(&mut db, &names, &ops);
    assert_eq!(r, Err(TransactionError::Aborted(StoreError::AlreadyExists)));
    assert_eq!(db.styles.as_ref().unwrap().records.len(), 0);
    let bundle = read(&db).unwrap();
    assert!(bundle.styles.is_empty());
}

#[test]
fn successful_unit_of_work_commits_every_write() {
    let mut db = open_fresh();
    let names = vec![StoreName::Styles];
    let ops = vec![
        WriteOp { store: StoreName::Styles, record: style("a.css", "one") },
        WriteOp { store: StoreName::Styles, record: style("b.css", "two") },
    ];
    assert_eq!(run_write(&mut db, &names, &ops), Ok(()));
    let bundle = read(&db).unwrap();
    assert_eq!(bundle.styles, vec!["one".to_string(), "two".to_string()]);
}

#[test]
fn write_to_store_outside_scope_aborts() {
    let mut db = open_fresh();
    let names = vec![StoreName::Styles];
    let ops = vec![
        WriteOp { store: StoreName::Styles, record: style("a.css", "one") },
        WriteOp { store: StoreName::ControlImages, record: rec("c.png", 5, 1, "image/png", b"x") },
    ];
    let r = run_write(&mut db, &names, &ops);
    assert_eq!(r, Err(TransactionError::Aborted(StoreError::NotFound)));
    assert_eq!(db.styles.as_ref().unwrap().records.len(), 0);
}

#[test]
fn corrupt_text_record_is_skipped() {
    let mut db = open_fresh();
    assert_eq!(store(&mut db, style("a.css", "first")), Ok(StoreOutcome::Stored));
    assert_eq!(
        store(&mut db, rec("bad.css", 7, 2, "text/css", &[0xff, 0xfe])),
        Ok(StoreOutcome::Stored)
    );
    assert_eq!(store(&mut db, style("b.css", "third")), Ok(StoreOutcome::Stored));
    let bundle = read(&db).unwrap();
    assert_eq!(bundle.styles, vec!["first".to_string(), "third".to_string()]);
}

#[test]
fn corrupt_binary_record_is_skipped() {
    let good_a = rec("a.png", 1, 3, "image/png", b"abc");
    let corrupt = rec("b.png", 2, 9, "image/png", b"ab");
    let good_b = rec("c.png", 3, 2, "image/png", b"xy");
    let db = Database {
        name: "assets".to_string(),
        version: 3,
        controls: Some(StoreState { unique: true, records: vec![good_a, corrupt, good_b] }),
        backgrounds: Some(StoreState { unique: true, records: vec![] }),
        styles: Some(StoreState { unique: true, records: vec![] }),
    };
    let bundle = read(&db).unwrap();
    assert_eq!(bundle.controls.len(), 2);
    assert_eq!(bundle.controls[0].key, 0);
    assert_eq!(bundle.controls[0].media_type, "image/png");
    assert_eq!(bundle.controls[0].size, 3);
    assert_eq!(bundle.controls[1].key, 2);
    assert_eq!(bundle.controls[1].size, 2);
    assert!(bundle.backgrounds.is_empty());
}

#[test]
fn read_preserves_insertion_order() {
    let mut db = open_fresh();
    assert_eq!(store(&mut db, style("a.css", "A")), Ok(StoreOutcome::Stored));
    assert_eq!(store(&mut db, style("b.css", "B")), Ok(StoreOutcome::Stored));
    assert_eq!(store(&mut db, style("c.css", "C")), Ok(StoreOutcome::Stored));
    let bundle = read(&db).unwrap();
    assert_eq!(bundle.styles, vec!["A".to_string(), "B".to_string(), "C".to_string()]);
}

#[test]
fn migrate_store_and_read_back() {
    let mut db = open_database(None, "assets".to_string(), 3).unwrap();
    assert_eq!(db.version, 3);
    let payload = b".a{size:1}";
    let record = rec("x.css", 100, 10, "text/css", payload);
    assert_eq!(store(&mut db, record), Ok(StoreOutcome::Stored));
    let bundle = read(&db).unwrap();
    assert_eq!(bundle.styles, vec![".a{size:1}".to_string()]);
}

#[test]
fn unmigrated_database_fails_with_unknown_store() {
    let mut db = Database::fresh("assets".to_string());
    assert_eq!(read(&db).err(), Some(TransactionError::UnknownStore));
    assert_eq!(
        store(&mut db, style("a.css", "x")).err(),
        Some(TransactionError::UnknownStore)
    );
}

#[test]
fn constraint_conflict_fails_migration() {
    let prior = Database {
        name: "assets".to_string(),
        version: 0,
        controls: None,
        backgrounds: None,
        styles: Some(StoreState {
            unique: false,
            records: vec![
                rec("a.css", 100, 3, "text/css", b"one"),
                rec("a.css", 100, 3, "text/css", b"two"),
            ],
        }),
    };
    let r = open_database(Some(prior), "assets".to_string(), 3);
    assert_eq!(r.err(), Some(OpenError::MigrationFailed));
}

#[test]
fn migration_constrains_existing_records_without_loss() {
    let prior = Database {
        name: "assets".to_string(),
        version: 0,
        controls: None,
        backgrounds: None,
        styles: Some(StoreState {
            unique: false,
            records: vec![style("a.css", "one"), style("b.css", "two")],
        }),
    };
    let db = open_database(Some(prior), "assets".to_string(), 3).unwrap();
    let styles = db.styles.as_ref().unwrap();
    assert!(styles.unique);
    assert_eq!(styles.records.len(), 2);
    let bundle = read(&db).unwrap();
    assert_eq!(bundle.styles, vec!["one".to_string(), "two".to_string()]);
}

#[test]
fn database_at_target_version_is_not_remigrated() {
    let prior = Database {
        name: "assets".to_string(),
        version: 3,
        controls: None,
        backgrounds: None,
        styles: None,
    };
    let db = open_database(Some(prior), "assets".to_string(), 3).unwrap();
    assert_eq!(db.version, 3);
    assert_eq!(schema_of(&db), vec![(false, false), (false, false), (false, false)]);
}

#[test]
fn store_outside_transaction_scope_is_not_found() {
    let db = open_fresh();
    let names = vec![StoreName::Styles];
    let t = begin(&db, &names, Mode::ReadOnly).unwrap();
    assert_eq!(t.get_all(StoreName::ControlImages).err(), Some(StoreError::NotFound));
    assert_eq!(t.get_all(StoreName::Styles).unwrap().len(), 0);
}

#[test]
fn begin_rejects_undeclared_store() {
    let db = Database::fresh("assets".to_string());
    let names = vec![StoreName::Styles];
    assert_eq!(
        begin(&db, &names, Mode::ReadOnly).err(),
        Some(TransactionError::UnknownStore)
    );
}

#[test]
fn inserts_take_sequential_keys_until_committed() {
    let mut db = open_fresh();
    let names = vec![StoreName::Styles];
    let mut t = begin(&db, &names, Mode::ReadWrite).unwrap();
    assert_eq!(t.insert(StoreName::Styles, style("a.css", "one")), Ok(0));
    assert_eq!(t.insert(StoreName::Styles, style("b.css", "two")), Ok(1));
    assert_eq!(
        t.insert(StoreName::Styles, rec("a.css", 1, 3, "text/css", b"xxx")),
        Err(StoreError::AlreadyExists)
    );
    // nothing is visible before the commit
    assert_eq!(db.styles.as_ref().unwrap().records.len(), 0);
    asset_store::txn::commit(&mut db, t);
    assert_eq!(db.styles.as_ref().unwrap().records.len(), 2);
}

#[test]
fn dropped_transaction_leaves_no_trace() {
    let mut db = open_fresh();
    let names = vec![StoreName::Styles];
    let mut t = begin(&db, &names, Mode::ReadWrite).unwrap();
    assert_eq!(t.insert(StoreName::Styles, style("a.css", "one")), Ok(0));
    drop(t);
    assert_eq!(db.styles.as_ref().unwrap().records.len(), 0);
    let bundle = read(&db).unwrap();
    assert!(bundle.styles.is_empty());
}

#[test]
fn reference_conversion_rejects_size_mismatch() {
    let corrupt = rec("a.png", 1, 9, "image/png", b"abc");
    assert!(to_reference(StoreName::ControlImages, 0, &corrupt).is_err());
    let good = rec("a.png", 1, 3, "image/png", b"abc");
    let a = to_reference(StoreName::ControlImages, 7, &good).unwrap();
    assert_eq!(a.key, 7);
    assert_eq!(a.size, 3);
    assert_eq!(a.media_type, "image/png");
    assert!(!a.released);
}

#[test]
fn released_reference_is_marked() {
    let good = rec("a.png", 1, 3, "image/png", b"abc");
    let mut a = to_reference(StoreName::ControlImages, 0, &good).unwrap();
    a.release();
    assert!(a.released);
    assert_eq!(a.key, 0);
}

#[test]
fn text_conversion_decodes_and_rejects() {
    let good = style("a.css", "p { color: red }");
    assert_eq!(to_text(&good).unwrap(), "p { color: red }");
    let bad = rec("b.css", 1, 2, "text/css", &[0xff, 0xfe]);
    assert!(to_text(&bad).is_err());
}

#[test]
fn background_references_keep_store_order_and_keys() {
    let mut db = open_fresh();
    let names = vec![StoreName::BackgroundImages];
    let ops = vec![
        WriteOp {
            store: StoreName::BackgroundImages,
            record: rec("a.png", 1, 2, "image/png", b"aa"),
        },
        WriteOp {
            store: StoreName::BackgroundImages,
            record: rec("b.jpg", 2, 3, "image/jpeg", b"bbb"),
        },
    ];
    assert_eq!(run_write(&mut db, &names, &ops), Ok(()));
    let bundle = read(&db).unwrap();
    assert_eq!(bundle.backgrounds.len(), 2);
    assert_eq!(bundle.backgrounds[0].key, 0);
    assert_eq!(bundle.backgrounds[0].media_type, "image/png");
    assert_eq!(bundle.backgrounds[1].key, 1);
    assert_eq!(bundle.backgrounds[1].media_type, "image/jpeg");
    assert_eq!(bundle.backgrounds[1].store, StoreName::BackgroundImages);
    assert!(bundle.controls.is_empty());
}

#[test]
fn store_of_only_corrupt_records_reads_back_empty() {
    let db = Database {
        name: "assets".to_string(),
        version: 3,
        controls: Some(StoreState { unique: true, records: vec![] }),
        backgrounds: Some(StoreState { unique: true, records: vec![] }),
        styles: Some(StoreState {
            unique: true,
            records: vec![rec("bad.css", 1, 1, "text/css", &[0x80])],
        }),
    };
    let bundle = read(&db).unwrap();
    assert!(bundle.styles.is_empty());
}

#[test]
fn phase_lifecycle_runs_to_terminal_states() {
    let p = phase_step(Phase::Idle, PhaseEvent::Invoked);
    assert_eq!(p, Phase::TransactionOpening);
    let p = phase_step(p, PhaseEvent::Opened);
    assert_eq!(p, Phase::Working);
    let committed = phase_step(
        phase_step(p, PhaseEvent::WorkSucceeded),
        PhaseEvent::CommitSucceeded,
    );
    assert_eq!(committed, Phase::Committed);
    let aborted = phase_step(phase_step(p, PhaseEvent::WorkFailed), PhaseEvent::AbortCompleted);
    assert_eq!(aborted, Phase::Aborted);
    let failed = phase_step(Phase::TransactionOpening, PhaseEvent::OpenRejected);
    assert_eq!(failed, Phase::TransactionOpenFailed);
    // terminal phases absorb every event
    assert_eq!(phase_step(Phase::Committed, PhaseEvent::Invoked), Phase::Committed);
    assert_eq!(phase_step(Phase::Aborted, PhaseEvent::WorkFailed), Phase::Aborted);
    // an event out of place leaves the phase alone
    assert_eq!(phase_step(Phase::Working, PhaseEvent::Opened), Phase::Working);
}
