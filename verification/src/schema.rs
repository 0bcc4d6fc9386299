//! Schema management: declaring stores and their uniqueness constraints,
//! and bringing a database up to the target schema version.

use vstd::prelude::*;
use crate::db::{Database, DbView, StoreName};
use crate::errors::OpenError;
use crate::store::{duplicate_free, StoreState, StoreView};

verus! {

/// The schema version that the current release migrates a database up to.
pub const SCHEMA_VERSION: u64 = 3;

/// One forward-only migration step. A step is version-gated, not
/// version-exact: it runs on every upgrade path that starts at a version
/// of at most `gate`, and makes sure that the store called `store`
/// exists and carries the uniqueness constraint over
/// (name, last_modified, size, media_type).
#[derive(Clone, Copy, PartialEq, Eq, Structural, Debug)]
pub struct MigrationStep {
    pub gate: u64,
    pub store: StoreName,
}

/// The declared migration steps, in ascending gate order: version 1
/// introduced the style-text store, version 2 the interactive-control
/// image store, version 3 the background image store.
pub open spec fn spec_migration_steps() -> Seq<MigrationStep> {
    seq![
        MigrationStep { gate: 0, store: StoreName::Styles },
        MigrationStep { gate: 1, store: StoreName::ControlImages },
        MigrationStep { gate: 2, store: StoreName::BackgroundImages },
    ]
}

/// The declared migration steps, in ascending gate order.
pub fn migration_steps() -> (v: Vec<MigrationStep>)
    ensures
        v@ == spec_migration_steps(),
{
    let mut v: Vec<MigrationStep> = Vec::new();
    v.push(MigrationStep { gate: 0, store: StoreName::Styles });
    v.push(MigrationStep { gate: 1, store: StoreName::ControlImages });
    v.push(MigrationStep { gate: 2, store: StoreName::BackgroundImages });
    proof {
        assert(v@ =~= spec_migration_steps());
    }
    v
}

/// The empty store carrying the uniqueness constraint.
pub open spec fn fresh_store() -> StoreView {
    StoreView { unique: true, records: Seq::empty() }
}

/// A fresh database called `name`, before any migration ran.
pub open spec fn fresh_db(name: Seq<char>) -> DbView {
    DbView { name, version: 0, controls: None, backgrounds: None, styles: None }
}

/// What one migration step does: declare the store if it is absent, and
/// make sure it carries the uniqueness constraint. Declaring the
/// constraint on a store that already holds duplicate records fails.
pub open spec fn apply_step_spec(d: DbView, st: MigrationStep) -> Result<DbView, OpenError> {
    match d.at(st.store) {
        None => Ok(d.with(st.store, fresh_store())),
        Some(s) => if s.unique {
            Ok(d)
        } else if !duplicate_free(s.records) {
            Err(OpenError::MigrationFailed)
        } else {
            Ok(d.with(st.store, StoreView { unique: true, records: s.records }))
        },
    }
}

/// Run the steps in order against a database whose stored version is
/// `from`, applying exactly those whose gate `from` does not exceed.
pub open spec fn run_steps_spec(d: DbView, from: u64, steps: Seq<MigrationStep>) -> Result<
    DbView,
    OpenError,
>
    decreases steps.len(),
{
    if steps.len() == 0 {
        Ok(d)
    } else {
        let first = if from <= steps[0].gate {
            apply_step_spec(d, steps[0])
        } else {
            Ok(d)
        };
        match first {
            Ok(d1) => run_steps_spec(d1, from, steps.drop_first()),
            Err(e) => Err(e),
        }
    }
}

/// What opening at `target` returns: a database already at the target
/// version is handed back untouched (migrations for versions at or below
/// the stored version never re-run); otherwise every applicable step
/// runs, in ascending order, once each.
pub open spec fn migrate_spec(d: DbView, target: u64) -> Result<DbView, OpenError>
    recommends
        d.version <= target,
{
    if d.version == target {
        Ok(d)
    } else {
        match run_steps_spec(d, d.version, spec_migration_steps()) {
            Ok(d1) => Ok(DbView { version: target, ..d1 }),
            Err(e) => Err(e),
        }
    }
}

proof fn lemma_run_steps_skip(d: DbView, from: u64, steps: Seq<MigrationStep>, k: int)
    requires
        0 <= k < steps.len(),
    ensures
        run_steps_spec(d, from, steps.skip(k)) == ({
            let first = if from <= steps[k].gate {
                apply_step_spec(d, steps[k])
            } else {
                Ok(d)
            };
            match first {
                Ok(d1) => run_steps_spec(d1, from, steps.skip(k + 1)),
                Err(e) => Err(e),
            }
        }),
{
    assert(steps.skip(k)[0] == steps[k]);
    assert(steps.skip(k).drop_first() =~= steps.skip(k + 1));
}

/// Apply one step to the database in place.
fn apply_step(db: &mut Database, st: MigrationStep) -> (r: Result<(), OpenError>)
    requires
        old(db)@.wf(),
    ensures
        final(db)@.wf(),
        match r {
            Ok(()) => apply_step_spec(old(db)@, st) == Ok::<DbView, OpenError>(final(db)@),
            Err(e) => apply_step_spec(old(db)@, st) == Err::<DbView, OpenError>(e) && final(db)@
                == old(db)@,
        },
{
    if !db.has_store(st.store) {
        let fresh = StoreState::empty_unique();
        db.set_store(st.store, fresh);
        proof {
            assert(db@ =~= old(db)@.with(st.store, fresh_store()));
            lemma_with_preserves_wf(old(db)@, st.store, fresh_store());
        }
        Ok(())
    } else if db.store_ref(st.store).unique {
        Ok(())
    } else if db.store_ref(st.store).has_internal_duplicate() {
        Err(OpenError::MigrationFailed)
    } else {
        let records = db.store_ref(st.store).snapshot();
        let constrained = StoreState { unique: true, records };
        let ghost s = old(db)@.store(st.store);
        proof {
            assert(constrained@ =~= (StoreView { unique: true, records: s.records }));
        }
        db.set_store(st.store, constrained);
        proof {
            lemma_with_preserves_wf(
                old(db)@,
                st.store,
                StoreView { unique: true, records: s.records },
            );
        }
        Ok(())
    }
}

proof fn lemma_with_preserves_wf(d: DbView, n: StoreName, s: StoreView)
    requires
        d.wf(),
        s.wf(),
    ensures
        d.with(n, s).wf(),
{
    assert forall|m: StoreName| ((#[trigger] d.with(n, s).at(m)) matches Some(t) ==> t.wf()) by {
        if m != n {
            assert(d.with(n, s).at(m) == d.at(m));
        }
    }
}

/// Open the database called `name`, creating it when `prior` is `None`,
/// and bring its schema up to `target`. The migration steps run only
/// when the stored version is below `target`; a database already at the
/// target version is returned untouched. When any step fails, the whole
/// call fails and the database is left as it was.
#[verifier::loop_isolation(false)]
pub fn open_database(prior: Option<Database>, name: String, target: u64) -> (r: Result<
    Database,
    OpenError,
>)
    requires
        prior matches Some(d) ==> d@.wf() && d@.version <= target,
    ensures
        ({
            let base = match prior {
                Some(d) => d@,
                None => fresh_db(name@),
            };
            match r {
                Ok(db) => db@.wf() && migrate_spec(base, target) == Ok::<DbView, OpenError>(db@),
                Err(e) => migrate_spec(base, target) == Err::<DbView, OpenError>(e),
            }
        }),
{
    let ghost base = match prior {
        Some(ref d) => d@,
        None => fresh_db(name@),
    };
    let mut db = match prior {
        Some(d) => d,
        None => Database::fresh(name),
    };
    proof {
        assert(db@ == base);
    }
    if db.version == target {
        return Ok(db);
    }
    let from = db.version;
    let steps = migration_steps();
    proof {
        assert(spec_migration_steps().skip(0) =~= spec_migration_steps());
    }
    let mut k: usize = 0;
    while k < steps.len()
        invariant
            k <= steps.len(),
            steps@ == spec_migration_steps(),
            db@.wf(),
            base.version == from,
            base.version != target,
            run_steps_spec(base, from, spec_migration_steps()) == run_steps_spec(
                db@,
                from,
                spec_migration_steps().skip(k as int),
            ),
        decreases steps.len() - k,
    {
        let st = steps[k];
        let ghost dpre = db@;
        proof {
            lemma_run_steps_skip(dpre, from, spec_migration_steps(), k as int);
        }
        if from <= st.gate {
            match apply_step(&mut db, st) {
                Ok(()) => {},
                Err(e) => {
                    proof {
                        assert(run_steps_spec(base, from, spec_migration_steps())
                            == Err::<DbView, OpenError>(e));
                        assert(migrate_spec(base, target) == Err::<DbView, OpenError>(e));
                    }
                    return Err(e);
                },
            }
        }
        k = k + 1;
    }
    proof {
        assert(spec_migration_steps().skip(spec_migration_steps().len() as int)
            =~= Seq::<MigrationStep>::empty());
    }
    let ghost migrated = db@;
    proof {
        assert(run_steps_spec(base, from, spec_migration_steps()) == Ok::<DbView, OpenError>(
            migrated,
        ));
    }
    db.version = target;
    proof {
        assert(db@ =~= (DbView { version: target, ..migrated }));
        assert(migrate_spec(base, target) == Ok::<DbView, OpenError>(db@));
        assert(forall|n: StoreName| #[trigger] db@.at(n) == migrated.at(n));
        assert(db@.wf());
    }
    Ok(db)
}

/// Migrations are idempotent and cumulative: upgrading a fresh database
/// to version `mid` and then on to `target` yields exactly the database
/// that a single upgrade from fresh to `target` yields, and neither
/// upgrade can fail. Chaining this law across every intermediate version
/// equates a stepwise upgrade from version zero with a direct one.
pub proof fn lemma_migration_idempotent(name: Seq<char>, mid: u64, target: u64)
    requires
        mid <= target,
    ensures
        migrate_spec(fresh_db(name), mid) is Ok,
        migrate_spec(fresh_db(name), target) is Ok,
        migrate_spec(migrate_spec(fresh_db(name), mid)->Ok_0, target) == migrate_spec(
            fresh_db(name),
            target,
        ),
        migrate_spec(migrate_spec(fresh_db(name), mid)->Ok_0, target)->Ok_0.same_schema(
            migrate_spec(fresh_db(name), target)->Ok_0,
        ),
{
    reveal_with_fuel(run_steps_spec, 5);
    let base = fresh_db(name);
    let steps = spec_migration_steps();
    assert(steps.drop_first() =~= seq![
        MigrationStep { gate: 1, store: StoreName::ControlImages },
        MigrationStep { gate: 2, store: StoreName::BackgroundImages },
    ]);
    assert(steps.drop_first().drop_first() =~= seq![
        MigrationStep { gate: 2, store: StoreName::BackgroundImages },
    ]);
    assert(steps.drop_first().drop_first().drop_first() =~= Seq::<MigrationStep>::empty());
    let full = DbView {
        name,
        version: 0,
        controls: Some(fresh_store()),
        backgrounds: Some(fresh_store()),
        styles: Some(fresh_store()),
    };
    assert(run_steps_spec(base, 0, steps) == Ok::<DbView, OpenError>(full)) by {
        assert(base.with(StoreName::Styles, fresh_store()).with(
            StoreName::ControlImages,
            fresh_store(),
        ).with(StoreName::BackgroundImages, fresh_store()) =~= full);
    }
    if mid == 0 {
        assert(migrate_spec(base, mid) == Ok::<DbView, OpenError>(base));
    } else {
        let d1 = DbView { version: mid, ..full };
        assert(migrate_spec(base, mid) == Ok::<DbView, OpenError>(d1));
        if mid != target {
            assert(run_steps_spec(d1, mid, steps) == Ok::<DbView, OpenError>(d1));
            assert(DbView { version: target, ..d1 } =~= DbView { version: target, ..full });
        }
    }
}

} // verus!
