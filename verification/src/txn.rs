//! Scoped transactions: a unit of work runs against copies of a fixed
//! set of stores and either commits as a whole or leaves no trace.

use vstd::prelude::*;
use crate::db::{Database, DbView, StoreName};
use crate::errors::{StoreError, TransactionError};
use crate::record::{Record, RecordView};
use crate::store::{StoreState, StoreView};

verus! {

/// Whether a transaction may write.
#[derive(Clone, Copy, PartialEq, Eq, Structural, Debug)]
pub enum Mode {
    ReadOnly,
    ReadWrite,
}

/// An open transaction: a private copy of every store in its scope.
/// Writes touch only the copy; `commit` publishes all of them at once,
/// and dropping the transaction discards all of them at once.
pub struct Transaction {
    pub mode: Mode,
    pub controls: Option<StoreState>,
    pub backgrounds: Option<StoreState>,
    pub styles: Option<StoreState>,
}

/// Mathematical image of a [`Transaction`].
#[verifier::ext_equal]
pub ghost struct TxnView {
    pub mode: Mode,
    pub controls: Option<StoreView>,
    pub backgrounds: Option<StoreView>,
    pub styles: Option<StoreView>,
}

impl View for Transaction {
    type V = TxnView;

    open spec fn view(&self) -> TxnView {
        TxnView {
            mode: self.mode,
            controls: crate::db::slot_view(self.controls),
            backgrounds: crate::db::slot_view(self.backgrounds),
            styles: crate::db::slot_view(self.styles),
        }
    }
}

impl TxnView {
    /// The copy of the store called `n`, when it is in scope.
    pub open spec fn at(self, n: StoreName) -> Option<StoreView> {
        match n {
            StoreName::ControlImages => self.controls,
            StoreName::BackgroundImages => self.backgrounds,
            StoreName::Styles => self.styles,
        }
    }

    /// Whether the store called `n` is in the transaction's scope.
    pub open spec fn in_scope(self, n: StoreName) -> bool {
        self.at(n) is Some
    }

    /// The copy of the store called `n`.
    pub open spec fn store(self, n: StoreName) -> StoreView
        recommends
            self.in_scope(n),
    {
        self.at(n)->Some_0
    }

    /// The transaction with the copy of the store called `n` replaced.
    pub open spec fn with(self, n: StoreName, s: StoreView) -> TxnView {
        match n {
            StoreName::ControlImages => TxnView { controls: Some(s), ..self },
            StoreName::BackgroundImages => TxnView { backgrounds: Some(s), ..self },
            StoreName::Styles => TxnView { styles: Some(s), ..self },
        }
    }

    /// Every store copy in scope satisfies its invariant.
    pub open spec fn wf(self) -> bool {
        forall|n: StoreName| (#[trigger] self.at(n)) matches Some(s) ==> s.wf()
    }
}

/// Open a transaction over the given set of stores. Requesting a store
/// that the schema does not declare fails fast with `UnknownStore`
/// before any work runs.
#[verifier::loop_isolation(false)]
pub fn begin(db: &Database, names: &Vec<StoreName>, mode: Mode) -> (r: Result<
    Transaction,
    TransactionError,
>)
    requires
        db@.wf(),
        names@.len() > 0,
        forall|i: int, j: int| 0 <= i < j < names@.len() ==> names@[i] != names@[j],
    ensures
        match r {
            Ok(t) => {
                &&& forall|i: int| 0 <= i < names@.len() ==> db@.declares(#[trigger] names@[i])
                &&& t@.mode == mode
                &&& t@.wf()
                &&& forall|n: StoreName|
                    (#[trigger] t@.at(n)) == if names@.contains(n) {
                        db@.at(n)
                    } else {
                        None::<StoreView>
                    }
            },
            Err(e) => {
                &&& e == TransactionError::UnknownStore
                &&& exists|i: int| 0 <= i < names@.len() && !db@.declares(#[trigger] names@[i])
            },
        },
{
    let mut t = Transaction { mode, controls: None, backgrounds: None, styles: None };
    let mut i: usize = 0;
    while i < names.len()
        invariant
            i <= names@.len(),
            t@.mode == mode,
            t@.wf(),
            forall|k: int| 0 <= k < i ==> db@.declares(#[trigger] names@[k]),
            forall|n: StoreName|
                (#[trigger] t@.at(n)) == if names@.take(i as int).contains(n) {
                    db@.at(n)
                } else {
                    None::<StoreView>
                },
        decreases names@.len() - i,
    {
        let n = names[i];
        if !db.has_store(n) {
            return Err(TransactionError::UnknownStore);
        }
        let copy = db.store_ref(n).clone();
        let ghost tpre = t@;
        match n {
            StoreName::ControlImages => {
                t.controls = Some(copy);
            },
            StoreName::BackgroundImages => {
                t.backgrounds = Some(copy);
            },
            StoreName::Styles => {
                t.styles = Some(copy);
            },
        }
        i = i + 1;
        proof {
            assert forall|m: StoreName| (#[trigger] t@.at(m)) == if names@.take(i as int).contains(
                m,
            ) {
                db@.at(m)
            } else {
                None::<StoreView>
            } by {
                if m == n {
                    assert(names@.take(i as int)[i - 1] == n);
                    assert(names@.take(i as int).contains(m));
                } else {
                    assert(t@.at(m) == tpre.at(m));
                    if names@.take(i as int).contains(m) {
                        let w = choose|k: int|
                            0 <= k < i && (#[trigger] names@.take(i as int)[k]) == m;
                        assert(names@.take(i - 1).contains(m)) by {
                            assert(names@.take(i - 1)[w] == m);
                        }
                    } else {
                        assert(!names@.take(i - 1).contains(m)) by {
                            if names@.take(i - 1).contains(m) {
                                let w = choose|k: int|
                                    0 <= k < i - 1 && (#[trigger] names@.take(i - 1)[k]) == m;
                                assert(names@.take(i as int)[w] == m);
                            }
                        }
                    }
                }
            }
        }
    }
    proof {
        assert(names@.take(names@.len() as int) =~= names@);
    }
    Ok(t)
}

impl Transaction {
    /// Every record of the store called `n`, in insertion order. A store
    /// outside the transaction's scope yields `NotFound`.
    pub fn get_all(&self, n: StoreName) -> (r: Result<Vec<Record>, StoreError>)
        ensures
            match r {
                Ok(v) => self@.in_scope(n) && crate::record::views_of_seq(v@) == self@.store(
                    n,
                ).records,
                Err(e) => e == StoreError::NotFound && !self@.in_scope(n),
            },
    {
        let slot = match n {
            StoreName::ControlImages => &self.controls,
            StoreName::BackgroundImages => &self.backgrounds,
            StoreName::Styles => &self.styles,
        };
        match slot {
            Some(s) => Ok(s.snapshot()),
            None => Err(StoreError::NotFound),
        }
    }

    /// Insert one record into the copy of the store called `n`. The
    /// uniqueness constraint rejects a duplicate with `AlreadyExists`; a
    /// store outside the scope yields `NotFound`; either failure leaves
    /// the transaction unchanged, and the unit of work may inspect the
    /// failure and go on.
    pub fn insert(&mut self, n: StoreName, rec: Record) -> (r: Result<u64, StoreError>)
        requires
            old(self)@.mode == Mode::ReadWrite,
            old(self)@.wf(),
        ensures
            final(self)@.mode == old(self)@.mode,
            final(self)@.wf(),
            match r {
                Ok(key) => {
                    &&& old(self)@.in_scope(n)
                    &&& !(old(self)@.store(n).unique && old(self)@.store(n).contains_meta(rec@))
                    &&& key == old(self)@.store(n).records.len()
                    &&& final(self)@ == old(self)@.with(n, old(self)@.store(n).push(rec@))
                },
                Err(e) => final(self)@ == old(self)@ && match e {
                    StoreError::NotFound => !old(self)@.in_scope(n),
                    StoreError::AlreadyExists => old(self)@.in_scope(n) && old(self)@.store(
                        n,
                    ).unique && old(self)@.store(n).contains_meta(rec@),
                    StoreError::Io => false,
                },
            },
    {
        let slot = match n {
            StoreName::ControlImages => &mut self.controls,
            StoreName::BackgroundImages => &mut self.backgrounds,
            StoreName::Styles => &mut self.styles,
        };
        let taken = slot.take();
        match taken {
            None => {
                proof {
                    assert(self@ =~= old(self)@);
                }
                Err(StoreError::NotFound)
            },
            Some(mut s) => {
                let r = s.insert(rec);
                *slot = Some(s);
                proof {
                    if r is Ok {
                        assert(self@ =~= old(self)@.with(n, old(self)@.store(n).push(rec@)));
                        assert forall|m: StoreName|
                            ((#[trigger] self@.at(m)) matches Some(v) ==> v.wf()) by {
                            if m != n {
                                assert(self@.at(m) == old(self)@.at(m));
                            }
                        }
                    } else {
                        assert(self@ =~= old(self)@);
                    }
                }
                r
            },
        }
    }
}

/// One write of a read-write unit of work: insert `record` into the
/// store called `store`.
pub struct WriteOp {
    pub store: StoreName,
    pub record: Record,
}

/// The images of a sequence of writes, in order.
pub open spec fn op_views(ops: Seq<WriteOp>) -> Seq<(StoreName, RecordView)> {
    Seq::new(ops.len(), |i: int| (ops[i].store, ops[i].record@))
}

/// The transaction that `begin` opens for writing over `names` against `d`.
pub open spec fn scope_of(d: DbView, names: Seq<StoreName>) -> TxnView {
    TxnView {
        mode: Mode::ReadWrite,
        controls: if names.contains(StoreName::ControlImages) {
            d.controls
        } else {
            None
        },
        backgrounds: if names.contains(StoreName::BackgroundImages) {
            d.backgrounds
        } else {
            None
        },
        styles: if names.contains(StoreName::Styles) {
            d.styles
        } else {
            None
        },
    }
}

/// What a sequence of writes does to a transaction: the writes apply in
/// order, and the first one that fails fails the whole unit.
pub open spec fn apply_ops(t: TxnView, ops: Seq<(StoreName, RecordView)>) -> Result<
    TxnView,
    StoreError,
>
    decreases ops.len(),
{
    if ops.len() == 0 {
        Ok(t)
    } else {
        let n = ops[0].0;
        let r = ops[0].1;
        match t.at(n) {
            None => Err(StoreError::NotFound),
            Some(s) => if s.unique && s.contains_meta(r) {
                Err(StoreError::AlreadyExists)
            } else {
                apply_ops(t.with(n, s.push(r)), ops.drop_first())
            },
        }
    }
}

proof fn lemma_apply_ops_skip(t: TxnView, ops: Seq<(StoreName, RecordView)>, k: int)
    requires
        0 <= k < ops.len(),
    ensures
        apply_ops(t, ops.skip(k)) == ({
            let n = ops[k].0;
            let r = ops[k].1;
            match t.at(n) {
                None => Err(StoreError::NotFound),
                Some(s) => if s.unique && s.contains_meta(r) {
                    Err(StoreError::AlreadyExists)
                } else {
                    apply_ops(t.with(n, s.push(r)), ops.skip(k + 1))
                },
            }
        }),
{
    assert(ops.skip(k)[0] == ops[k]);
    assert(ops.skip(k).drop_first() =~= ops.skip(k + 1));
}

/// Run a read-write unit of work as one atomic transaction: open it over
/// `names`, perform every write in order, and commit only when all of
/// them succeeded. When any write fails, or a requested store is not
/// declared, the database is left exactly as it was: no reader ever
/// observes a partially-applied unit.
#[verifier::loop_isolation(false)]
pub fn run_write(db: &mut Database, names: &Vec<StoreName>, ops: &Vec<WriteOp>) -> (r: Result<
    (),
    TransactionError,
>)
    requires
        old(db)@.wf(),
        names@.len() > 0,
        forall|i: int, j: int| 0 <= i < j < names@.len() ==> names@[i] != names@[j],
    ensures
        final(db)@.wf(),
        match r {
            Ok(()) => {
                let t0 = scope_of(old(db)@, names@);
                &&& forall|i: int| 0 <= i < names@.len() ==> old(db)@.declares(#[trigger] names@[i])
                &&& apply_ops(t0, op_views(ops@)) is Ok
                &&& final(db)@.name == old(db)@.name
                &&& final(db)@.version == old(db)@.version
                &&& forall|n: StoreName|
                    (#[trigger] final(db)@.at(n)) == if names@.contains(n) {
                        apply_ops(t0, op_views(ops@))->Ok_0.at(n)
                    } else {
                        old(db)@.at(n)
                    }
            },
            Err(TransactionError::UnknownStore) => {
                &&& final(db)@ == old(db)@
                &&& exists|i: int| 0 <= i < names@.len() && !old(db)@.declares(#[trigger] names@[i])
            },
            Err(TransactionError::Aborted(e)) => {
                &&& final(db)@ == old(db)@
                &&& forall|i: int| 0 <= i < names@.len() ==> old(db)@.declares(#[trigger] names@[i])
                &&& apply_ops(scope_of(old(db)@, names@), op_views(ops@)) == Err::<TxnView,
                StoreError,
                >(e)
            },
            Err(TransactionError::OpenFailed) => false,
        },
{
    let mut t = match begin(db, names, Mode::ReadWrite) {
        Ok(t) => t,
        Err(e) => {
            return Err(e);
        },
    };
    let ghost t0 = t@;
    proof {
        assert(t0.at(StoreName::ControlImages) == if names@.contains(StoreName::ControlImages) {
            db@.at(StoreName::ControlImages)
        } else {
            None::<StoreView>
        });
        assert(t0.at(StoreName::BackgroundImages) == if names@.contains(
            StoreName::BackgroundImages,
        ) {
            db@.at(StoreName::BackgroundImages)
        } else {
            None::<StoreView>
        });
        assert(t0.at(StoreName::Styles) == if names@.contains(StoreName::Styles) {
            db@.at(StoreName::Styles)
        } else {
            None::<StoreView>
        });
        assert(t0 =~= scope_of(db@, names@));
        assert(op_views(ops@).skip(0) =~= op_views(ops@));
    }
    let mut i: usize = 0;
    while i < ops.len()
        invariant
            i <= ops@.len(),
            t@.mode == Mode::ReadWrite,
            t@.wf(),
            apply_ops(t0, op_views(ops@)) == apply_ops(t@, op_views(ops@).skip(i as int)),
            forall|n: StoreName| ((#[trigger] t@.at(n)) is Some) == (t0.at(n) is Some),
            forall|n: StoreName|
                (#[trigger] t@.at(n)) matches Some(s) ==> t0.at(n) matches Some(s0) && s0.unique
                    == s.unique,
        decreases ops@.len() - i,
    {
        let rec = ops[i].record.clone();
        let n = ops[i].store;
        let ghost tpre = t@;
        proof {
            lemma_apply_ops_skip(tpre, op_views(ops@), i as int);
            assert(op_views(ops@)[i as int] == (n, rec@));
        }
        match t.insert(n, rec) {
            Ok(_) => {},
            Err(e) => {
                return Err(TransactionError::Aborted(e));
            },
        }
        i = i + 1;
        proof {
            assert forall|m: StoreName|
                ((#[trigger] t@.at(m)) matches Some(s) ==> t0.at(m) matches Some(s0) && s0.unique
                    == s.unique) by {
                if m != n {
                    assert(t@.at(m) == tpre.at(m));
                }
            }
            assert forall|m: StoreName| (((#[trigger] t@.at(m)) is Some) == (t0.at(m) is Some)) by {
                if m != n {
                    assert(t@.at(m) == tpre.at(m));
                }
            }
        }
    }
    proof {
        assert(op_views(ops@).skip(ops@.len() as int) =~= Seq::<(StoreName, RecordView)>::empty());
        assert(apply_ops(t0, op_views(ops@)) == Ok::<TxnView, StoreError>(t@));
    }
    commit(db, t);
    Ok(())
}

/// Publish every store copy of the transaction into the database at
/// once. A transaction never alters the schema: each store in scope must
/// already be declared, with the constraint it was opened with.
pub fn commit(db: &mut Database, t: Transaction)
    requires
        t@.mode == Mode::ReadWrite,
        t@.wf(),
        old(db)@.wf(),
        forall|n: StoreName|
            (#[trigger] t@.at(n)) matches Some(s) ==> old(db)@.at(n) matches Some(d) && d.unique
                == s.unique,
    ensures
        final(db)@.wf(),
        final(db)@.name == old(db)@.name,
        final(db)@.version == old(db)@.version,
        forall|n: StoreName|
            (#[trigger] final(db)@.at(n)) == if t@.in_scope(n) {
                t@.at(n)
            } else {
                old(db)@.at(n)
            },
{
    let ghost tv = t@;
    let Transaction { mode: _, controls, backgrounds, styles } = t;
    if let Some(s) = controls {
        db.set_store(StoreName::ControlImages, s);
    }
    if let Some(s) = backgrounds {
        db.set_store(StoreName::BackgroundImages, s);
    }
    if let Some(s) = styles {
        db.set_store(StoreName::Styles, s);
    }
    proof {
        assert forall|n: StoreName| #[trigger] db@.at(n) == (if tv.in_scope(n) {
            tv.at(n)
        } else {
            old(db)@.at(n)
        }) by {
            match n {
                StoreName::ControlImages => {},
                StoreName::BackgroundImages => {},
                StoreName::Styles => {},
            }
        }
        assert forall|n: StoreName| ((#[trigger] db@.at(n)) matches Some(s) ==> s.wf()) by {
            if tv.in_scope(n) {
                assert(tv.at(n) matches Some(v) ==> v.wf());
            } else {
                assert(old(db)@.at(n) matches Some(v) ==> v.wf());
            }
        }
    }
}

} // verus!
