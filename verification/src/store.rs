//! A store: a named, append-friendly collection of records with an
//! optional compound uniqueness constraint.

use vstd::prelude::*;
use crate::errors::StoreError;
use crate::record::{Record, RecordView, views_of_seq};

verus! {

/// The contents of one store. Records are kept in insertion order; the
/// surrogate key of a record is its position in `records`.
pub struct StoreState {
    /// Whether the compound uniqueness constraint over
    /// (name, last_modified, size, media_type) is declared on this store.
    pub unique: bool,
    pub records: Vec<Record>,
}

/// Mathematical image of a [`StoreState`].
#[verifier::ext_equal]
pub ghost struct StoreView {
    pub unique: bool,
    pub records: Seq<RecordView>,
}

impl View for StoreState {
    type V = StoreView;

    open spec fn view(&self) -> StoreView {
        StoreView { unique: self.unique, records: views_of_seq(self.records@) }
    }
}

/// No two records of `rs` agree on all four constrained fields.
pub open spec fn duplicate_free(rs: Seq<RecordView>) -> bool {
    forall|i: int, j: int|
        0 <= i < j < rs.len() ==> !(#[trigger] rs[i]).same_meta(#[trigger] rs[j])
}

impl StoreView {
    /// Some record of the store agrees with `r` on all constrained fields.
    pub open spec fn contains_meta(self, r: RecordView) -> bool {
        exists|i: int| 0 <= i < self.records.len() && (#[trigger] self.records[i]).same_meta(r)
    }

    /// The store's invariant: a constrained store never holds two
    /// records with identical constrained fields.
    pub open spec fn wf(self) -> bool {
        self.unique ==> duplicate_free(self.records)
    }

    /// The store with `r` appended.
    pub open spec fn push(self, r: RecordView) -> StoreView {
        StoreView { unique: self.unique, records: self.records.push(r) }
    }
}

impl StoreState {
    /// An empty store carrying the uniqueness constraint.
    pub fn empty_unique() -> (s: StoreState)
        ensures
            s@ == (StoreView { unique: true, records: Seq::<RecordView>::empty() }),
    {
        let s = StoreState { unique: true, records: Vec::new() };
        proof {
            assert(s@ =~= StoreView { unique: true, records: Seq::<RecordView>::empty() });
        }
        s
    }

    /// Whether some stored record agrees with `r` on all constrained fields.
    pub fn has_meta(&self, r: &Record) -> (found: bool)
        ensures
            found == self@.contains_meta(r@),
    {
        let mut i: usize = 0;
        while i < self.records.len()
            invariant
                i <= self.records.len(),
                forall|k: int| 0 <= k < i ==> !(#[trigger] self@.records[k]).same_meta(r@),
            decreases self.records.len() - i,
        {
            if self.records[i].meta_matches(r) {
                proof {
                    assert(self@.records[i as int].same_meta(r@));
                }
                return true;
            }
            i = i + 1;
        }
        false
    }

    /// Whether two stored records agree on all constrained fields, that
    /// is, whether declaring the uniqueness constraint would conflict
    /// with the data already present.
    pub fn has_internal_duplicate(&self) -> (found: bool)
        ensures
            found == !duplicate_free(self@.records),
    {
        let mut i: usize = 0;
        while i < self.records.len()
            invariant
                i <= self.records.len(),
                forall|a: int, b: int|
                    0 <= a < b < self.records.len() && a < i
                        ==> !(#[trigger] self@.records[a]).same_meta(#[trigger] self@.records[b]),
            decreases self.records.len() - i,
        {
            let mut j: usize = i + 1;
            while j < self.records.len()
                invariant
                    i < j || i + 1 == j,
                    i < self.records.len(),
                    j <= self.records.len(),
                    i + 1 <= j,
                    forall|b: int|
                        i < b < j ==> !(#[trigger] self@.records[i as int]).same_meta(
                            self@.records[b],
                        ),
                decreases self.records.len() - j,
            {
                if self.records[i].meta_matches(&self.records[j]) {
                    proof {
                        assert(self@.records[i as int].same_meta(self@.records[j as int]));
                    }
                    return true;
                }
                j = j + 1;
            }
            i = i + 1;
        }
        false
    }

    /// Insert one record. When the uniqueness constraint is declared and
    /// a record with the same constrained fields is already present, the
    /// insertion is rejected with `AlreadyExists` and the store is left
    /// unchanged; otherwise the record is appended and its surrogate key
    /// (its position) is returned.
    pub fn insert(&mut self, rec: Record) -> (r: Result<u64, StoreError>)
        requires
            old(self)@.wf(),
        ensures
            final(self)@.wf(),
            match r {
                Ok(key) => {
                    &&& !(old(self)@.unique && old(self)@.contains_meta(rec@))
                    &&& key == old(self)@.records.len()
                    &&& final(self)@ == old(self)@.push(rec@)
                },
                Err(e) => {
                    &&& e == StoreError::AlreadyExists
                    &&& old(self)@.unique && old(self)@.contains_meta(rec@)
                    &&& final(self)@ == old(self)@
                },
            },
    {
        if self.unique && self.has_meta(&rec) {
            return Err(StoreError::AlreadyExists);
        }
        let key = self.records.len() as u64;
        let ghost before = self@;
        self.records.push(rec);
        proof {
            assert(self@.records =~= before.records.push(rec@));
            assert(self@ =~= before.push(rec@));
        }
        Ok(key)
    }

    /// A copy of every stored record, in insertion order.
    pub fn snapshot(&self) -> (r: Vec<Record>)
        ensures
            views_of_seq(r@) == self@.records,
    {
        let mut r: Vec<Record> = Vec::new();
        let mut i: usize = 0;
        while i < self.records.len()
            invariant
                i <= self.records.len(),
                r@.len() == i,
                forall|k: int| 0 <= k < i ==> (#[trigger] r@[k])@ == self@.records[k],
            decreases self.records.len() - i,
        {
            let c = self.records[i].clone();
            proof {
                assert(c@ == self@.records[i as int]);
            }
            r.push(c);
            i = i + 1;
        }
        proof {
            assert(views_of_seq(r@) =~= self@.records);
        }
        r
    }
}

impl Clone for StoreState {
    fn clone(&self) -> (r: Self)
        ensures
            r@ == self@,
    {
        let r = StoreState { unique: self.unique, records: self.snapshot() };
        proof {
            assert(r@ =~= self@);
        }
        r
    }
}

} // verus!
