//! The asset pipeline: bulk retrieval-and-conversion of stored payloads
//! into display references and decoded text, and single-record insertion
//! with duplicate detection.

use vstd::prelude::*;
use vstd::utf8::{decode_utf8, valid_utf8};
use crate::db::{Database, DbView, StoreName};
use crate::errors::{ConversionError, StoreError, TransactionError};
use crate::record::{Record, RecordView, views_of_seq};
use crate::txn::{begin, commit, Mode};

verus! {

/// A transient, process-local handle letting the consumer display one
/// stored binary payload. It is recreated on every read, never
/// persisted, and must be released by whoever holds the bundle last.
pub struct AssetReference {
    pub store: StoreName,
    pub key: u64,
    pub media_type: String,
    pub size: u64,
    pub released: bool,
}

/// Mathematical image of an [`AssetReference`].
#[verifier::ext_equal]
pub ghost struct AssetRefView {
    pub store: StoreName,
    pub key: u64,
    pub media_type: Seq<char>,
    pub size: u64,
    pub released: bool,
}

impl View for AssetReference {
    type V = AssetRefView;

    open spec fn view(&self) -> AssetRefView {
        AssetRefView {
            store: self.store,
            key: self.key,
            media_type: self.media_type@,
            size: self.size,
            released: self.released,
        }
    }
}

impl AssetReference {
    /// Give the handle up. A released reference keeps its description
    /// but no longer stands for a displayable resource.
    pub fn release(&mut self)
        ensures
            final(self)@ == (AssetRefView { released: true, ..old(self)@ }),
    {
        self.released = true;
        proof {
            assert(self@ =~= (AssetRefView { released: true, ..old(self)@ }));
        }
    }
}

/// The materialized result of one read: the display references of the
/// two binary-asset stores and the decoded entries of the style store,
/// each in store fetch order.
pub struct AssetBundle {
    pub controls: Vec<AssetReference>,
    pub backgrounds: Vec<AssetReference>,
    pub styles: Vec<String>,
}

/// Whether a stored record can be interpreted as a binary asset: its
/// declared byte size must match its payload.
pub open spec fn binary_wellformed(r: RecordView) -> bool {
    r.size == r.payload.len()
}

/// The display reference produced for the record stored under `key` in
/// the store called `n`.
pub open spec fn ref_view(n: StoreName, key: u64, r: RecordView) -> AssetRefView {
    AssetRefView { store: n, key, media_type: r.media_type, size: r.size, released: false }
}

/// The display references that a bulk read of the store called `n`
/// produces: one per interpretable record, in store order; a record that
/// cannot be interpreted is dropped, and the rest keep their keys.
pub open spec fn refs_of(n: StoreName, rs: Seq<RecordView>) -> Seq<AssetRefView>
    decreases rs.len(),
{
    if rs.len() == 0 {
        Seq::empty()
    } else {
        let prefix = refs_of(n, rs.drop_last());
        if binary_wellformed(rs.last()) {
            prefix.push(ref_view(n, (rs.len() - 1) as u64, rs.last()))
        } else {
            prefix
        }
    }
}

/// The style entries that a bulk read of the text store produces: one
/// decoded text per record whose payload is valid text, in store order;
/// a record that does not decode is dropped.
pub open spec fn texts_of(rs: Seq<RecordView>) -> Seq<Seq<char>>
    decreases rs.len(),
{
    if rs.len() == 0 {
        Seq::empty()
    } else {
        let prefix = texts_of(rs.drop_last());
        if valid_utf8(rs.last().payload) {
            prefix.push(decode_utf8(rs.last().payload))
        } else {
            prefix
        }
    }
}

/// The images of a sequence of references, in order.
pub open spec fn ref_views_of_seq(s: Seq<AssetReference>) -> Seq<AssetRefView> {
    Seq::new(s.len(), |i: int| s[i]@)
}

/// The images of a sequence of decoded entries, in order.
pub open spec fn text_views_of_seq(s: Seq<String>) -> Seq<Seq<char>> {
    Seq::new(s.len(), |i: int| s[i]@)
}

/// Relies on `String::from_utf8`: it succeeds exactly on the byte
/// sequences that `vstd::utf8::valid_utf8` accepts, and returns the
/// character sequence that `vstd::utf8::decode_utf8` defines for them.
#[verifier::external_body]
fn decode_payload(bytes: &Vec<u8>) -> (r: Option<String>)
    ensures
        r is Some <==> valid_utf8(bytes@),
        r matches Some(s) ==> s@ == decode_utf8(bytes@),
{
    String::from_utf8(bytes.clone()).ok()
}

/// Convert one stored record into a display reference for the store
/// called `n`, under the surrogate key `key`.
pub fn to_reference(n: StoreName, key: u64, rec: &Record) -> (r: Result<
    AssetReference,
    ConversionError,
>)
    ensures
        match r {
            Ok(a) => binary_wellformed(rec@) && a@ == ref_view(n, key, rec@),
            Err(e) => e == ConversionError::NotBinary && !binary_wellformed(rec@),
        },
{
    if rec.payload.len() as u64 == rec.size {
        let a = AssetReference {
            store: n,
            key,
            media_type: rec.media_type.clone(),
            size: rec.size,
            released: false,
        };
        proof {
            assert(a@ =~= ref_view(n, key, rec@));
        }
        Ok(a)
    } else {
        Err(ConversionError::NotBinary)
    }
}

/// Decode one stored record's payload as text.
pub fn to_text(rec: &Record) -> (r: Result<String, ConversionError>)
    ensures
        match r {
            Ok(s) => valid_utf8(rec@.payload) && s@ == decode_utf8(rec@.payload),
            Err(e) => e == ConversionError::NotText && !valid_utf8(rec@.payload),
        },
{
    match decode_payload(&rec.payload) {
        Some(s) => Ok(s),
        None => Err(ConversionError::NotText),
    }
}

/// Convert every interpretable record of one fetched store, keeping
/// store order and skipping the rest.
#[verifier::loop_isolation(false)]
fn convert_references(n: StoreName, recs: &Vec<Record>) -> (out: Vec<AssetReference>)
    ensures
        ref_views_of_seq(out@) == refs_of(n, views_of_seq(recs@)),
{
    let mut out: Vec<AssetReference> = Vec::new();
    let mut i: usize = 0;
    proof {
        assert(views_of_seq(recs@).take(0) =~= Seq::<RecordView>::empty());
        assert(ref_views_of_seq(out@) =~= refs_of(n, views_of_seq(recs@).take(0)));
    }
    while i < recs.len()
        invariant
            i <= recs@.len(),
            ref_views_of_seq(out@) == refs_of(n, views_of_seq(recs@).take(i as int)),
        decreases recs@.len() - i,
    {
        let ghost pre = views_of_seq(recs@).take(i as int);
        match to_reference(n, i as u64, &recs[i]) {
            Ok(a) => {
                out.push(a);
            },
            Err(_) => {},
        }
        i = i + 1;
        proof {
            let cur = views_of_seq(recs@).take(i as int);
            assert(cur.drop_last() =~= pre);
            assert(cur.last() == recs@[i - 1]@);
            assert(ref_views_of_seq(out@) =~= refs_of(n, cur));
        }
    }
    proof {
        assert(views_of_seq(recs@).take(recs@.len() as int) =~= views_of_seq(recs@));
    }
    out
}

/// Decode every text record of the fetched style store, keeping store
/// order and skipping the rest.
#[verifier::loop_isolation(false)]
fn convert_texts(recs: &Vec<Record>) -> (out: Vec<String>)
    ensures
        text_views_of_seq(out@) == texts_of(views_of_seq(recs@)),
{
    let mut out: Vec<String> = Vec::new();
    let mut i: usize = 0;
    proof {
        assert(views_of_seq(recs@).take(0) =~= Seq::<RecordView>::empty());
        assert(text_views_of_seq(out@) =~= texts_of(views_of_seq(recs@).take(0)));
    }
    while i < recs.len()
        invariant
            i <= recs@.len(),
            text_views_of_seq(out@) == texts_of(views_of_seq(recs@).take(i as int)),
        decreases recs@.len() - i,
    {
        let ghost pre = views_of_seq(recs@).take(i as int);
        match to_text(&recs[i]) {
            Ok(s) => {
                out.push(s);
            },
            Err(_) => {},
        }
        i = i + 1;
        proof {
            let cur = views_of_seq(recs@).take(i as int);
            assert(cur.drop_last() =~= pre);
            assert(cur.last() == recs@[i - 1]@);
            assert(text_views_of_seq(out@) =~= texts_of(cur));
        }
    }
    proof {
        assert(views_of_seq(recs@).take(recs@.len() as int) =~= views_of_seq(recs@));
    }
    out
}

/// The fixed scope of a bulk read: every declared store.
fn all_store_names() -> (names: Vec<StoreName>)
    ensures
        names@ == seq![StoreName::ControlImages, StoreName::BackgroundImages, StoreName::Styles],
{
    let mut names: Vec<StoreName> = Vec::new();
    names.push(StoreName::ControlImages);
    names.push(StoreName::BackgroundImages);
    names.push(StoreName::Styles);
    proof {
        assert(names@ =~= seq![
            StoreName::ControlImages,
            StoreName::BackgroundImages,
            StoreName::Styles,
        ]);
    }
    names
}

/// Fetch every record of every store in one read-only transaction and
/// convert them: interpretable binary records become display references,
/// decodable text records become style entries, each store in fetch
/// order. A record that cannot be converted is dropped from the result;
/// the read as a whole fails only when a declared store is missing from
/// the schema.
pub fn read(db: &Database) -> (r: Result<AssetBundle, TransactionError>)
    requires
        db@.wf(),
    ensures
        match r {
            Ok(b) => {
                &&& db@.declares(StoreName::ControlImages)
                &&& db@.declares(StoreName::BackgroundImages)
                &&& db@.declares(StoreName::Styles)
                &&& ref_views_of_seq(b.controls@) == refs_of(
                    StoreName::ControlImages,
                    db@.store(StoreName::ControlImages).records,
                )
                &&& ref_views_of_seq(b.backgrounds@) == refs_of(
                    StoreName::BackgroundImages,
                    db@.store(StoreName::BackgroundImages).records,
                )
                &&& text_views_of_seq(b.styles@) == texts_of(db@.store(StoreName::Styles).records)
            },
            Err(e) => {
                &&& e == TransactionError::UnknownStore
                &&& !(db@.declares(StoreName::ControlImages) && db@.declares(
                    StoreName::BackgroundImages,
                ) && db@.declares(StoreName::Styles))
            },
        },
{
    let names = all_store_names();
    let t = match begin(db, &names, Mode::ReadOnly) {
        Ok(t) => t,
        Err(e) => {
            proof {
                let w = choose|i: int| 0 <= i < names@.len() && !db@.declares(#[trigger] names@[i]);
                assert(names@[w] == StoreName::ControlImages || names@[w]
                    == StoreName::BackgroundImages || names@[w] == StoreName::Styles);
            }
            return Err(e);
        },
    };
    proof {
        assert(names@.contains(StoreName::ControlImages)) by {
            assert(names@[0] == StoreName::ControlImages);
        }
        assert(names@.contains(StoreName::BackgroundImages)) by {
            assert(names@[1] == StoreName::BackgroundImages);
        }
        assert(names@.contains(StoreName::Styles)) by {
            assert(names@[2] == StoreName::Styles);
        }
        assert(db@.declares(names@[0]));
        assert(db@.declares(names@[1]));
        assert(db@.declares(names@[2]));
    }
    let control_recs = match t.get_all(StoreName::ControlImages) {
        Ok(v) => v,
        Err(_) => vstd::pervasive::unreached(),
    };
    let background_recs = match t.get_all(StoreName::BackgroundImages) {
        Ok(v) => v,
        Err(_) => vstd::pervasive::unreached(),
    };
    let style_recs = match t.get_all(StoreName::Styles) {
        Ok(v) => v,
        Err(_) => vstd::pervasive::unreached(),
    };
    let b = AssetBundle {
        controls: convert_references(StoreName::ControlImages, &control_recs),
        backgrounds: convert_references(StoreName::BackgroundImages, &background_recs),
        styles: convert_texts(&style_recs),
    };
    Ok(b)
}

/// Outcome of storing one record.
#[derive(Clone, Copy, PartialEq, Eq, Structural, Debug)]
pub enum StoreOutcome {
    /// The record was inserted and committed.
    Stored,
    /// A record with the same constrained fields was already present;
    /// the intent is satisfied, so this is a benign outcome, not an
    /// error, and nothing was written.
    AlreadyPresent,
}

/// Insert one record into the style store in one read-write transaction.
/// A duplicate (the uniqueness constraint rejects it) is reported as the
/// benign `AlreadyPresent` outcome and nothing is written; the call
/// fails only when the style store is not declared.
pub fn store(db: &mut Database, rec: Record) -> (r: Result<StoreOutcome, TransactionError>)
    requires
        old(db)@.wf(),
    ensures
        final(db)@.wf(),
        final(db)@.name == old(db)@.name,
        final(db)@.version == old(db)@.version,
        match r {
            Ok(StoreOutcome::Stored) => {
                &&& old(db)@.declares(StoreName::Styles)
                &&& !(old(db)@.store(StoreName::Styles).unique && old(db)@.store(
                    StoreName::Styles,
                ).contains_meta(rec@))
                &&& final(db)@ == old(db)@.with(
                    StoreName::Styles,
                    old(db)@.store(StoreName::Styles).push(rec@),
                )
            },
            Ok(StoreOutcome::AlreadyPresent) => {
                &&& old(db)@.declares(StoreName::Styles)
                &&& old(db)@.store(StoreName::Styles).unique
                &&& old(db)@.store(StoreName::Styles).contains_meta(rec@)
                &&& final(db)@ == old(db)@
            },
            Err(TransactionError::UnknownStore) => {
                &&& !old(db)@.declares(StoreName::Styles)
                &&& final(db)@ == old(db)@
            },
            Err(TransactionError::OpenFailed) => false,
            Err(TransactionError::Aborted(_)) => false,
        },
{
    let mut names: Vec<StoreName> = Vec::new();
    names.push(StoreName::Styles);
    let mut t = match begin(db, &names, Mode::ReadWrite) {
        Ok(t) => t,
        Err(e) => {
            proof {
                let w = choose|i: int| 0 <= i < names@.len() && !db@.declares(#[trigger] names@[i]);
                assert(names@[w] == StoreName::Styles);
            }
            return Err(e);
        },
    };
    let ghost t0 = t@;
    proof {
        assert(names@.contains(StoreName::Styles)) by {
            assert(names@[0] == StoreName::Styles);
        }
        assert(db@.declares(names@[0]));
        assert(!names@.contains(StoreName::ControlImages)) by {
            if names@.contains(StoreName::ControlImages) {
                let w = choose|i: int|
                    0 <= i < names@.len() && (#[trigger] names@[i]) == StoreName::ControlImages;
                assert(names@[w] == StoreName::Styles);
            }
        }
        assert(!names@.contains(StoreName::BackgroundImages)) by {
            if names@.contains(StoreName::BackgroundImages) {
                let w = choose|i: int|
                    0 <= i < names@.len() && (#[trigger] names@[i]) == StoreName::BackgroundImages;
                assert(names@[w] == StoreName::Styles);
            }
        }
        assert(t0.at(StoreName::ControlImages) is None);
        assert(t0.at(StoreName::BackgroundImages) is None);
        assert(t0.at(StoreName::Styles) == db@.at(StoreName::Styles));
    }
    match t.insert(StoreName::Styles, rec) {
        Ok(_) => {
            let ghost tv = t@;
            proof {
                assert(tv.at(StoreName::ControlImages) is None);
                assert(tv.at(StoreName::BackgroundImages) is None);
                assert forall|n: StoreName|
                    ((#[trigger] tv.at(n)) matches Some(s) ==> db@.at(n) matches Some(d) && d.unique
                        == s.unique) by {
                    if n == StoreName::Styles {
                        assert(tv.at(n) == Some(t0.store(n).push(rec@)));
                    }
                }
            }
            commit(db, t);
            proof {
                assert forall|n: StoreName| #[trigger] db@.at(n) == old(db)@.with(
                    StoreName::Styles,
                    old(db)@.store(StoreName::Styles).push(rec@),
                ).at(n) by {
                    if n != StoreName::Styles {
                        assert(!tv.in_scope(n));
                    }
                }
                let target = old(db)@.with(
                    StoreName::Styles,
                    old(db)@.store(StoreName::Styles).push(rec@),
                );
                assert(db@.at(StoreName::ControlImages) == target.at(StoreName::ControlImages));
                assert(db@.at(StoreName::BackgroundImages) == target.at(
                    StoreName::BackgroundImages,
                ));
                assert(db@.at(StoreName::Styles) == target.at(StoreName::Styles));
                assert(db@ =~= target);
            }
            Ok(StoreOutcome::Stored)
        },
        Err(StoreError::AlreadyExists) => Ok(StoreOutcome::AlreadyPresent),
        Err(_) => vstd::pervasive::unreached(),
    }
}

/// Uniqueness is benign on repeat: once a record is stored into the
/// constrained style store, storing any record with the same constrained
/// fields finds it already present — the store keeps exactly the one
/// record that the first call added, and the second call's `store`
/// contract therefore reports `AlreadyPresent` instead of an error.
pub proof fn lemma_duplicate_insert_benign(d: DbView, a: RecordView, b: RecordView)
    requires
        d.wf(),
        d.declares(StoreName::Styles),
        d.store(StoreName::Styles).unique,
        !d.store(StoreName::Styles).contains_meta(a),
        a.same_meta(b),
    ensures
        ({
            let d1 = d.with(StoreName::Styles, d.store(StoreName::Styles).push(a));
            &&& d1.declares(StoreName::Styles)
            &&& d1.store(StoreName::Styles).unique
            &&& d1.store(StoreName::Styles).records.len() == d.store(
                StoreName::Styles,
            ).records.len() + 1
            &&& d1.store(StoreName::Styles).contains_meta(b)
        }),
{
    let d1 = d.with(StoreName::Styles, d.store(StoreName::Styles).push(a));
    let len = d.store(StoreName::Styles).records.len() as int;
    assert(d1.store(StoreName::Styles).records[len] == a);
    assert(d1.store(StoreName::Styles).records[len].same_meta(b));
}

/// Read preserves insertion order: when every record of the style store
/// decodes as text, the bundle's style entries are exactly the records'
/// decoded payloads, one per record, in insertion order.
pub proof fn lemma_text_order(rs: Seq<RecordView>)
    requires
        forall|i: int| 0 <= i < rs.len() ==> valid_utf8((#[trigger] rs[i]).payload),
    ensures
        texts_of(rs).len() == rs.len(),
        forall|i: int| 0 <= i < rs.len() ==> texts_of(rs)[i] == decode_utf8(
            (#[trigger] rs[i]).payload,
        ),
    decreases rs.len(),
{
    if rs.len() > 0 {
        assert forall|i: int| 0 <= i < rs.drop_last().len() implies valid_utf8(
            (#[trigger] rs.drop_last()[i]).payload,
        ) by {
            assert(rs.drop_last()[i] == rs[i]);
        }
        lemma_text_order(rs.drop_last());
        assert forall|i: int| 0 <= i < rs.len() implies texts_of(rs)[i] == decode_utf8(
            (#[trigger] rs[i]).payload,
        ) by {
            if i < rs.len() - 1 {
                assert(texts_of(rs.drop_last())[i] == decode_utf8(rs.drop_last()[i].payload));
                assert(rs.drop_last()[i] == rs[i]);
            }
        }
    }
}

/// Partial-read tolerance: one corrupt record in the middle of the style
/// store does not block the rest of a read. The decoded entries are
/// exactly those of the records around it, in order, and the read itself
/// (whose contract speaks through `texts_of`) surfaces no error for it.
pub proof fn lemma_corrupt_record_skipped(a: Seq<RecordView>, c: RecordView, b: Seq<RecordView>)
    requires
        forall|i: int| 0 <= i < a.len() ==> valid_utf8((#[trigger] a[i]).payload),
        !valid_utf8(c.payload),
        forall|i: int| 0 <= i < b.len() ==> valid_utf8((#[trigger] b[i]).payload),
    ensures
        texts_of(a + seq![c] + b) == texts_of(a) + texts_of(b),
    decreases b.len(),
{
    let whole = a + seq![c] + b;
    if b.len() == 0 {
        assert(whole =~= a + seq![c]);
        assert((a + seq![c]).drop_last() =~= a);
        assert((a + seq![c]).last() == c);
        assert(texts_of(a) + texts_of(b) =~= texts_of(a));
    } else {
        lemma_corrupt_record_skipped(a, c, b.drop_last());
        assert(whole.drop_last() =~= a + seq![c] + b.drop_last());
        assert(whole.last() == b.last());
        assert(texts_of(whole) == (texts_of(a) + texts_of(b.drop_last())).push(
            decode_utf8(b.last().payload),
        ));
        assert(texts_of(b) == texts_of(b.drop_last()).push(decode_utf8(b.last().payload)));
        assert(texts_of(whole) =~= texts_of(a) + texts_of(b));
    }
}

/// Read preserves insertion order for binary stores as well: when every
/// record of a store is interpretable, the references come out one per
/// record, in insertion order, each under the key the record was stored
/// at.
pub proof fn lemma_reference_order(n: StoreName, rs: Seq<RecordView>)
    requires
        forall|i: int| 0 <= i < rs.len() ==> binary_wellformed(#[trigger] rs[i]),
    ensures
        refs_of(n, rs).len() == rs.len(),
        forall|i: int| 0 <= i < rs.len() ==> refs_of(n, rs)[i] == ref_view(
            n,
            i as u64,
            #[trigger] rs[i],
        ),
    decreases rs.len(),
{
    if rs.len() > 0 {
        assert forall|i: int| 0 <= i < rs.drop_last().len() implies binary_wellformed(
            #[trigger] rs.drop_last()[i],
        ) by {
            assert(rs.drop_last()[i] == rs[i]);
        }
        lemma_reference_order(n, rs.drop_last());
        assert forall|i: int| 0 <= i < rs.len() implies refs_of(n, rs)[i] == ref_view(
            n,
            i as u64,
            #[trigger] rs[i],
        ) by {
            if i < rs.len() - 1 {
                assert(refs_of(n, rs.drop_last())[i] == ref_view(n, i as u64, rs.drop_last()[i]));
                assert(rs.drop_last()[i] == rs[i]);
            }
        }
    }
}

} // verus!
