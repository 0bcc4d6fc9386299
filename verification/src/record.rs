//! Records: an opaque binary payload plus the metadata fields that the
//! uniqueness constraint ranges over.

use vstd::prelude::*;

verus! {

/// One stored unit: a binary payload together with the four metadata
/// fields (name, last-modified timestamp, byte size, media type) that a
/// store's uniqueness constraint compares.
pub struct Record {
    pub name: String,
    pub last_modified: u64,
    pub size: u64,
    pub media_type: String,
    pub payload: Vec<u8>,
}

/// Mathematical image of a [`Record`].
#[verifier::ext_equal]
pub ghost struct RecordView {
    pub name: Seq<char>,
    pub last_modified: u64,
    pub size: u64,
    pub media_type: Seq<char>,
    pub payload: Seq<u8>,
}

impl View for Record {
    type V = RecordView;

    open spec fn view(&self) -> RecordView {
        RecordView {
            name: self.name@,
            last_modified: self.last_modified,
            size: self.size,
            media_type: self.media_type@,
            payload: self.payload@,
        }
    }
}

impl RecordView {
    /// Two records are duplicates of each other when they agree on all
    /// four constrained fields; the payload itself is not compared.
    pub open spec fn same_meta(self, other: RecordView) -> bool {
        &&& self.name == other.name
        &&& self.last_modified == other.last_modified
        &&& self.size == other.size
        &&& self.media_type == other.media_type
    }
}

/// The images of a sequence of records, in the same order.
pub open spec fn views_of_seq(s: Seq<Record>) -> Seq<RecordView> {
    Seq::new(s.len(), |i: int| s[i]@)
}

impl Record {
    /// Whether `self` and `other` agree on all four constrained fields.
    pub fn meta_matches(&self, other: &Record) -> (r: bool)
        ensures
            r == self@.same_meta(other@),
    {
        self.name == other.name && self.last_modified == other.last_modified
            && self.size == other.size && self.media_type == other.media_type
    }
}

impl Clone for Record {
    fn clone(&self) -> (r: Self)
        ensures
            r@ == self@,
    {
        let r = Record {
            name: self.name.clone(),
            last_modified: self.last_modified,
            size: self.size,
            media_type: self.media_type.clone(),
            payload: copy_bytes(&self.payload),
        };
        proof {
            assert(r@ =~= self@);
        }
        r
    }
}

/// A fresh byte vector holding the same bytes as `v`.
pub fn copy_bytes(v: &Vec<u8>) -> (r: Vec<u8>)
    ensures
        r@ == v@,
{
    let mut r: Vec<u8> = Vec::new();
    let mut i: usize = 0;
    while i < v.len()
        invariant
            i <= v.len(),
            r@ == v@.take(i as int),
        decreases v.len() - i,
    {
        r.push(v[i]);
        i = i + 1;
        proof {
            assert(r@ =~= v@.take(i as int));
        }
    }
    proof {
        assert(v@.take(v.len() as int) =~= v@);
    }
    r
}

} // verus!
