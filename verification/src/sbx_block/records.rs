//! The list of records that a metadata block owns.

use vstd::prelude::*;
use smallvec::SmallVec;
use crate::sbx_block::metadata::{Metadata, MetadataView, views};

verus! {

/// A list of metadata records with inline room for sixteen: a `SmallVec`
/// of the `smallvec` crate.
#[verifier::external_body]
#[derive(Debug, PartialEq)]
pub struct MetadataList {
    inner: SmallVec<[Metadata; 16]>,
}

/// The records that a list holds, in order.
pub uninterp spec fn list_items(list: MetadataList) -> Seq<Metadata>;

/// `SmallVec::new`: a list without records.
#[verifier::external_body]
fn list_new() -> (list: MetadataList)
    ensures
        list_items(list) == Seq::<Metadata>::empty(),
{
    MetadataList { inner: SmallVec::new() }
}

/// `SmallVec::from_vec`: a list of the records of a vector, in order.
#[verifier::external_body]
fn list_from_vec(records: Vec<Metadata>) -> (list: MetadataList)
    ensures
        list_items(list) == records@,
{
    MetadataList { inner: SmallVec::from_vec(records) }
}

/// `SmallVec::as_slice`: the records as a slice.
#[verifier::external_body]
fn list_as_slice(list: &MetadataList) -> (records: &[Metadata])
    ensures
        records@ == list_items(*list),
{
    list.inner.as_slice()
}

/// `SmallVec::push`: one more record at the end.
#[verifier::external_body]
fn list_push(list: &mut MetadataList, record: Metadata)
    ensures
        list_items(*final(list)) == list_items(*old(list)).push(record),
{
    list.inner.push(record)
}

/// `SmallVec::clear`: no record is left.
#[verifier::external_body]
fn list_clear(list: &mut MetadataList)
    ensures
        list_items(*final(list)) == Seq::<Metadata>::empty(),
{
    list.inner.clear()
}

impl MetadataList {
    /// The records of the list as mathematical data.
    pub open spec fn records(&self) -> Seq<MetadataView> {
        views(list_items(*self))
    }

    /// A list without records.
    pub fn new() -> (list: MetadataList)
        ensures
            list.records() == Seq::<MetadataView>::empty(),
    {
        let list = list_new();
        proof {
            assert(list.records() =~= Seq::<MetadataView>::empty());
        }
        list
    }

    /// A list of the records of a vector, in order.
    pub fn from_vec(records: Vec<Metadata>) -> (list: MetadataList)
        ensures
            list.records() == views(records@),
    {
        list_from_vec(records)
    }

    /// The records as a slice.
    pub fn as_slice(&self) -> (records: &[Metadata])
        ensures
            views(records@) == self.records(),
            records@ == list_items(*self),
    {
        list_as_slice(self)
    }

    /// The number of records.
    pub fn len(&self) -> (n: usize)
        ensures
            n == self.records().len(),
    {
        list_as_slice(self).len()
    }

    /// Puts one more record at the end.
    pub fn push(&mut self, record: Metadata)
        ensures
            final(self).records() == old(self).records().push(record@),
    {
        list_push(self, record);
        proof {
            assert(self.records() =~= old(self).records().push(record@));
        }
    }

    /// Takes every record out.
    pub fn clear(&mut self)
        ensures
            final(self).records() == Seq::<MetadataView>::empty(),
    {
        list_clear(self);
        proof {
            assert(self.records() =~= Seq::<MetadataView>::empty());
        }
    }
}

} // verus!
