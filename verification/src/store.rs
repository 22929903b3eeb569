//! The index store: a bucket of a `nut` database, read as a list of pairs.

use crate::common::KeyValue;
use crate::executor::{pairs_view, KvPair, KvPairView};
use crate::resolve::{
    inspect, predicates_hashable, refs_view, spec_inspect, ChunkRef, ChunkRefView, IndexError,
    IndexErrorView,
};
use vstd::prelude::*;

verus! {

/// `nut::Bucket`, a collection of pairs inside a database file. Nothing of
/// its inside is visible here; what it holds goes by `bucket_pairs`.
#[verifier::external_type_specification]
#[verifier::external_body]
pub struct ExBucket(nut::Bucket);

/// The pairs that a bucket holds, in key order, each as its key and, unless
/// the key names a nested bucket, its value.
pub uninterp spec fn bucket_pairs(bucket: nut::Bucket) -> Seq<(Seq<u8>, Option<Seq<u8>>)>;

/// A list of pairs as keys and values.
pub open spec fn pairs_as_tuples(pairs: Seq<KvPairView>) -> Seq<(Seq<u8>, Option<Seq<u8>>)> {
    Seq::new(pairs.len(), |i: int| (pairs[i].key, pairs[i].value))
}

/// `nut::Bucket::for_each`, with a handler that copies each pair out: the
/// pairs of the bucket in the order in which the cursor walks them, or
/// nothing where the walk fails.
#[verifier::external_body]
fn copy_pairs(bucket: &nut::Bucket) -> (r: Option<Vec<KvPair>>)
    ensures
        r matches Some(pairs) ==> pairs_as_tuples(pairs_view(pairs@)) == bucket_pairs(*bucket),
{
    let mut out: Vec<KvPair> = Vec::new();
    let walked = bucket.for_each::<String>(
        Box::new(
            |key, value| {
                out.push(KvPair { key: key.to_vec(), value: value.map(|v| v.to_vec()) });
                Ok(())
            },
        ),
    );
    match walked {
        Ok(()) => Some(out),
        Err(_) => None,
    }
}

/// Reads the pairs of the index bucket.
pub fn read_pairs(bucket: &nut::Bucket) -> (r: Result<Vec<KvPair>, IndexError>)
    ensures
        match r {
            Ok(pairs) => pairs_as_tuples(pairs_view(pairs@)) == bucket_pairs(*bucket),
            Err(e) => e@ == IndexErrorView::Io,
        },
{
    match copy_pairs(bucket) {
        Some(pairs) => Ok(pairs),
        None => Err(IndexError::Io),
    }
}

/// Inspects the index that `bucket` holds: reads its pairs and finds the
/// chunks of `tenant` whose series meet every predicate and whose time meets
/// the range from `start_ms` to `end_ms`.
pub fn inspect_bucket(
    bucket: &nut::Bucket,
    tenant: &[u8],
    shard: u32,
    predicates: &Vec<KeyValue>,
    start_ms: i64,
    end_ms: i64,
    disable_broad_queries: bool,
) -> (r: Result<Vec<ChunkRef>, IndexError>)
    requires
        predicates_hashable(predicates@),
    ensures
        r matches Err(e) && e@ == IndexErrorView::Io || exists|pairs: Seq<KvPairView>|
            pairs_as_tuples(pairs) == bucket_pairs(*bucket) && match r {
                Ok(refs) => spec_inspect(
                    pairs,
                    tenant@,
                    shard as nat,
                    predicates@,
                    start_ms as int,
                    end_ms as int,
                    !disable_broad_queries,
                ) == Ok::<Seq<ChunkRefView>, IndexErrorView>(refs_view(refs@)),
                Err(e) => spec_inspect(
                    pairs,
                    tenant@,
                    shard as nat,
                    predicates@,
                    start_ms as int,
                    end_ms as int,
                    !disable_broad_queries,
                ) == Err::<Seq<ChunkRefView>, IndexErrorView>(e@),
            },
{
    let pairs = match read_pairs(bucket) {
        Ok(pairs) => pairs,
        Err(e) => { return Err(e); },
    };
    let r = inspect(&pairs, tenant, shard, predicates, start_ms, end_ms, disable_broad_queries);
    assert(pairs_as_tuples(pairs_view(pairs@)) == bucket_pairs(*bucket));
    r
}

} // verus!
