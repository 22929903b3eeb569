//! The index key schema and the query planner: day buckets, the queries for a
//! label predicate, and the queries that resolve series ids to chunks.

use crate::common::KeyValue;
use crate::text::{
    copy_bytes, decimal_int, encode_time, hex8, push_bytes, push_decimal_int, push_two_digits,
    two_digits,
};
use vstd::prelude::*;
use vstd::slice::slice_to_vec;

verus! {

/// Milliseconds in a day, the size of every bucket.
pub const DAY_MS: u32 = 86_400_000;

/// The part of the index that covers one UTC day of one tenant.
#[derive(Debug, Clone)]
pub struct DayBucket {
    pub from: u32,
    pub through: u32,
    pub table_name: Vec<u8>,
    pub hash_key: Vec<u8>,
    pub bucket_size: u32,
}

/// The mathematical content of a bucket.
pub struct DayBucketView {
    pub from: u32,
    pub through: u32,
    pub table_name: Seq<u8>,
    pub hash_key: Seq<u8>,
    pub bucket_size: u32,
}

impl View for DayBucket {
    type V = DayBucketView;

    open spec fn view(&self) -> DayBucketView {
        DayBucketView {
            from: self.from,
            through: self.through,
            table_name: self.table_name@,
            hash_key: self.hash_key@,
            bucket_size: self.bucket_size,
        }
    }
}

/// One prefix lookup on the index.
#[derive(Debug, Clone)]
pub struct Query {
    pub table_name: Vec<u8>,
    pub hash_value: Vec<u8>,
    pub range_value_prefix: Vec<u8>,
    pub range_value_start: Vec<u8>,
    pub value_equal: Vec<u8>,
}

/// The mathematical content of a query.
pub struct QueryView {
    pub table_name: Seq<u8>,
    pub hash_value: Seq<u8>,
    pub range_value_prefix: Seq<u8>,
    pub range_value_start: Seq<u8>,
    pub value_equal: Seq<u8>,
}

impl View for Query {
    type V = QueryView;

    open spec fn view(&self) -> QueryView {
        QueryView {
            table_name: self.table_name@,
            hash_value: self.hash_value@,
            range_value_prefix: self.range_value_prefix@,
            range_value_start: self.range_value_start@,
            value_equal: self.value_equal@,
        }
    }
}

/// The views of a list of buckets.
pub open spec fn buckets_view(bs: Seq<DayBucket>) -> Seq<DayBucketView> {
    Seq::new(bs.len(), |i: int| bs[i]@)
}

/// The views of a list of queries.
pub open spec fn queries_view(qs: Seq<Query>) -> Seq<QueryView> {
    Seq::new(qs.len(), |i: int| qs[i]@)
}

/// The text `index_`.
pub open spec fn table_prefix() -> Seq<u8> {
    seq![105u8, 110, 100, 101, 120, 95]
}

/// The text `:d`.
pub open spec fn day_infix() -> Seq<u8> {
    seq![58u8, 100]
}

/// The text `:logs:`.
pub open spec fn logs_infix() -> Seq<u8> {
    seq![58u8, 108, 111, 103, 115, 58]
}

/// The number of the UTC day that holds the instant `ms`.
pub open spec fn day_of(ms: int) -> int {
    ms / 86_400_000
}

/// Where the range starts within day `d`, in milliseconds from the day's
/// start; zero for a day that the range entered earlier.
pub open spec fn bucket_from(start_ms: int, d: int) -> int {
    if start_ms - d * 86_400_000 > 0 {
        start_ms - d * 86_400_000
    } else {
        0
    }
}

/// Where the range ends within day `d`; the day's length for a day that the
/// range outlasts.
pub open spec fn bucket_through(end_ms: int, d: int) -> int {
    if end_ms - d * 86_400_000 < 86_400_000 {
        end_ms - d * 86_400_000
    } else {
        86_400_000
    }
}

/// The bucket of day `d` for a tenant and a range.
pub open spec fn spec_bucket(tenant: Seq<u8>, start_ms: int, end_ms: int, d: int) -> DayBucketView {
    DayBucketView {
        from: bucket_from(start_ms, d) as u32,
        through: bucket_through(end_ms, d) as u32,
        table_name: table_prefix() + decimal_int(d),
        hash_key: tenant + day_infix() + decimal_int(d),
        bucket_size: DAY_MS,
    }
}

/// How many days a range touches.
pub open spec fn day_count(start_ms: int, end_ms: int) -> int {
    if day_of(end_ms) >= day_of(start_ms) {
        day_of(end_ms) - day_of(start_ms) + 1
    } else {
        0
    }
}

/// Every instant of the range lies in the bucket of its day, between that
/// bucket's bounds.
pub proof fn lemma_buckets_cover(start_ms: int, end_ms: int, t: int)
    requires
        start_ms <= t <= end_ms,
    ensures
        day_of(start_ms) <= day_of(t) <= day_of(end_ms),
        bucket_from(start_ms, day_of(t)) <= t - day_of(t) * 86_400_000 <= bucket_through(
            end_ms,
            day_of(t),
        ),
{
}

/// Within a range, every bucket stays inside its day, the first begins where
/// the range begins, the last ends where the range ends, and each bucket but
/// the last ends on the instant at which the next begins: the buckets leave
/// no gap and share nothing but day boundaries.
pub proof fn lemma_buckets_contiguous(start_ms: int, end_ms: int, d: int)
    requires
        start_ms <= end_ms,
        day_of(start_ms) <= d <= day_of(end_ms),
    ensures
        0 <= bucket_from(start_ms, d) <= bucket_through(end_ms, d) <= 86_400_000,
        d == day_of(start_ms) ==> d * 86_400_000 + bucket_from(start_ms, d) == start_ms,
        d == day_of(end_ms) ==> d * 86_400_000 + bucket_through(end_ms, d) == end_ms,
        d < day_of(end_ms) ==> d * 86_400_000 + bucket_through(end_ms, d) == (d + 1) * 86_400_000
            + bucket_from(start_ms, d + 1),
{
}

/// The day number of `ms`, rounding towards earlier days.
pub fn day_number(ms: i64) -> (d: i64)
    ensures
        d == day_of(ms as int),
{
    if ms >= 0 {
        ms / 86_400_000
    } else {
        let back: i64 = (-(ms + 1)) / 86_400_000;
        -back - 1
    }
}

/// What SHA-256 makes of `data`.
pub uninterp spec fn sha256(data: Seq<u8>) -> Seq<u8>;

/// The base64 text of `data` in the standard alphabet, without padding.
pub uninterp spec fn base64_nopad(data: Seq<u8>) -> Seq<u8>;

/// `ring::digest::digest` with `SHA256`: the 32-byte digest of `data`. The
/// call fails on an input whose length in bits does not fit in 64 bits.
#[verifier::external_body]
fn sha256_digest(data: &[u8]) -> (r: Vec<u8>)
    requires
        data@.len() < 0x2000_0000_0000_0000,
    ensures
        r@ == sha256(data@),
        r@.len() == 32,
{
    ring::digest::digest(&ring::digest::SHA256, data).as_ref().to_vec()
}

/// The length of the unpadded base64 text of `n` bytes: four characters for
/// every three bytes, and two or three for a remainder of one or two.
pub open spec fn base64_nopad_len(n: nat) -> nat {
    (n / 3) * 4 + if n % 3 == 1 {
        2nat
    } else if n % 3 == 2 {
        3nat
    } else {
        0nat
    }
}

/// `base64::encode_config` with `STANDARD_NO_PAD`, as bytes: the text, whose
/// length is the one that the crate computes for the buffer it fills. The
/// call fails where that length would not fit in `usize`.
#[verifier::external_body]
fn base64_encode_nopad(data: &[u8]) -> (r: Vec<u8>)
    requires
        data@.len() < 0x3000_0000,
    ensures
        r@ == base64_nopad(data@),
        r@.len() == base64_nopad_len(data@.len()),
{
    base64::encode_config(data, base64::STANDARD_NO_PAD).into_bytes()
}

/// The range-value prefix of a label value: the base64 text of its SHA-256
/// digest, followed by the separator byte.
pub open spec fn value_prefix(value: Seq<u8>) -> Seq<u8> {
    base64_nopad(sha256(value)).push(0u8)
}

/// The query for a label predicate on one shard of one bucket, given the
/// range-value prefix that stands for the value.
pub open spec fn label_query_with(
    b: DayBucketView,
    shard_index: nat,
    key: Seq<u8>,
    value: Seq<u8>,
    prefix: Seq<u8>,
) -> QueryView {
    QueryView {
        table_name: b.table_name,
        hash_value: two_digits(shard_index) + seq![58u8] + b.hash_key + logs_infix() + key,
        range_value_prefix: prefix,
        range_value_start: Seq::empty(),
        value_equal: value,
    }
}

/// The queries for a label predicate on every shard of one bucket.
pub open spec fn bucket_label_queries(
    b: DayBucketView,
    shard: nat,
    key: Seq<u8>,
    value: Seq<u8>,
    prefix: Seq<u8>,
) -> Seq<QueryView> {
    Seq::new(shard, |i: int| label_query_with(b, i as nat, key, value, prefix))
}

/// The queries for a label predicate over the first `n` buckets, given the
/// range-value prefix that stands for the value: bucket by bucket, and shard
/// by shard within a bucket.
pub open spec fn label_queries_with(
    buckets: Seq<DayBucketView>,
    n: int,
    shard: nat,
    key: Seq<u8>,
    value: Seq<u8>,
    prefix: Seq<u8>,
) -> Seq<QueryView>
    decreases n,
{
    if n <= 0 {
        Seq::empty()
    } else {
        label_queries_with(buckets, n - 1, shard, key, value, prefix) + bucket_label_queries(
            buckets[n - 1],
            shard,
            key,
            value,
            prefix,
        )
    }
}

/// The queries for a label predicate over the first `n` buckets.
pub open spec fn label_queries(
    buckets: Seq<DayBucketView>,
    n: int,
    shard: nat,
    key: Seq<u8>,
    value: Seq<u8>,
) -> Seq<QueryView> {
    label_queries_with(buckets, n, shard, key, value, value_prefix(value))
}

/// The query that resolves one series id in one bucket.
pub open spec fn series_query(b: DayBucketView, id: Seq<u8>) -> QueryView {
    QueryView {
        table_name: b.table_name,
        hash_value: b.hash_key + seq![58u8] + id,
        range_value_prefix: Seq::empty(),
        range_value_start: hex8(b.from),
        value_equal: Seq::empty(),
    }
}

/// The queries that resolve every series id in one bucket.
pub open spec fn bucket_series_queries(b: DayBucketView, ids: Seq<Seq<u8>>) -> Seq<QueryView> {
    Seq::new(ids.len(), |j: int| series_query(b, ids[j]))
}

/// The queries that resolve every series id over the first `n` buckets.
pub open spec fn series_queries(buckets: Seq<DayBucketView>, n: int, ids: Seq<Seq<u8>>) -> Seq<
    QueryView,
>
    decreases n,
{
    if n <= 0 {
        Seq::empty()
    } else {
        series_queries(buckets, n - 1, ids) + bucket_series_queries(buckets[n - 1], ids)
    }
}

/// A query for a label predicate has a hash value, and its range-value
/// prefix ends with the separator byte.
pub open spec fn label_query_shape(q: QueryView) -> bool {
    q.hash_value.len() > 0 && q.range_value_prefix.len() > 0 && q.range_value_prefix.last() == 0
}

/// Each bucket contributes one query per shard, so the first `n` buckets
/// contribute `n * shard` queries.
pub proof fn lemma_label_queries_len(
    buckets: Seq<DayBucketView>,
    n: int,
    shard: nat,
    key: Seq<u8>,
    value: Seq<u8>,
    prefix: Seq<u8>,
)
    requires
        0 <= n,
    ensures
        label_queries_with(buckets, n, shard, key, value, prefix).len() == n * shard,
    decreases n,
{
    if n > 0 {
        lemma_label_queries_len(buckets, n - 1, shard, key, value, prefix);
        assert((n - 1) * shard + shard == n * shard) by (nonlinear_arith);
    } else {
        assert(0 * shard == 0) by (nonlinear_arith);
    }
}

/// Query `j * shard + i` of a plan is the query of bucket `j` on shard `i`:
/// every bucket is fanned out over every shard, and the shard index leads
/// the hash value.
pub proof fn lemma_label_queries_index(
    buckets: Seq<DayBucketView>,
    n: int,
    shard: nat,
    key: Seq<u8>,
    value: Seq<u8>,
    prefix: Seq<u8>,
    j: int,
    i: int,
)
    requires
        0 <= j < n,
        0 <= i < shard,
    ensures
        0 <= j * shard + i < label_queries_with(buckets, n, shard, key, value, prefix).len(),
        label_queries_with(buckets, n, shard, key, value, prefix)[j * shard + i]
            == label_query_with(buckets[j], i as nat, key, value, prefix),
    decreases n,
{
    lemma_label_queries_len(buckets, n, shard, key, value, prefix);
    lemma_label_queries_len(buckets, n - 1, shard, key, value, prefix);
    assert(j * shard + i < (j + 1) * shard) by (nonlinear_arith)
        requires
            i < shard,
    ;
    assert((j + 1) * shard <= n * shard) by (nonlinear_arith)
        requires
            j + 1 <= n,
            shard >= 0,
    ;
    assert(0 <= j * shard) by (nonlinear_arith)
        requires
            0 <= j,
            shard >= 0,
    ;
    if j < n - 1 {
        lemma_label_queries_index(buckets, n - 1, shard, key, value, prefix, j, i);
        assert((j + 1) * shard <= (n - 1) * shard) by (nonlinear_arith)
            requires
                j + 1 <= n - 1,
                shard >= 0,
        ;
    } else {
        assert((n - 1) * shard == j * shard);
    }
}

/// Every query of a plan has a hash value, carries the given range-value
/// prefix, and expects the given value.
pub proof fn lemma_label_queries_carry(
    buckets: Seq<DayBucketView>,
    n: int,
    shard: nat,
    key: Seq<u8>,
    value: Seq<u8>,
    prefix: Seq<u8>,
    k: int,
)
    requires
        0 <= k < label_queries_with(buckets, n, shard, key, value, prefix).len(),
    ensures
        label_queries_with(buckets, n, shard, key, value, prefix)[k].hash_value.len() > 0,
        label_queries_with(buckets, n, shard, key, value, prefix)[k].range_value_prefix
            == prefix,
        label_queries_with(buckets, n, shard, key, value, prefix)[k].range_value_start.len()
            == 0,
        label_queries_with(buckets, n, shard, key, value, prefix)[k].value_equal == value,
    decreases n,
{
    if n > 0 {
        let before = label_queries_with(buckets, n - 1, shard, key, value, prefix);
        if k < before.len() {
            lemma_label_queries_carry(buckets, n - 1, shard, key, value, prefix, k);
        }
    }
}

/// Every query for a label predicate has a hash value, and its range-value
/// prefix ends with the separator byte.
pub proof fn lemma_label_queries_shape(
    buckets: Seq<DayBucketView>,
    n: int,
    shard: nat,
    key: Seq<u8>,
    value: Seq<u8>,
    k: int,
)
    requires
        0 <= k < label_queries(buckets, n, shard, key, value).len(),
    ensures
        label_query_shape(label_queries(buckets, n, shard, key, value)[k]),
{
    lemma_label_queries_carry(buckets, n, shard, key, value, value_prefix(value), k);
}

/// The buckets of the days that the range from `start_ms` to `end_ms`
/// touches, for `tenant`, earliest day first. Both instants are milliseconds
/// since the Unix epoch. A range that ends before it starts has no buckets.
pub fn get_buckets(tenant: &[u8], start_ms: i64, end_ms: i64) -> (r: Vec<DayBucket>)
    ensures
        r@.len() == day_count(start_ms as int, end_ms as int),
        forall|i: int|
            0 <= i < r@.len() ==> (#[trigger] r@[i])@ == spec_bucket(
                tenant@,
                start_ms as int,
                end_ms as int,
                day_of(start_ms as int) + i,
            ),
{
    let from_day: i64 = day_number(start_ms);
    let to_day: i64 = day_number(end_ms);
    let mut buckets: Vec<DayBucket> = Vec::new();
    if from_day > to_day {
        return buckets;
    }
    let mut d: i64 = from_day;
    while d <= to_day
        invariant
            from_day == day_of(start_ms as int),
            to_day == day_of(end_ms as int),
            from_day <= d <= to_day + 1,
            buckets@.len() == d - from_day,
            forall|i: int|
                0 <= i < buckets@.len() ==> (#[trigger] buckets@[i])@ == spec_bucket(
                    tenant@,
                    start_ms as int,
                    end_ms as int,
                    from_day + i,
                ),
        decreases to_day + 1 - d,
    {
        let day_start: i128 = (d as i128) * 86_400_000;
        let rel_from: i128 = start_ms as i128 - day_start;
        let rel_through: i128 = end_ms as i128 - day_start;
        let from: u32 = if rel_from > 0 { rel_from as u32 } else { 0 };
        let through: u32 = if rel_through < 86_400_000 { rel_through as u32 } else { DAY_MS };
        let mut table_name: Vec<u8> = Vec::new();
        table_name.push(105);
        table_name.push(110);
        table_name.push(100);
        table_name.push(101);
        table_name.push(120);
        table_name.push(95);
        push_decimal_int(&mut table_name, d);
        let mut hash_key: Vec<u8> = slice_to_vec(tenant);
        hash_key.push(58);
        hash_key.push(100);
        push_decimal_int(&mut hash_key, d);
        let bucket = DayBucket { from, through, table_name, hash_key, bucket_size: DAY_MS };
        assert(bucket@.table_name =~= table_prefix() + decimal_int(d as int));
        assert(bucket@.hash_key =~= tenant@ + day_infix() + decimal_int(d as int));
        assert(bucket@ == spec_bucket(tenant@, start_ms as int, end_ms as int, d as int));
        buckets.push(bucket);
        d = d + 1;
    }
    buckets
}

/// The queries for a label predicate over `buckets`, given the range-value
/// prefix that stands for the value: for each bucket in turn, one query per
/// shard from 0 up to `shard`.
pub fn plan_label_queries(
    shard: u32,
    buckets: &Vec<DayBucket>,
    key: &[u8],
    value: &[u8],
    prefix: &[u8],
) -> (r: Vec<Query>)
    ensures
        queries_view(r@) == label_queries_with(
            buckets_view(buckets@),
            buckets@.len() as int,
            shard as nat,
            key@,
            value@,
            prefix@,
        ),
        r@.len() == buckets@.len() * shard,
{
    let mut queries: Vec<Query> = Vec::new();
    let mut j: usize = 0;
    assert(queries_view(queries@) =~= Seq::empty());
    while j < buckets.len()
        invariant
            j <= buckets@.len(),
            queries_view(queries@) == label_queries_with(
                buckets_view(buckets@),
                j as int,
                shard as nat,
                key@,
                value@,
                prefix@,
            ),
        decreases buckets@.len() - j,
    {
        let bucket = &buckets[j];
        let ghost before = queries_view(queries@);
        let ghost all = bucket_label_queries(bucket@, shard as nat, key@, value@, prefix@);
        let mut i: u32 = 0;
        assert(before + all.take(0) =~= before);
        while i < shard
            invariant
                i <= shard,
                all == bucket_label_queries(bucket@, shard as nat, key@, value@, prefix@),
                queries_view(queries@) == before + all.take(i as int),
            decreases shard - i,
        {
            let mut hash_value: Vec<u8> = Vec::new();
            push_two_digits(&mut hash_value, i);
            hash_value.push(58);
            push_bytes(&mut hash_value, bucket.hash_key.as_slice());
            hash_value.push(58);
            hash_value.push(108);
            hash_value.push(111);
            hash_value.push(103);
            hash_value.push(115);
            hash_value.push(58);
            push_bytes(&mut hash_value, key);
            let query = Query {
                table_name: copy_bytes(&bucket.table_name),
                hash_value,
                range_value_prefix: slice_to_vec(prefix),
                range_value_start: Vec::new(),
                value_equal: slice_to_vec(value),
            };
            assert(query@.hash_value =~= two_digits(i as nat) + seq![58u8] + bucket@.hash_key
                + logs_infix() + key@);
            assert(query@ == label_query_with(bucket@, i as nat, key@, value@, prefix@));
            assert(queries_view(queries@.push(query)) =~= queries_view(queries@).push(query@));
            assert(all.take(i as int + 1) =~= all.take(i as int).push(all[i as int]));
            assert(queries_view(queries@.push(query)) =~= before + all.take(i as int + 1));
            queries.push(query);
            i = i + 1;
        }
        assert(all.take(shard as int) =~= all);
        assert(buckets_view(buckets@)[j as int] == bucket@);
        j = j + 1;
    }
    proof {
        lemma_label_queries_len(
            buckets_view(buckets@),
            buckets@.len() as int,
            shard as nat,
            key@,
            value@,
            prefix@,
        );
    }
    queries
}

/// The queries for the predicate `kv` over `buckets`: for each bucket in
/// turn, one query per shard from 0 up to `shard`. The range-value prefix of
/// each is the base64 text of the SHA-256 digest of the value, followed by
/// the separator byte.
pub fn calc_queries(shard: u32, buckets: &Vec<DayBucket>, kv: &KeyValue) -> (r: Vec<Query>)
    requires
        kv.value_bytes().len() < 0x2000_0000_0000_0000,
    ensures
        queries_view(r@) == label_queries(
            buckets_view(buckets@),
            buckets@.len() as int,
            shard as nat,
            kv.key_bytes(),
            kv.value_bytes(),
        ),
        r@.len() == buckets@.len() * shard,
        forall|k: int| 0 <= k < r@.len() ==> label_query_shape(#[trigger] queries_view(r@)[k]),
        forall|k: int|
            0 <= k < r@.len() ==> (#[trigger] queries_view(r@)[k]).range_value_prefix.len() == 44,
{
    let key: Vec<u8> = kv.key.as_str().as_bytes_vec();
    let value: Vec<u8> = kv.value.as_str().as_bytes_vec();
    let digest: Vec<u8> = sha256_digest(value.as_slice());
    let mut prefix: Vec<u8> = base64_encode_nopad(digest.as_slice());
    prefix.push(0);
    let queries = plan_label_queries(
        shard,
        buckets,
        key.as_slice(),
        value.as_slice(),
        prefix.as_slice(),
    );
    proof {
        assert(prefix@.len() == 44);
        assert forall|k: int| 0 <= k < queries@.len() implies label_query_shape(
            #[trigger] queries_view(queries@)[k],
        ) && queries_view(queries@)[k].range_value_prefix.len() == 44 by {
            lemma_label_queries_carry(
                buckets_view(buckets@),
                buckets@.len() as int,
                shard as nat,
                key@,
                value@,
                prefix@,
                k,
            );
        }
    }
    queries
}

/// The views of a list of series ids.
pub open spec fn ids_view(ids: Seq<Vec<u8>>) -> Seq<Seq<u8>> {
    Seq::new(ids.len(), |i: int| ids[i]@)
}

/// The queries that resolve `series_ids` to chunks: for each bucket in turn,
/// one query per series id.
pub fn calc_queries_for_serires(buckets: &Vec<DayBucket>, series_ids: &Vec<Vec<u8>>) -> (r: Vec<Query>)
    ensures
        queries_view(r@) == series_queries(
            buckets_view(buckets@),
            buckets@.len() as int,
            ids_view(series_ids@),
        ),
{
    let mut queries: Vec<Query> = Vec::new();
    let mut j: usize = 0;
    assert(queries_view(queries@) =~= Seq::empty());
    while j < buckets.len()
        invariant
            j <= buckets@.len(),
            queries_view(queries@) == series_queries(
                buckets_view(buckets@),
                j as int,
                ids_view(series_ids@),
            ),
        decreases buckets@.len() - j,
    {
        let bucket = &buckets[j];
        let ghost before = queries_view(queries@);
        let ghost ids = ids_view(series_ids@);
        let mut i: usize = 0;
        assert(before + bucket_series_queries(bucket@, ids).take(0) =~= before);
        while i < series_ids.len()
            invariant
                i <= series_ids@.len(),
                ids == ids_view(series_ids@),
                queries_view(queries@) == before + bucket_series_queries(bucket@, ids).take(
                    i as int,
                ),
            decreases series_ids@.len() - i,
        {
            let mut hash_value: Vec<u8> = copy_bytes(&bucket.hash_key);
            hash_value.push(58);
            push_bytes(&mut hash_value, series_ids[i].as_slice());
            let query = Query {
                table_name: copy_bytes(&bucket.table_name),
                hash_value,
                range_value_prefix: Vec::new(),
                range_value_start: encode_time(bucket.from),
                value_equal: Vec::new(),
            };
            assert(query@.hash_value =~= bucket@.hash_key + seq![58u8] + ids[i as int]);
            assert(query@ == series_query(bucket@, ids[i as int]));
            let ghost all = bucket_series_queries(bucket@, ids);
            assert(queries_view(queries@.push(query)) =~= queries_view(queries@).push(query@));
            assert(all.take(i as int + 1) =~= all.take(i as int).push(all[i as int]));
            assert(queries_view(queries@.push(query)) =~= before + all.take(i as int + 1));
            queries.push(query);
            i = i + 1;
        }
        assert(bucket_series_queries(bucket@, ids).take(series_ids@.len() as int)
            =~= bucket_series_queries(bucket@, ids));
        assert(buckets_view(buckets@)[j as int] == bucket@);
        j = j + 1;
    }
    queries
}

} // verus!
