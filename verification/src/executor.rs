//! The index executor: prefix scans over the pairs of the index bucket, the
//! filters applied to what a scan retains, and the two scan strategies.

use crate::index::{queries_view, Query, QueryView};
use crate::text::{bytes_eq, bytes_lt, copy_bytes, lex_lt, push_bytes, starts_with};
use vstd::prelude::*;
use vstd::slice::{slice_subrange, slice_to_vec};

verus! {

/// One pair of the index bucket. A key without a value names a nested bucket.
#[derive(Debug, Clone)]
pub struct KvPair {
    pub key: Vec<u8>,
    pub value: Option<Vec<u8>>,
}

/// The mathematical content of a pair.
pub struct KvPairView {
    pub key: Seq<u8>,
    pub value: Option<Seq<u8>>,
}

impl View for KvPair {
    type V = KvPairView;

    open spec fn view(&self) -> KvPairView {
        KvPairView {
            key: self.key@,
            value: match self.value {
                Some(v) => Some(v@),
                None => None,
            },
        }
    }
}

/// One index entry that a query retained.
#[derive(Debug, Clone)]
pub struct Entry {
    pub table_name: Vec<u8>,
    pub hash_value: Vec<u8>,
    pub range_value: Vec<u8>,
    pub value: Vec<u8>,
}

/// The mathematical content of an index entry.
pub struct IndexEntryView {
    pub table_name: Seq<u8>,
    pub hash_value: Seq<u8>,
    pub range_value: Seq<u8>,
    pub value: Seq<u8>,
}

impl View for Entry {
    type V = IndexEntryView;

    open spec fn view(&self) -> IndexEntryView {
        IndexEntryView {
            table_name: self.table_name@,
            hash_value: self.hash_value@,
            range_value: self.range_value@,
            value: self.value@,
        }
    }
}

/// The views of a list of pairs.
pub open spec fn pairs_view(ps: Seq<KvPair>) -> Seq<KvPairView> {
    Seq::new(ps.len(), |i: int| ps[i]@)
}

/// The views of a list of index entries.
pub open spec fn index_entries_view(es: Seq<Entry>) -> Seq<IndexEntryView> {
    Seq::new(es.len(), |i: int| es[i]@)
}

/// The hash value followed by the separator byte: what every key of a query
/// begins with.
pub open spec fn hash_prefix(q: QueryView) -> Seq<u8> {
    q.hash_value.push(0u8)
}

/// The prefix of the narrow strategy: the hash prefix, followed by the
/// range-value prefix where the query has one.
pub open spec fn narrow_prefix(q: QueryView) -> Seq<u8> {
    hash_prefix(q) + q.range_value_prefix
}

/// The range-value prefix filter: an empty prefix lets everything pass.
pub open spec fn passes_prefix(q: QueryView, range_value: Seq<u8>) -> bool {
    q.range_value_prefix.len() > 0 ==> q.range_value_prefix.is_prefix_of(range_value)
}

/// The range-value start filter: an empty threshold lets everything pass.
pub open spec fn passes_start(q: QueryView, range_value: Seq<u8>) -> bool {
    q.range_value_start.len() > 0 ==> !lex_lt(range_value, q.range_value_start)
}

/// The value filter: an empty expected value lets everything pass.
pub open spec fn passes_value(q: QueryView, value: Seq<u8>) -> bool {
    q.value_equal.len() > 0 ==> value == q.value_equal
}

/// Whether an entry passes the three filters of a query.
pub open spec fn entry_passes(q: QueryView, e: IndexEntryView) -> bool {
    passes_prefix(q, e.range_value) && passes_start(q, e.range_value) && passes_value(q, e.value)
}

/// The entries of `es` that pass the filters of `q`, in their order.
pub open spec fn filtered(es: Seq<IndexEntryView>, q: QueryView) -> Seq<IndexEntryView>
    decreases es.len(),
{
    if es.len() == 0 {
        Seq::empty()
    } else if entry_passes(q, es.last()) {
        filtered(es.drop_last(), q).push(es.last())
    } else {
        filtered(es.drop_last(), q)
    }
}

/// The entry that a query makes of a key and its value: the range value is
/// the key after the hash value and the separator.
pub open spec fn entry_of(q: QueryView, key: Seq<u8>, value: Seq<u8>) -> IndexEntryView {
    IndexEntryView {
        table_name: q.table_name,
        hash_value: q.hash_value,
        range_value: key.skip(q.hash_value.len() as int + 1),
        value,
    }
}

/// Whether a scan with `prefix` retains a pair: the key begins with the
/// prefix, there is a value, and, where the scan checks values, the value is
/// the expected one.
pub open spec fn scan_keeps(q: QueryView, prefix: Seq<u8>, check_value: bool, p: KvPairView) -> bool {
    prefix.is_prefix_of(p.key) && p.value is Some && (check_value ==> passes_value(
        q,
        p.value.unwrap(),
    ))
}

/// What a scan with `prefix` retains of the first `n` pairs, in their order.
pub open spec fn scan(
    pairs: Seq<KvPairView>,
    q: QueryView,
    prefix: Seq<u8>,
    check_value: bool,
    n: int,
) -> Seq<IndexEntryView>
    decreases n,
{
    if n <= 0 {
        Seq::empty()
    } else if scan_keeps(q, prefix, check_value, pairs[n - 1]) {
        scan(pairs, q, prefix, check_value, n - 1).push(
            entry_of(q, pairs[n - 1].key, pairs[n - 1].value.unwrap()),
        )
    } else {
        scan(pairs, q, prefix, check_value, n - 1)
    }
}

/// The result of one query under the narrow strategy: scan with the composed
/// prefix and the value check, then filter.
pub open spec fn narrow_result(pairs: Seq<KvPairView>, q: QueryView) -> Seq<IndexEntryView> {
    filtered(scan(pairs, q, narrow_prefix(q), true, pairs.len() as int), q)
}

/// The result of one query under the broad strategy: scan with the hash
/// prefix alone, then filter.
pub open spec fn broad_result(pairs: Seq<KvPairView>, q: QueryView) -> Seq<IndexEntryView> {
    filtered(scan(pairs, q, hash_prefix(q), false, pairs.len() as int), q)
}

/// The results of the first `n` queries under the narrow strategy, query by
/// query.
pub open spec fn narrow_pages(pairs: Seq<KvPairView>, qs: Seq<QueryView>, n: int) -> Seq<
    IndexEntryView,
>
    decreases n,
{
    if n <= 0 {
        Seq::empty()
    } else {
        narrow_pages(pairs, qs, n - 1) + narrow_result(pairs, qs[n - 1])
    }
}

/// The results of the first `n` queries under the broad strategy, query by
/// query.
pub open spec fn broad_pages(pairs: Seq<KvPairView>, qs: Seq<QueryView>, n: int) -> Seq<
    IndexEntryView,
>
    decreases n,
{
    if n <= 0 {
        Seq::empty()
    } else {
        broad_pages(pairs, qs, n - 1) + broad_result(pairs, qs[n - 1])
    }
}

/// The results of all queries under the chosen strategy.
pub open spec fn pages(pairs: Seq<KvPairView>, qs: Seq<QueryView>, broad: bool) -> Seq<
    IndexEntryView,
> {
    if broad {
        broad_pages(pairs, qs, qs.len() as int)
    } else {
        narrow_pages(pairs, qs, qs.len() as int)
    }
}

/// A key begins with `a + b` exactly when it begins with `a` and what follows
/// `a` in it begins with `b`.
pub proof fn lemma_prefix_split(a: Seq<u8>, b: Seq<u8>, key: Seq<u8>)
    ensures
        (a + b).is_prefix_of(key) <==> a.is_prefix_of(key) && b.is_prefix_of(key.skip(a.len() as int)),
{
    if (a + b).is_prefix_of(key) {
        assert(key.subrange(0, a.len() as int) =~= (a + b).subrange(0, a.len() as int));
        assert((a + b).subrange(0, a.len() as int) =~= a);
        assert(key.skip(a.len() as int).subrange(0, b.len() as int) =~= key.subrange(
            0,
            (a + b).len() as int,
        ).subrange(a.len() as int, (a + b).len() as int));
        assert((a + b).subrange(a.len() as int, (a + b).len() as int) =~= b);
    }
    if a.is_prefix_of(key) && b.is_prefix_of(key.skip(a.len() as int)) {
        assert(key.subrange(0, (a + b).len() as int) =~= key.subrange(0, a.len() as int)
            + key.skip(a.len() as int).subrange(0, b.len() as int));
    }
}

/// For the first `n` pairs, filtering what the broad scan retains gives what
/// filtering the narrow scan's retained entries gives.
pub proof fn lemma_scans_agree(pairs: Seq<KvPairView>, q: QueryView, n: int)
    requires
        n <= pairs.len(),
    ensures
        filtered(scan(pairs, q, hash_prefix(q), false, n), q) == filtered(
            scan(pairs, q, narrow_prefix(q), true, n),
            q,
        ),
    decreases n,
{
    if n > 0 {
        lemma_scans_agree(pairs, q, n - 1);
        let p = pairs[n - 1];
        let b = scan(pairs, q, hash_prefix(q), false, n - 1);
        let w = scan(pairs, q, narrow_prefix(q), true, n - 1);
        lemma_prefix_split(hash_prefix(q), q.range_value_prefix, p.key);
        if p.value is Some {
            let e = entry_of(q, p.key, p.value.unwrap());
            assert(b.push(e).drop_last() =~= b);
            assert(w.push(e).drop_last() =~= w);
            if q.range_value_prefix.len() == 0 {
                assert(q.range_value_prefix.is_prefix_of(p.key.skip(hash_prefix(q).len() as int)));
            }
        }
    }
}

/// Both strategies give the same entries, in the same order, for one query.
pub proof fn lemma_broad_equals_narrow(pairs: Seq<KvPairView>, q: QueryView)
    ensures
        broad_result(pairs, q) == narrow_result(pairs, q),
{
    lemma_scans_agree(pairs, q, pairs.len() as int);
}

/// Both strategies give the same entries, in the same order, for any list of
/// queries; so they give the same multiset of entries.
pub proof fn lemma_strategies_agree(pairs: Seq<KvPairView>, qs: Seq<QueryView>)
    ensures
        pages(pairs, qs, true) == pages(pairs, qs, false),
        pages(pairs, qs, true).to_multiset() == pages(pairs, qs, false).to_multiset(),
{
    lemma_pages_agree(pairs, qs, qs.len() as int);
}

/// Both strategies agree on the first `n` queries.
pub proof fn lemma_pages_agree(pairs: Seq<KvPairView>, qs: Seq<QueryView>, n: int)
    requires
        n <= qs.len(),
    ensures
        broad_pages(pairs, qs, n) == narrow_pages(pairs, qs, n),
    decreases n,
{
    if n > 0 {
        lemma_pages_agree(pairs, qs, n - 1);
        lemma_broad_equals_narrow(pairs, qs[n - 1]);
    }
}

/// Every entry that a scan retains comes from a pair with a value whose key
/// is the scan's prefix followed by some rest; the entry's range value is
/// the key after the hash value and the separator.
pub proof fn lemma_scan_entries_have_keys(
    pairs: Seq<KvPairView>,
    q: QueryView,
    prefix: Seq<u8>,
    check_value: bool,
    n: int,
    k: int,
)
    requires
        n <= pairs.len(),
        0 <= k < scan(pairs, q, prefix, check_value, n).len(),
    ensures
        exists|i: int|
            0 <= i < n && prefix.is_prefix_of((#[trigger] pairs[i]).key) && pairs[i].value
                is Some && scan(pairs, q, prefix, check_value, n)[k] == entry_of(
                q,
                pairs[i].key,
                pairs[i].value.unwrap(),
            ),
    decreases n,
{
    if n > 0 {
        let before = scan(pairs, q, prefix, check_value, n - 1);
        if k < before.len() {
            lemma_scan_entries_have_keys(pairs, q, prefix, check_value, n - 1, k);
        } else {
            assert(scan_keeps(q, prefix, check_value, pairs[n - 1]));
        }
    }
}

fn copy_entry(e: &Entry) -> (r: Entry)
    ensures
        r@ == e@,
{
    Entry {
        table_name: copy_bytes(&e.table_name),
        hash_value: copy_bytes(&e.hash_value),
        range_value: copy_bytes(&e.range_value),
        value: copy_bytes(&e.value),
    }
}

/// Whether `e` passes the three filters of `query`.
pub fn passes_filters(e: &Entry, query: &Query) -> (r: bool)
    ensures
        r == entry_passes(query@, e@),
{
    if query.range_value_prefix.len() > 0 && !starts_with(
        e.range_value.as_slice(),
        query.range_value_prefix.as_slice(),
    ) {
        return false;
    }
    if query.range_value_start.len() > 0 && bytes_lt(
        e.range_value.as_slice(),
        query.range_value_start.as_slice(),
    ) {
        return false;
    }
    if query.value_equal.len() > 0 && !bytes_eq(query.value_equal.as_slice(), e.value.as_slice()) {
        return false;
    }
    true
}

/// The entries that pass the three filters of `query`, in their order.
pub fn filter_entries(entries: &Vec<Entry>, query: &Query) -> (r: Vec<Entry>)
    ensures
        index_entries_view(r@) == filtered(index_entries_view(entries@), query@),
{
    let mut out: Vec<Entry> = Vec::new();
    let mut i: usize = 0;
    let ghost all = index_entries_view(entries@);
    assert(all.take(0) =~= Seq::empty());
    assert(index_entries_view(out@) =~= Seq::empty());
    while i < entries.len()
        invariant
            i <= entries@.len(),
            all == index_entries_view(entries@),
            index_entries_view(out@) == filtered(all.take(i as int), query@),
        decreases entries@.len() - i,
    {
        assert(all.take(i as int + 1).drop_last() =~= all.take(i as int));
        assert(all.take(i as int + 1).last() == entries@[i as int]@);
        if passes_filters(&entries[i], query) {
            let e = copy_entry(&entries[i]);
            assert(index_entries_view(out@.push(e)) =~= index_entries_view(out@).push(e@));
            out.push(e);
        }
        i = i + 1;
    }
    assert(all.take(i as int) =~= all);
    out
}

/// Scans `pairs` for the keys that begin with `prefix`, and makes an entry of
/// each that has a value and, where `check_value` is set, the expected value.
fn scan_pairs(pairs: &Vec<KvPair>, query: &Query, prefix: &[u8], check_value: bool) -> (r: Vec<
    Entry,
>)
    requires
        hash_prefix(query@).is_prefix_of(prefix@),
    ensures
        index_entries_view(r@) == scan(
            pairs_view(pairs@),
            query@,
            prefix@,
            check_value,
            pairs@.len() as int,
        ),
{
    let mut out: Vec<Entry> = Vec::new();
    let mut i: usize = 0;
    let ghost all = pairs_view(pairs@);
    assert(index_entries_view(out@) =~= Seq::empty());
    while i < pairs.len()
        invariant
            i <= pairs@.len(),
            all == pairs_view(pairs@),
            hash_prefix(query@).is_prefix_of(prefix@),
            index_entries_view(out@) == scan(all, query@, prefix@, check_value, i as int),
        decreases pairs@.len() - i,
    {
        let pair = &pairs[i];
        assert(all[i as int] == pair@);
        if starts_with(pair.key.as_slice(), prefix) {
            match &pair.value {
                Some(v) => {
                    let value_ok = !check_value || query.value_equal.len() == 0 || bytes_eq(
                        v.as_slice(),
                        query.value_equal.as_slice(),
                    );
                    if value_ok {
                        let key_len: usize = pair.key.len();
                        assert(hash_prefix(query@).len() <= prefix@.len() <= key_len);
                        let from: usize = query.hash_value.len() + 1;
                        let range_value = slice_to_vec(
                            slice_subrange(pair.key.as_slice(), from, key_len),
                        );
                        let e = Entry {
                            table_name: copy_bytes(&query.table_name),
                            hash_value: copy_bytes(&query.hash_value),
                            range_value,
                            value: copy_bytes(v),
                        };
                        assert(e@.range_value =~= pair@.key.skip(query@.hash_value.len() as int + 1));
                        assert(e@ == entry_of(query@, pair@.key, pair@.value.unwrap()));
                        assert(index_entries_view(out@.push(e)) =~= index_entries_view(out@).push(
                            e@,
                        ));
                        out.push(e);
                    }
                },
                None => {},
            }
        }
        i = i + 1;
    }
    out
}

/// Runs `queries` under the narrow strategy: each scan uses the hash prefix
/// followed by the range-value prefix and checks the value; the filters are
/// applied to what the scan retains.
pub fn query_pages(pairs: &Vec<KvPair>, queries: &Vec<Query>) -> (r: Vec<Entry>)
    ensures
        index_entries_view(r@) == pages(pairs_view(pairs@), queries_view(queries@), false),
{
    let mut entries: Vec<Entry> = Vec::new();
    let mut k: usize = 0;
    assert(index_entries_view(entries@) =~= Seq::empty());
    while k < queries.len()
        invariant
            k <= queries@.len(),
            index_entries_view(entries@) == narrow_pages(
                pairs_view(pairs@),
                queries_view(queries@),
                k as int,
            ),
        decreases queries@.len() - k,
    {
        let query = &queries[k];
        let mut start: Vec<u8> = copy_bytes(&query.hash_value);
        start.push(0);
        push_bytes(&mut start, query.range_value_prefix.as_slice());
        assert(start@ =~= narrow_prefix(query@));
        assert(start@.subrange(0, hash_prefix(query@).len() as int) =~= hash_prefix(query@));
        let sub_entries = scan_pairs(pairs, query, start.as_slice(), true);
        let kept = filter_entries(&sub_entries, query);
        let ghost before = index_entries_view(entries@);
        append_entries(&mut entries, kept);
        assert(queries_view(queries@)[k as int] == query@);
        k = k + 1;
    }
    entries
}

/// Runs `queries` under the broad strategy: each scan uses the hash prefix
/// alone and checks nothing; the filters are applied to what the scan
/// retains.
pub fn do_broad_queries(pairs: &Vec<KvPair>, queries: &Vec<Query>) -> (r: Vec<Entry>)
    ensures
        index_entries_view(r@) == pages(pairs_view(pairs@), queries_view(queries@), true),
{
    let mut entries: Vec<Entry> = Vec::new();
    let mut k: usize = 0;
    assert(index_entries_view(entries@) =~= Seq::empty());
    while k < queries.len()
        invariant
            k <= queries@.len(),
            index_entries_view(entries@) == broad_pages(
                pairs_view(pairs@),
                queries_view(queries@),
                k as int,
            ),
        decreases queries@.len() - k,
    {
        let query = &queries[k];
        let mut start: Vec<u8> = copy_bytes(&query.hash_value);
        start.push(0);
        assert(start@ =~= hash_prefix(query@));
        assert(start@.subrange(0, hash_prefix(query@).len() as int) =~= hash_prefix(query@));
        let sub_entries = scan_pairs(pairs, query, start.as_slice(), false);
        let kept = filter_entries(&sub_entries, query);
        append_entries(&mut entries, kept);
        assert(queries_view(queries@)[k as int] == query@);
        k = k + 1;
    }
    entries
}

/// Runs `queries` under the broad strategy, or under the narrow one where
/// broad queries are disabled. The entries are the same either way.
pub fn get_entries_from_queries(
    disable_broad_queries: bool,
    pairs: &Vec<KvPair>,
    queries: &Vec<Query>,
) -> (r: Vec<Entry>)
    ensures
        index_entries_view(r@) == pages(
            pairs_view(pairs@),
            queries_view(queries@),
            !disable_broad_queries,
        ),
        index_entries_view(r@) == pages(pairs_view(pairs@), queries_view(queries@), true),
{
    proof {
        lemma_strategies_agree(pairs_view(pairs@), queries_view(queries@));
    }
    if !disable_broad_queries {
        do_broad_queries(pairs, queries)
    } else {
        query_pages(pairs, queries)
    }
}

fn append_entries(out: &mut Vec<Entry>, more: Vec<Entry>)
    ensures
        index_entries_view(final(out)@) == index_entries_view(old(out)@) + index_entries_view(
            more@,
        ),
{
    let mut more = more;
    let ghost a = old(out)@;
    let ghost b = more@;
    out.append(&mut more);
    assert(index_entries_view(out@) =~= index_entries_view(a) + index_entries_view(b));
}

} // verus!
