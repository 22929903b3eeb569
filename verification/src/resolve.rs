//! From index entries to series ids, from series ids to chunk references, and
//! the inspection that ties the planner and the executor together.

use crate::common::KeyValue;
use crate::executor::{
    do_broad_queries, get_entries_from_queries, index_entries_view, lemma_strategies_agree, pages,
    pairs_view, Entry, IndexEntryView, KvPair, KvPairView,
};
use crate::index::{
    buckets_view, calc_queries, calc_queries_for_serires, get_buckets, ids_view, label_queries,
    series_queries, spec_bucket, day_count, day_of, DayBucket, DayBucketView,
};
use crate::text::{
    bytes_eq, bytes_list_view, copy_bytes, parse_signed_hex, parse_unsigned_hex,
    spec_parse_signed_hex, spec_parse_unsigned_hex, split, split_bytes,
};
use vstd::prelude::*;

verus! {

/// Why an inspection of the index failed.
#[derive(Debug, Clone)]
pub enum IndexError {
    /// A range value does not have five components.
    MalformedRangeValue,
    /// The fourth component of a range value, where it is neither `3` nor `8`.
    UnknownRangeValueKind(Vec<u8>),
    /// A chunk id is not a tenant, a slash and four hexadecimal numbers.
    BadChunkId,
    /// The index store could not be read.
    Io,
}

/// The mathematical content of an error.
pub enum IndexErrorView {
    MalformedRangeValue,
    UnknownRangeValueKind(Seq<u8>),
    BadChunkId,
    Io,
}

impl View for IndexError {
    type V = IndexErrorView;

    open spec fn view(&self) -> IndexErrorView {
        match self {
            IndexError::MalformedRangeValue => IndexErrorView::MalformedRangeValue,
            IndexError::UnknownRangeValueKind(k) => IndexErrorView::UnknownRangeValueKind(k@),
            IndexError::BadChunkId => IndexErrorView::BadChunkId,
            IndexError::Io => IndexErrorView::Io,
        }
    }
}

/// Where a chunk is found and what time it covers, in milliseconds.
#[derive(Debug, Clone)]
pub struct ChunkRef {
    pub user_id: Vec<u8>,
    pub fingerprint: u64,
    pub from: i64,
    pub to: i64,
    pub checksum: u32,
}

/// The mathematical content of a chunk reference.
pub struct ChunkRefView {
    pub user_id: Seq<u8>,
    pub fingerprint: u64,
    pub from: i64,
    pub to: i64,
    pub checksum: u32,
}

impl View for ChunkRef {
    type V = ChunkRefView;

    open spec fn view(&self) -> ChunkRefView {
        ChunkRefView {
            user_id: self.user_id@,
            fingerprint: self.fingerprint,
            from: self.from,
            to: self.to,
            checksum: self.checksum,
        }
    }
}

/// The views of a list of chunk references.
pub open spec fn refs_view(rs: Seq<ChunkRef>) -> Seq<ChunkRefView> {
    Seq::new(rs.len(), |i: int| rs[i]@)
}

/// The id that a range value carries: of its five components between
/// separator bytes, the third where the fourth is `3`, the second where the
/// fourth is `8`.
pub open spec fn spec_series_id(range_value: Seq<u8>) -> Result<Seq<u8>, IndexErrorView> {
    let c = split(range_value, 0u8);
    if c.len() != 5 {
        Err(IndexErrorView::MalformedRangeValue)
    } else if c[3] == seq![51u8] {
        Ok(c[2])
    } else if c[3] == seq![56u8] {
        Ok(c[1])
    } else {
        Err(IndexErrorView::UnknownRangeValueKind(c[3]))
    }
}

/// The ids of the first `n` entries, in order, or the error of the first
/// entry that has none.
pub open spec fn entry_ids(es: Seq<IndexEntryView>, n: int) -> Result<Seq<Seq<u8>>, IndexErrorView>
    decreases n,
{
    if n <= 0 {
        Ok(Seq::empty())
    } else {
        match entry_ids(es, n - 1) {
            Err(e) => Err(e),
            Ok(ids) => match spec_series_id(es[n - 1].range_value) {
                Err(e) => Err(e),
                Ok(id) => Ok(ids.push(id)),
            },
        }
    }
}

/// A list without its repetitions: each id stays where it first occurs.
pub open spec fn distinct(ids: Seq<Seq<u8>>) -> Seq<Seq<u8>>
    decreases ids.len(),
{
    if ids.len() == 0 {
        Seq::empty()
    } else if distinct(ids.drop_last()).contains(ids.last()) {
        distinct(ids.drop_last())
    } else {
        distinct(ids.drop_last()).push(ids.last())
    }
}

/// The ids of `a` that `b` holds too, in the order of `a`.
pub open spec fn common_ids(a: Seq<Seq<u8>>, b: Seq<Seq<u8>>) -> Seq<Seq<u8>>
    decreases a.len(),
{
    if a.len() == 0 {
        Seq::empty()
    } else if b.contains(a.last()) {
        common_ids(a.drop_last(), b).push(a.last())
    } else {
        common_ids(a.drop_last(), b)
    }
}

/// The ids common to the first `n` lists. The first list is taken as it is;
/// each later one is intersected with what was kept so far.
pub open spec fn intersect_all(lists: Seq<Seq<Seq<u8>>>, n: int) -> Seq<Seq<u8>>
    decreases n,
{
    if n <= 0 {
        Seq::empty()
    } else if n == 1 {
        lists[0]
    } else {
        common_ids(intersect_all(lists, n - 1), lists[n - 1])
    }
}

/// An id is kept by an intersection exactly when both lists hold it.
pub proof fn lemma_common_ids_contains(a: Seq<Seq<u8>>, b: Seq<Seq<u8>>, x: Seq<u8>)
    ensures
        common_ids(a, b).contains(x) <==> a.contains(x) && b.contains(x),
    decreases a.len(),
{
    if a.len() > 0 {
        lemma_common_ids_contains(a.drop_last(), b, x);
        let rest = common_ids(a.drop_last(), b);
        if a.contains(x) {
            let i = choose|i: int| 0 <= i < a.len() && a[i] == x;
            if i < a.len() - 1 {
                assert(a.drop_last()[i] == x);
            }
        }
        if a.drop_last().contains(x) {
            let i = choose|i: int| 0 <= i < a.drop_last().len() && a.drop_last()[i] == x;
            assert(a[i] == x);
        }
        if b.contains(a.last()) {
            assert(rest.push(a.last())[rest.len() as int] == a.last());
            if rest.contains(x) {
                let i = choose|i: int| 0 <= i < rest.len() && rest[i] == x;
                assert(rest.push(a.last())[i] == x);
            }
            if rest.push(a.last()).contains(x) {
                let i = choose|i: int|
                    0 <= i < rest.push(a.last()).len() && rest.push(a.last())[i] == x;
                if i < rest.len() {
                    assert(rest[i] == x);
                } else {
                    assert(a[a.len() - 1] == x);
                }
            }
        }
    }
}

/// As sets, the intersection of two id lists is the intersection of their
/// sets.
pub proof fn lemma_common_ids_set(a: Seq<Seq<u8>>, b: Seq<Seq<u8>>)
    ensures
        common_ids(a, b).to_set() == a.to_set().intersect(b.to_set()),
{
    assert forall|x: Seq<u8>|
        common_ids(a, b).to_set().contains(x) <==> a.to_set().intersect(b.to_set()).contains(
            x,
        ) by {
        lemma_common_ids_contains(a, b, x);
    }
    assert(common_ids(a, b).to_set() =~= a.to_set().intersect(b.to_set()));
}

/// A list is in a longer one exactly as it is in the part before the last
/// item, or as the last item.
pub proof fn lemma_contains_last(s: Seq<Seq<u8>>, x: Seq<u8>)
    requires
        s.len() > 0,
    ensures
        s.contains(x) <==> s.drop_last().contains(x) || s.last() == x,
{
    if s.contains(x) {
        let i = choose|i: int| 0 <= i < s.len() && s[i] == x;
        if i < s.len() - 1 {
            assert(s.drop_last()[i] == x);
        }
    }
    if s.drop_last().contains(x) {
        let i = choose|i: int| 0 <= i < s.drop_last().len() && s.drop_last()[i] == x;
        assert(s[i] == x);
    }
    if s.last() == x {
        assert(s[s.len() - 1] == x);
    }
}

/// Dropping repetitions keeps every id, and keeps it once.
pub proof fn lemma_distinct(ids: Seq<Seq<u8>>)
    ensures
        distinct(ids).no_duplicates(),
        forall|x: Seq<u8>| distinct(ids).contains(x) <==> ids.contains(x),
        distinct(ids).to_set() == ids.to_set(),
    decreases ids.len(),
{
    if ids.len() > 0 {
        lemma_distinct(ids.drop_last());
        let d = distinct(ids.drop_last());
        assert forall|x: Seq<u8>| distinct(ids).contains(x) <==> ids.contains(x) by {
            lemma_contains_last(ids, x);
            if !d.contains(ids.last()) {
                lemma_contains_last(d.push(ids.last()), x);
                assert(d.push(ids.last()).drop_last() =~= d);
            }
        }
    } else {
        assert forall|x: Seq<u8>| distinct(ids).contains(x) <==> ids.contains(x) by {}
    }
    assert(distinct(ids).to_set() =~= ids.to_set());
}

/// An intersection of a list without repetitions has no repetitions.
pub proof fn lemma_common_ids_no_duplicates(a: Seq<Seq<u8>>, b: Seq<Seq<u8>>)
    requires
        a.no_duplicates(),
    ensures
        common_ids(a, b).no_duplicates(),
    decreases a.len(),
{
    if a.len() > 0 {
        lemma_common_ids_no_duplicates(a.drop_last(), b);
        let rest = common_ids(a.drop_last(), b);
        lemma_common_ids_contains(a.drop_last(), b, a.last());
        if a.drop_last().contains(a.last()) {
            let i = choose|i: int| 0 <= i < a.drop_last().len() && a.drop_last()[i] == a.last();
            assert(a[i] == a[a.len() - 1]);
        }
    }
}

/// Intersection of id lists is commutative as far as the set of ids goes.
pub proof fn lemma_intersection_commutes(a: Seq<Seq<u8>>, b: Seq<Seq<u8>>)
    ensures
        common_ids(a, b).to_set() == common_ids(b, a).to_set(),
{
    lemma_common_ids_set(a, b);
    lemma_common_ids_set(b, a);
    assert(a.to_set().intersect(b.to_set()) =~= b.to_set().intersect(a.to_set()));
}

/// Intersection of id lists is associative as far as the set of ids goes.
pub proof fn lemma_intersection_associates(a: Seq<Seq<u8>>, b: Seq<Seq<u8>>, c: Seq<Seq<u8>>)
    ensures
        common_ids(common_ids(a, b), c).to_set() == common_ids(a, common_ids(b, c)).to_set(),
{
    lemma_common_ids_set(a, b);
    lemma_common_ids_set(common_ids(a, b), c);
    lemma_common_ids_set(b, c);
    lemma_common_ids_set(a, common_ids(b, c));
    assert(a.to_set().intersect(b.to_set()).intersect(c.to_set()) =~= a.to_set().intersect(
        b.to_set().intersect(c.to_set()),
    ));
}

/// An id is common to the first `n` lists exactly when there is a list and
/// each of them holds the id.
pub proof fn lemma_intersect_all_contains(lists: Seq<Seq<Seq<u8>>>, n: int, x: Seq<u8>)
    requires
        0 <= n <= lists.len(),
    ensures
        intersect_all(lists, n).contains(x) <==> n >= 1 && forall|i: int|
            0 <= i < n ==> (#[trigger] lists[i]).contains(x),
    decreases n,
{
    if n >= 2 {
        lemma_intersect_all_contains(lists, n - 1, x);
        lemma_common_ids_contains(intersect_all(lists, n - 1), lists[n - 1], x);
    } else if n == 0 {
        assert(!Seq::<Seq<u8>>::empty().contains(x));
    }
}

/// The set of ids common to all predicates does not depend on the order of
/// the predicates: two arrangements of the same per-predicate lists keep the
/// same ids.
pub proof fn lemma_intersect_all_reorder(a: Seq<Seq<Seq<u8>>>, b: Seq<Seq<Seq<u8>>>)
    requires
        a.to_multiset() == b.to_multiset(),
    ensures
        intersect_all(a, a.len() as int).to_set() == intersect_all(b, b.len() as int).to_set(),
{
    a.to_multiset_ensures();
    b.to_multiset_ensures();
    assert(a.len() == b.len());
    assert forall|x: Seq<u8>|
        intersect_all(a, a.len() as int).contains(x) <==> intersect_all(
            b,
            b.len() as int,
        ).contains(x) by {
        lemma_intersect_all_contains(a, a.len() as int, x);
        lemma_intersect_all_contains(b, b.len() as int, x);
        assert forall|i: int| 0 <= i < a.len() implies b.contains(#[trigger] a[i]) by {
            assert(a.contains(a[i]));
            assert(a.to_multiset().count(a[i]) > 0);
        }
        assert forall|i: int| 0 <= i < b.len() implies a.contains(#[trigger] b[i]) by {
            assert(b.contains(b[i]));
            assert(b.to_multiset().count(b[i]) > 0);
        }
        if forall|i: int| 0 <= i < a.len() ==> (#[trigger] a[i]).contains(x) {
            assert forall|j: int| 0 <= j < b.len() implies (#[trigger] b[j]).contains(x) by {
                assert(a.contains(b[j]));
                let i = choose|i: int| 0 <= i < a.len() && a[i] == b[j];
                assert(a[i].contains(x));
            }
        }
        if forall|j: int| 0 <= j < b.len() ==> (#[trigger] b[j]).contains(x) {
            assert forall|i: int| 0 <= i < a.len() implies (#[trigger] a[i]).contains(x) by {
                assert(b.contains(a[i]));
                let j = choose|j: int| 0 <= j < b.len() && b[j] == a[i];
                assert(b[j].contains(x));
            }
        }
    }
    assert(intersect_all(a, a.len() as int).to_set() =~= intersect_all(b, b.len() as int).to_set());
}

/// The series id, or chunk id, that a range value of the index carries.
pub fn parse_chunk_time_range_value(range_value: &[u8]) -> (r: Result<Vec<u8>, IndexError>)
    ensures
        match r {
            Ok(id) => spec_series_id(range_value@) == Ok::<Seq<u8>, IndexErrorView>(id@),
            Err(e) => spec_series_id(range_value@) == Err::<Seq<u8>, IndexErrorView>(e@),
        },
{
    let components = split_bytes(range_value, 0);
    if components.len() != 5 {
        return Err(IndexError::MalformedRangeValue);
    }
    let ghost c = bytes_list_view(components@);
    assert(c[1] == components@[1]@ && c[2] == components@[2]@ && c[3] == components@[3]@);
    let kind = &components[3];
    if kind.len() == 1 && kind[0] == 51 {
        assert(kind@ =~= seq![51u8]);
        Ok(copy_bytes(&components[2]))
    } else if kind.len() == 1 && kind[0] == 56 {
        assert(kind@ =~= seq![56u8]);
        Ok(copy_bytes(&components[1]))
    } else {
        assert(kind@ != seq![51u8]) by {
            if kind@ == seq![51u8] {
                assert(seq![51u8].len() == 1);
                assert(seq![51u8][0] == 51u8);
            }
        }
        assert(kind@ != seq![56u8]) by {
            if kind@ == seq![56u8] {
                assert(seq![56u8].len() == 1);
                assert(seq![56u8][0] == 56u8);
            }
        }
        Err(IndexError::UnknownRangeValueKind(copy_bytes(kind)))
    }
}

/// The ids that the entries carry, one per entry and in their order.
pub fn ids_of_entries(entries: &Vec<Entry>) -> (r: Result<Vec<Vec<u8>>, IndexError>)
    ensures
        match r {
            Ok(ids) => entry_ids(index_entries_view(entries@), entries@.len() as int) == Ok::<
                Seq<Seq<u8>>,
                IndexErrorView,
            >(ids_view(ids@)),
            Err(e) => entry_ids(index_entries_view(entries@), entries@.len() as int) == Err::<
                Seq<Seq<u8>>,
                IndexErrorView,
            >(e@),
        },
{
    let mut ids: Vec<Vec<u8>> = Vec::new();
    let mut i: usize = 0;
    let ghost es = index_entries_view(entries@);
    assert(ids_view(ids@) =~= Seq::empty());
    while i < entries.len()
        invariant
            i <= entries@.len(),
            es == index_entries_view(entries@),
            entry_ids(es, i as int) == Ok::<Seq<Seq<u8>>, IndexErrorView>(ids_view(ids@)),
        decreases entries@.len() - i,
    {
        assert(es[i as int] == entries@[i as int]@);
        match parse_chunk_time_range_value(entries[i].range_value.as_slice()) {
            Ok(id) => {
                assert(ids_view(ids@.push(id)) =~= ids_view(ids@).push(id@));
                ids.push(id);
            },
            Err(e) => {
                proof {
                    lemma_entry_ids_error_persists(es, i as int + 1, entries@.len() as int);
                }
                return Err(e);
            },
        }
        i = i + 1;
    }
    Ok(ids)
}

/// Once an entry has no id, asking for the ids of more entries fails in the
/// same way.
pub proof fn lemma_entry_ids_error_persists(es: Seq<IndexEntryView>, k: int, n: int)
    requires
        k <= n,
        entry_ids(es, k) is Err,
    ensures
        entry_ids(es, n) == entry_ids(es, k),
    decreases n - k,
{
    if k < n {
        lemma_entry_ids_error_persists(es, k, n - 1);
    }
}

/// Whether `ids` holds `id`.
pub fn contains_id(ids: &Vec<Vec<u8>>, id: &[u8]) -> (r: bool)
    ensures
        r == ids_view(ids@).contains(id@),
{
    let mut i: usize = 0;
    while i < ids.len()
        invariant
            i <= ids@.len(),
            forall|j: int| 0 <= j < i ==> ids_view(ids@)[j] != id@,
        decreases ids@.len() - i,
    {
        if bytes_eq(ids[i].as_slice(), id) {
            assert(ids_view(ids@)[i as int] == id@);
            return true;
        }
        i = i + 1;
    }
    false
}

/// Drops the repetitions of a list of ids: each id stays where it first
/// occurs.
pub fn dedup_ids(ids: &Vec<Vec<u8>>) -> (r: Vec<Vec<u8>>)
    ensures
        ids_view(r@) == distinct(ids_view(ids@)),
        ids_view(r@).no_duplicates(),
        ids_view(r@).to_set() == ids_view(ids@).to_set(),
{
    proof {
        lemma_distinct(ids_view(ids@));
    }
    let mut out: Vec<Vec<u8>> = Vec::new();
    let mut i: usize = 0;
    let ghost all = ids_view(ids@);
    assert(all.take(0) =~= Seq::empty());
    assert(ids_view(out@) =~= Seq::empty());
    while i < ids.len()
        invariant
            i <= ids@.len(),
            all == ids_view(ids@),
            ids_view(out@) == distinct(all.take(i as int)),
        decreases ids@.len() - i,
    {
        assert(all.take(i as int + 1).drop_last() =~= all.take(i as int));
        assert(all.take(i as int + 1).last() == ids@[i as int]@);
        if !contains_id(&out, ids[i].as_slice()) {
            let id = copy_bytes(&ids[i]);
            assert(ids_view(out@.push(id)) =~= ids_view(out@).push(id@));
            out.push(id);
        }
        i = i + 1;
    }
    assert(all.take(i as int) =~= all);
    out
}

/// The ids of `a` that `b` holds too, in the order of `a`. As sets, the
/// result is the intersection of the two.
pub fn intersect(a: &Vec<Vec<u8>>, b: &Vec<Vec<u8>>) -> (r: Vec<Vec<u8>>)
    ensures
        ids_view(r@) == common_ids(ids_view(a@), ids_view(b@)),
        ids_view(r@).to_set() == ids_view(a@).to_set().intersect(ids_view(b@).to_set()),
        ids_view(a@).no_duplicates() ==> ids_view(r@).no_duplicates(),
{
    proof {
        if ids_view(a@).no_duplicates() {
            lemma_common_ids_no_duplicates(ids_view(a@), ids_view(b@));
        }
    }
    let mut out: Vec<Vec<u8>> = Vec::new();
    let mut i: usize = 0;
    let ghost all = ids_view(a@);
    assert(all.take(0) =~= Seq::empty());
    assert(ids_view(out@) =~= Seq::empty());
    while i < a.len()
        invariant
            i <= a@.len(),
            all == ids_view(a@),
            ids_view(out@) == common_ids(all.take(i as int), ids_view(b@)),
        decreases a@.len() - i,
    {
        assert(all.take(i as int + 1).drop_last() =~= all.take(i as int));
        assert(all.take(i as int + 1).last() == a@[i as int]@);
        if contains_id(b, a[i].as_slice()) {
            let id = copy_bytes(&a[i]);
            assert(ids_view(out@.push(id)) =~= ids_view(out@).push(id@));
            out.push(id);
        }
        i = i + 1;
    }
    assert(all.take(i as int) =~= all);
    proof {
        lemma_common_ids_set(ids_view(a@), ids_view(b@));
    }
    out
}

/// The reference that a chunk id writes: a tenant, a slash, and after it the
/// fingerprint, the two instants and the checksum in hexadecimal, separated
/// by colons. Each number may have a plus sign, an instant also a minus sign.
/// What follows a second slash or a fourth colon is not read.
pub open spec fn spec_chunk_ref(id: Seq<u8>) -> Option<ChunkRefView> {
    let pieces = split(id, 47u8);
    if pieces.len() < 2 {
        None
    } else {
        let parts = split(pieces[1], 58u8);
        if parts.len() < 4 {
            None
        } else {
            match (
                spec_parse_unsigned_hex(parts[0], u64::MAX as nat),
                spec_parse_signed_hex(parts[1]),
                spec_parse_signed_hex(parts[2]),
                spec_parse_unsigned_hex(parts[3], u32::MAX as nat),
            ) {
                (Some(fingerprint), Some(from), Some(to), Some(checksum)) => Some(
                    ChunkRefView {
                        user_id: pieces[0],
                        fingerprint: fingerprint as u64,
                        from: from as i64,
                        to: to as i64,
                        checksum: checksum as u32,
                    },
                ),
                _ => None,
            }
        }
    }
}

/// Parses a chunk id into a chunk reference.
pub fn parse_chunk_ref(id: &[u8]) -> (r: Result<ChunkRef, IndexError>)
    ensures
        match r {
            Ok(c) => spec_chunk_ref(id@) == Some(c@),
            Err(e) => spec_chunk_ref(id@) is None && e@ == IndexErrorView::BadChunkId,
        },
{
    let pieces = split_bytes(id, 47);
    if pieces.len() < 2 {
        return Err(IndexError::BadChunkId);
    }
    let ghost ps = bytes_list_view(pieces@);
    assert(ps[0] == pieces@[0]@ && ps[1] == pieces@[1]@);
    let parts = split_bytes(pieces[1].as_slice(), 58);
    if parts.len() < 4 {
        return Err(IndexError::BadChunkId);
    }
    let ghost qs = bytes_list_view(parts@);
    assert(qs[0] == parts@[0]@ && qs[1] == parts@[1]@ && qs[2] == parts@[2]@ && qs[3]
        == parts@[3]@);
    let fingerprint: u64 = match parse_unsigned_hex(parts[0].as_slice(), u64::MAX) {
        Some(v) => v,
        None => { return Err(IndexError::BadChunkId); },
    };
    let from: i64 = match parse_signed_hex(parts[1].as_slice()) {
        Some(v) => v,
        None => { return Err(IndexError::BadChunkId); },
    };
    let to: i64 = match parse_signed_hex(parts[2].as_slice()) {
        Some(v) => v,
        None => { return Err(IndexError::BadChunkId); },
    };
    let checksum: u64 = match parse_unsigned_hex(parts[3].as_slice(), 0xffff_ffff) {
        Some(v) => v,
        None => { return Err(IndexError::BadChunkId); },
    };
    Ok(ChunkRef { user_id: copy_bytes(&pieces[0]), fingerprint, from, to, checksum: checksum as u32 })
}

/// Whether the time that a chunk covers meets the range from `start_ms` to
/// `end_ms`, bounds included.
pub open spec fn overlaps(c: ChunkRefView, start_ms: int, end_ms: int) -> bool {
    !(c.to < start_ms || c.from > end_ms)
}

/// The references among `refs` that meet the range, in their order.
pub open spec fn kept_refs(refs: Seq<ChunkRefView>, start_ms: int, end_ms: int) -> Seq<
    ChunkRefView,
>
    decreases refs.len(),
{
    if refs.len() == 0 {
        Seq::empty()
    } else if overlaps(refs.last(), start_ms, end_ms) {
        kept_refs(refs.drop_last(), start_ms, end_ms).push(refs.last())
    } else {
        kept_refs(refs.drop_last(), start_ms, end_ms)
    }
}

/// The filter keeps a reference exactly when it is among the input and its
/// time meets the range: it rejects those, and only those, that end before
/// the range starts or start after the range ends.
pub proof fn lemma_kept_refs_contains(
    refs: Seq<ChunkRefView>,
    start_ms: int,
    end_ms: int,
    c: ChunkRefView,
)
    ensures
        kept_refs(refs, start_ms, end_ms).contains(c) <==> refs.contains(c) && !(c.to < start_ms
            || c.from > end_ms),
    decreases refs.len(),
{
    if refs.len() > 0 {
        lemma_kept_refs_contains(refs.drop_last(), start_ms, end_ms, c);
        let rest = kept_refs(refs.drop_last(), start_ms, end_ms);
        if refs.contains(c) {
            let i = choose|i: int| 0 <= i < refs.len() && refs[i] == c;
            if i < refs.len() - 1 {
                assert(refs.drop_last()[i] == c);
            }
        }
        if refs.drop_last().contains(c) {
            let i = choose|i: int| 0 <= i < refs.drop_last().len() && refs.drop_last()[i] == c;
            assert(refs[i] == c);
        }
        if overlaps(refs.last(), start_ms, end_ms) {
            assert(rest.push(refs.last())[rest.len() as int] == refs.last());
            if rest.contains(c) {
                let i = choose|i: int| 0 <= i < rest.len() && rest[i] == c;
                assert(rest.push(refs.last())[i] == c);
            }
            if rest.push(refs.last()).contains(c) {
                let i = choose|i: int|
                    0 <= i < rest.push(refs.last()).len() && rest.push(refs.last())[i] == c;
                if i < rest.len() {
                    assert(rest[i] == c);
                } else {
                    assert(refs[refs.len() - 1] == c);
                }
            }
        }
    }
}

impl ChunkRef {
    /// Whether the time that this chunk covers meets the range from
    /// `start_ms` to `end_ms`, bounds included.
    pub fn overlaps(&self, start_ms: i64, end_ms: i64) -> (r: bool)
        ensures
            r == !(self.to < start_ms || self.from > end_ms),
            r == overlaps(self@, start_ms as int, end_ms as int),
    {
        !(self.to < start_ms || self.from > end_ms)
    }
}

/// Drops the references whose time does not meet the range from `start_ms`
/// to `end_ms`.
pub fn filter_chunk_refs(refs: Vec<ChunkRef>, start_ms: i64, end_ms: i64) -> (r: Vec<ChunkRef>)
    ensures
        refs_view(r@) == kept_refs(refs_view(refs@), start_ms as int, end_ms as int),
        forall|c: ChunkRefView|
            #![trigger refs_view(r@).contains(c)]
            refs_view(r@).contains(c) <==> refs_view(refs@).contains(c) && !(c.to < start_ms
                || c.from > end_ms),
{
    let ghost all = refs_view(refs@);
    let mut out: Vec<ChunkRef> = Vec::new();
    let mut i: usize = 0;
    assert(all.take(0) =~= Seq::empty());
    assert(refs_view(out@) =~= Seq::empty());
    while i < refs.len()
        invariant
            i <= refs@.len(),
            all == refs_view(refs@),
            refs_view(out@) == kept_refs(all.take(i as int), start_ms as int, end_ms as int),
        decreases refs@.len() - i,
    {
        assert(all.take(i as int + 1).drop_last() =~= all.take(i as int));
        assert(all.take(i as int + 1).last() == refs@[i as int]@);
        if refs[i].overlaps(start_ms, end_ms) {
            let c = ChunkRef {
                user_id: copy_bytes(&refs[i].user_id),
                fingerprint: refs[i].fingerprint,
                from: refs[i].from,
                to: refs[i].to,
                checksum: refs[i].checksum,
            };
            assert(refs_view(out@.push(c)) =~= refs_view(out@).push(c@));
            out.push(c);
        }
        i = i + 1;
    }
    assert(all.take(i as int) =~= all);
    proof {
        assert forall|c: ChunkRefView|
            #![trigger refs_view(out@).contains(c)]
            refs_view(out@).contains(c) <==> refs_view(refs@).contains(c) && !(c.to < start_ms
                || c.from > end_ms) by {
            lemma_kept_refs_contains(all, start_ms as int, end_ms as int, c);
        }
    }
    out
}

/// The chunk references that the first `n` ids write, or nothing where one
/// of them is no chunk id.
pub open spec fn parsed_refs(ids: Seq<Seq<u8>>, n: int) -> Option<Seq<ChunkRefView>>
    decreases n,
{
    if n <= 0 {
        Some(Seq::empty())
    } else {
        match parsed_refs(ids, n - 1) {
            None => None,
            Some(refs) => match spec_chunk_ref(ids[n - 1]) {
                None => None,
                Some(c) => Some(refs.push(c)),
            },
        }
    }
}

/// Once an id is no chunk id, parsing more ids fails too.
pub proof fn lemma_parsed_refs_error_persists(ids: Seq<Seq<u8>>, k: int, n: int)
    requires
        k <= n,
        parsed_refs(ids, k) is None,
    ensures
        parsed_refs(ids, n) is None,
    decreases n - k,
{
    if k < n {
        lemma_parsed_refs_error_persists(ids, k, n - 1);
    }
}

/// The chunk references that a list of chunk ids writes, in their order.
pub fn parse_chunk_refs(ids: &Vec<Vec<u8>>) -> (r: Result<Vec<ChunkRef>, IndexError>)
    ensures
        match r {
            Ok(refs) => parsed_refs(ids_view(ids@), ids@.len() as int) == Some(refs_view(refs@)),
            Err(e) => parsed_refs(ids_view(ids@), ids@.len() as int) is None && e@
                == IndexErrorView::BadChunkId,
        },
{
    let mut refs: Vec<ChunkRef> = Vec::new();
    let mut i: usize = 0;
    let ghost all = ids_view(ids@);
    assert(refs_view(refs@) =~= Seq::empty());
    while i < ids.len()
        invariant
            i <= ids@.len(),
            all == ids_view(ids@),
            parsed_refs(all, i as int) == Some(refs_view(refs@)),
        decreases ids@.len() - i,
    {
        assert(all[i as int] == ids@[i as int]@);
        match parse_chunk_ref(ids[i].as_slice()) {
            Ok(c) => {
                assert(refs_view(refs@.push(c)) =~= refs_view(refs@).push(c@));
                refs.push(c);
            },
            Err(e) => {
                proof {
                    lemma_parsed_refs_error_persists(all, i as int + 1, ids@.len() as int);
                }
                return Err(e);
            },
        }
        i = i + 1;
    }
    Ok(refs)
}

/// The series ids of one predicate: the ids that the entries of its queries
/// carry, without repetitions.
pub open spec fn predicate_ids(
    pairs: Seq<KvPairView>,
    buckets: Seq<DayBucketView>,
    shard: nat,
    key: Seq<u8>,
    value: Seq<u8>,
    broad: bool,
) -> Result<Seq<Seq<u8>>, IndexErrorView> {
    let qs = label_queries(buckets, buckets.len() as int, shard, key, value);
    let es = pages(pairs, qs, broad);
    match entry_ids(es, es.len() as int) {
        Err(e) => Err(e),
        Ok(ids) => Ok(distinct(ids)),
    }
}

/// The series ids that the first `n` predicates leave: those of the first
/// predicate, intersected with those of each later one. The first error
/// ends it.
pub open spec fn series_after(
    pairs: Seq<KvPairView>,
    buckets: Seq<DayBucketView>,
    shard: nat,
    preds: Seq<KeyValue>,
    broad: bool,
    n: int,
) -> Result<Seq<Seq<u8>>, IndexErrorView>
    decreases n,
{
    if n <= 0 {
        Ok(Seq::empty())
    } else {
        match series_after(pairs, buckets, shard, preds, broad, n - 1) {
            Err(e) => Err(e),
            Ok(acc) => match predicate_ids(
                pairs,
                buckets,
                shard,
                preds[n - 1].key_bytes(),
                preds[n - 1].value_bytes(),
                broad,
            ) {
                Err(e) => Err(e),
                Ok(ids) => Ok(
                    if n == 1 {
                        ids
                    } else {
                        common_ids(acc, ids)
                    },
                ),
            },
        }
    }
}

/// The chunk references of the given series within the range: the entries of
/// the series queries under the broad strategy, the chunk ids that they
/// carry, and of the references that those write the ones that meet the
/// range.
pub open spec fn spec_resolve(
    pairs: Seq<KvPairView>,
    buckets: Seq<DayBucketView>,
    series: Seq<Seq<u8>>,
    start_ms: int,
    end_ms: int,
) -> Result<Seq<ChunkRefView>, IndexErrorView> {
    let qs = series_queries(buckets, buckets.len() as int, series);
    let es = pages(pairs, qs, true);
    match entry_ids(es, es.len() as int) {
        Err(e) => Err(e),
        Ok(ids) => match parsed_refs(ids, ids.len() as int) {
            None => Err(IndexErrorView::BadChunkId),
            Some(refs) => Ok(kept_refs(refs, start_ms, end_ms)),
        },
    }
}

/// The buckets of a tenant for a range, earliest day first.
pub open spec fn spec_buckets(tenant: Seq<u8>, start_ms: int, end_ms: int) -> Seq<DayBucketView> {
    Seq::new(
        day_count(start_ms, end_ms) as nat,
        |i: int| spec_bucket(tenant, start_ms, end_ms, day_of(start_ms) + i),
    )
}

/// A whole inspection: the buckets of the range, the series that meet every
/// predicate, and the chunk references of those series within the range.
pub open spec fn spec_inspect(
    pairs: Seq<KvPairView>,
    tenant: Seq<u8>,
    shard: nat,
    preds: Seq<KeyValue>,
    start_ms: int,
    end_ms: int,
    broad: bool,
) -> Result<Seq<ChunkRefView>, IndexErrorView> {
    let buckets = spec_buckets(tenant, start_ms, end_ms);
    match series_after(pairs, buckets, shard, preds, broad, preds.len() as int) {
        Err(e) => Err(e),
        Ok(series) => spec_resolve(pairs, buckets, series, start_ms, end_ms),
    }
}

/// Once a predicate fails, going on to more predicates fails in the same way.
pub proof fn lemma_series_error_persists(
    pairs: Seq<KvPairView>,
    buckets: Seq<DayBucketView>,
    shard: nat,
    preds: Seq<KeyValue>,
    broad: bool,
    k: int,
    n: int,
)
    requires
        k <= n,
        series_after(pairs, buckets, shard, preds, broad, k) is Err,
    ensures
        series_after(pairs, buckets, shard, preds, broad, n) == series_after(
            pairs,
            buckets,
            shard,
            preds,
            broad,
            k,
        ),
    decreases n - k,
{
    if k < n {
        lemma_series_error_persists(pairs, buckets, shard, preds, broad, k, n - 1);
    }
}

/// Whether every predicate has a value short enough to be hashed.
pub open spec fn predicates_hashable(preds: Seq<KeyValue>) -> bool {
    forall|i: int|
        0 <= i < preds.len() ==> (#[trigger] preds[i]).value_bytes().len()
            < 0x2000_0000_0000_0000
}

/// The series ids of the predicate `kv` over `buckets`.
pub fn series_ids_for(
    pairs: &Vec<KvPair>,
    shard: u32,
    buckets: &Vec<DayBucket>,
    kv: &KeyValue,
    disable_broad_queries: bool,
) -> (r: Result<Vec<Vec<u8>>, IndexError>)
    requires
        kv.value_bytes().len() < 0x2000_0000_0000_0000,
    ensures
        r matches Ok(ids) ==> ids_view(ids@).no_duplicates(),
        match r {
            Ok(ids) => predicate_ids(
                pairs_view(pairs@),
                buckets_view(buckets@),
                shard as nat,
                kv.key_bytes(),
                kv.value_bytes(),
                !disable_broad_queries,
            ) == Ok::<Seq<Seq<u8>>, IndexErrorView>(ids_view(ids@)),
            Err(e) => predicate_ids(
                pairs_view(pairs@),
                buckets_view(buckets@),
                shard as nat,
                kv.key_bytes(),
                kv.value_bytes(),
                !disable_broad_queries,
            ) == Err::<Seq<Seq<u8>>, IndexErrorView>(e@),
        },
{
    let queries = calc_queries(shard, buckets, kv);
    let entries = get_entries_from_queries(disable_broad_queries, pairs, &queries);
    match ids_of_entries(&entries) {
        Ok(ids) => Ok(dedup_ids(&ids)),
        Err(e) => Err(e),
    }
}

/// The series that meet every predicate: the ids of the first predicate,
/// intersected with those of each later one.
pub fn select_series(
    pairs: &Vec<KvPair>,
    shard: u32,
    buckets: &Vec<DayBucket>,
    predicates: &Vec<KeyValue>,
    disable_broad_queries: bool,
) -> (r: Result<Vec<Vec<u8>>, IndexError>)
    requires
        predicates_hashable(predicates@),
    ensures
        r matches Ok(ids) ==> ids_view(ids@).no_duplicates(),
        match r {
            Ok(ids) => series_after(
                pairs_view(pairs@),
                buckets_view(buckets@),
                shard as nat,
                predicates@,
                !disable_broad_queries,
                predicates@.len() as int,
            ) == Ok::<Seq<Seq<u8>>, IndexErrorView>(ids_view(ids@)),
            Err(e) => series_after(
                pairs_view(pairs@),
                buckets_view(buckets@),
                shard as nat,
                predicates@,
                !disable_broad_queries,
                predicates@.len() as int,
            ) == Err::<Seq<Seq<u8>>, IndexErrorView>(e@),
        },
{
    let mut series_ids: Vec<Vec<u8>> = Vec::new();
    let mut k: usize = 0;
    assert(ids_view(series_ids@) =~= Seq::empty());
    while k < predicates.len()
        invariant
            k <= predicates@.len(),
            predicates_hashable(predicates@),
            ids_view(series_ids@).no_duplicates(),
            series_after(
                pairs_view(pairs@),
                buckets_view(buckets@),
                shard as nat,
                predicates@,
                !disable_broad_queries,
                k as int,
            ) == Ok::<Seq<Seq<u8>>, IndexErrorView>(ids_view(series_ids@)),
        decreases predicates@.len() - k,
    {
        match series_ids_for(pairs, shard, buckets, &predicates[k], disable_broad_queries) {
            Ok(ids) => {
                if k == 0 {
                    series_ids = ids;
                } else {
                    series_ids = intersect(&series_ids, &ids);
                }
            },
            Err(e) => {
                proof {
                    lemma_series_error_persists(
                        pairs_view(pairs@),
                        buckets_view(buckets@),
                        shard as nat,
                        predicates@,
                        !disable_broad_queries,
                        k as int + 1,
                        predicates@.len() as int,
                    );
                }
                return Err(e);
            },
        }
        k = k + 1;
    }
    Ok(series_ids)
}

/// The chunk references of `series` within the range from `start_ms` to
/// `end_ms`.
pub fn resolve_chunks(
    pairs: &Vec<KvPair>,
    buckets: &Vec<DayBucket>,
    series: &Vec<Vec<u8>>,
    start_ms: i64,
    end_ms: i64,
) -> (r: Result<Vec<ChunkRef>, IndexError>)
    ensures
        match r {
            Ok(refs) => spec_resolve(
                pairs_view(pairs@),
                buckets_view(buckets@),
                ids_view(series@),
                start_ms as int,
                end_ms as int,
            ) == Ok::<Seq<ChunkRefView>, IndexErrorView>(refs_view(refs@)),
            Err(e) => spec_resolve(
                pairs_view(pairs@),
                buckets_view(buckets@),
                ids_view(series@),
                start_ms as int,
                end_ms as int,
            ) == Err::<Seq<ChunkRefView>, IndexErrorView>(e@),
        },
{
    let queries = calc_queries_for_serires(buckets, series);
    let entries = do_broad_queries(pairs, &queries);
    let ids = match ids_of_entries(&entries) {
        Ok(ids) => ids,
        Err(e) => { return Err(e); },
    };
    match parse_chunk_refs(&ids) {
        Ok(refs) => Ok(filter_chunk_refs(refs, start_ms, end_ms)),
        Err(e) => Err(e),
    }
}

/// Inspects the index: finds the chunks of `tenant` whose series meet every
/// predicate and whose time meets the range from `start_ms` to `end_ms`, both
/// in milliseconds since the Unix epoch. `pairs` are the pairs of the index
/// bucket in key order.
pub fn inspect(
    pairs: &Vec<KvPair>,
    tenant: &[u8],
    shard: u32,
    predicates: &Vec<KeyValue>,
    start_ms: i64,
    end_ms: i64,
    disable_broad_queries: bool,
) -> (r: Result<Vec<ChunkRef>, IndexError>)
    requires
        predicates_hashable(predicates@),
    ensures
        match r {
            Ok(refs) => spec_inspect(
                pairs_view(pairs@),
                tenant@,
                shard as nat,
                predicates@,
                start_ms as int,
                end_ms as int,
                !disable_broad_queries,
            ) == Ok::<Seq<ChunkRefView>, IndexErrorView>(refs_view(refs@)),
            Err(e) => spec_inspect(
                pairs_view(pairs@),
                tenant@,
                shard as nat,
                predicates@,
                start_ms as int,
                end_ms as int,
                !disable_broad_queries,
            ) == Err::<Seq<ChunkRefView>, IndexErrorView>(e@),
        },
{
    let buckets = get_buckets(tenant, start_ms, end_ms);
    assert(buckets_view(buckets@) =~= spec_buckets(tenant@, start_ms as int, end_ms as int));
    let series = match select_series(pairs, shard, &buckets, predicates, disable_broad_queries) {
        Ok(ids) => ids,
        Err(e) => { return Err(e); },
    };
    resolve_chunks(pairs, &buckets, &series, start_ms, end_ms)
}

/// The strategy does not change what an inspection finds.
pub proof fn lemma_inspect_strategy_free(
    pairs: Seq<KvPairView>,
    tenant: Seq<u8>,
    shard: nat,
    preds: Seq<KeyValue>,
    start_ms: int,
    end_ms: int,
)
    ensures
        spec_inspect(pairs, tenant, shard, preds, start_ms, end_ms, true) == spec_inspect(
            pairs,
            tenant,
            shard,
            preds,
            start_ms,
            end_ms,
            false,
        ),
{
    let buckets = spec_buckets(tenant, start_ms, end_ms);
    lemma_series_strategy_free(pairs, buckets, shard, preds, preds.len() as int);
}

/// The strategy does not change the series that the first `n` predicates
/// leave.
pub proof fn lemma_series_strategy_free(
    pairs: Seq<KvPairView>,
    buckets: Seq<DayBucketView>,
    shard: nat,
    preds: Seq<KeyValue>,
    n: int,
)
    requires
        n <= preds.len(),
    ensures
        series_after(pairs, buckets, shard, preds, true, n) == series_after(
            pairs,
            buckets,
            shard,
            preds,
            false,
            n,
        ),
    decreases n,
{
    if n > 0 {
        lemma_series_strategy_free(pairs, buckets, shard, preds, n - 1);
        lemma_strategies_agree(
            pairs,
            label_queries(
                buckets,
                buckets.len() as int,
                shard,
                preds[n - 1].key_bytes(),
                preds[n - 1].value_bytes(),
            ),
        );
    }
}

/// The series ids of one predicate, or no ids where its entries cannot be
/// read.
pub open spec fn ids_or_none(
    pairs: Seq<KvPairView>,
    buckets: Seq<DayBucketView>,
    shard: nat,
    pred: KeyValue,
    broad: bool,
) -> Seq<Seq<u8>> {
    match predicate_ids(pairs, buckets, shard, pred.key_bytes(), pred.value_bytes(), broad) {
        Ok(ids) => ids,
        Err(_) => Seq::empty(),
    }
}

/// The series ids of each predicate, in the order of the predicates.
pub open spec fn predicate_lists(
    pairs: Seq<KvPairView>,
    buckets: Seq<DayBucketView>,
    shard: nat,
    preds: Seq<KeyValue>,
    broad: bool,
) -> Seq<Seq<Seq<u8>>> {
    Seq::new(preds.len(), |i: int| ids_or_none(pairs, buckets, shard, preds[i], broad))
}

/// Whether the entries of each of the first `n` predicates can be read.
pub open spec fn predicates_readable(
    pairs: Seq<KvPairView>,
    buckets: Seq<DayBucketView>,
    shard: nat,
    preds: Seq<KeyValue>,
    broad: bool,
    n: int,
) -> bool {
    forall|i: int|
        0 <= i < n ==> predicate_ids(
            pairs,
            buckets,
            shard,
            (#[trigger] preds[i]).key_bytes(),
            preds[i].value_bytes(),
            broad,
        ) is Ok
}

/// The series that the first `n` predicates leave are the ids common to the
/// lists of those predicates; there are none to speak of as soon as the
/// entries of one predicate cannot be read.
pub proof fn lemma_series_after_is_intersection(
    pairs: Seq<KvPairView>,
    buckets: Seq<DayBucketView>,
    shard: nat,
    preds: Seq<KeyValue>,
    broad: bool,
    n: int,
)
    requires
        0 <= n <= preds.len(),
    ensures
        predicates_readable(pairs, buckets, shard, preds, broad, n) ==> series_after(
            pairs,
            buckets,
            shard,
            preds,
            broad,
            n,
        ) == Ok::<Seq<Seq<u8>>, IndexErrorView>(
            intersect_all(predicate_lists(pairs, buckets, shard, preds, broad), n),
        ),
        !predicates_readable(pairs, buckets, shard, preds, broad, n) ==> series_after(
            pairs,
            buckets,
            shard,
            preds,
            broad,
            n,
        ) is Err,
    decreases n,
{
    if n > 0 {
        lemma_series_after_is_intersection(pairs, buckets, shard, preds, broad, n - 1);
        let lists = predicate_lists(pairs, buckets, shard, preds, broad);
        assert(lists[n - 1] == ids_or_none(pairs, buckets, shard, preds[n - 1], broad));
        if predicates_readable(pairs, buckets, shard, preds, broad, n) {
            assert(predicates_readable(pairs, buckets, shard, preds, broad, n - 1));
            assert(predicate_ids(
                pairs,
                buckets,
                shard,
                preds[n - 1].key_bytes(),
                preds[n - 1].value_bytes(),
                broad,
            ) is Ok);
            assert(lists[0] == ids_or_none(pairs, buckets, shard, preds[0], broad));
        } else if predicates_readable(pairs, buckets, shard, preds, broad, n - 1) {
            assert(predicate_ids(
                pairs,
                buckets,
                shard,
                preds[n - 1].key_bytes(),
                preds[n - 1].value_bytes(),
                broad,
            ) is Err);
        }
    }
}

/// The set of series that an inspection selects does not depend on the order
/// of the predicates: two arrangements of the same predicates either both
/// fail or leave the same set of series ids.
pub proof fn lemma_series_order_free(
    pairs: Seq<KvPairView>,
    buckets: Seq<DayBucketView>,
    shard: nat,
    a: Seq<KeyValue>,
    b: Seq<KeyValue>,
    broad: bool,
)
    requires
        a.to_multiset() == b.to_multiset(),
    ensures
        series_after(pairs, buckets, shard, a, broad, a.len() as int) is Ok <==> series_after(
            pairs,
            buckets,
            shard,
            b,
            broad,
            b.len() as int,
        ) is Ok,
        series_after(pairs, buckets, shard, a, broad, a.len() as int) is Ok ==> series_after(
            pairs,
            buckets,
            shard,
            a,
            broad,
            a.len() as int,
        )->Ok_0.to_set() == series_after(
            pairs,
            buckets,
            shard,
            b,
            broad,
            b.len() as int,
        )->Ok_0.to_set(),
{
    a.to_multiset_ensures();
    b.to_multiset_ensures();
    let n = a.len() as int;
    assert(a.len() == b.len());
    assert forall|i: int| 0 <= i < n implies b.contains(#[trigger] a[i]) by {
        assert(a.contains(a[i]));
        assert(a.to_multiset().count(a[i]) > 0);
    }
    assert forall|j: int| 0 <= j < n implies a.contains(#[trigger] b[j]) by {
        assert(b.contains(b[j]));
        assert(b.to_multiset().count(b[j]) > 0);
    }
    lemma_series_after_is_intersection(pairs, buckets, shard, a, broad, n);
    lemma_series_after_is_intersection(pairs, buckets, shard, b, broad, n);
    let la = predicate_lists(pairs, buckets, shard, a, broad);
    let lb = predicate_lists(pairs, buckets, shard, b, broad);
    if predicates_readable(pairs, buckets, shard, a, broad, n) {
        assert forall|j: int| 0 <= j < n implies predicate_ids(
            pairs,
            buckets,
            shard,
            (#[trigger] b[j]).key_bytes(),
            b[j].value_bytes(),
            broad,
        ) is Ok by {
            assert(a.contains(b[j]));
            let i = choose|i: int| 0 <= i < a.len() && a[i] == b[j];
            assert(a[i].key_bytes() == b[j].key_bytes());
        }
    }
    if predicates_readable(pairs, buckets, shard, b, broad, n) {
        assert forall|i: int| 0 <= i < n implies predicate_ids(
            pairs,
            buckets,
            shard,
            (#[trigger] a[i]).key_bytes(),
            a[i].value_bytes(),
            broad,
        ) is Ok by {
            assert(b.contains(a[i]));
            let j = choose|j: int| 0 <= j < b.len() && b[j] == a[i];
            assert(b[j].key_bytes() == a[i].key_bytes());
        }
    }
    if predicates_readable(pairs, buckets, shard, a, broad, n) {
        assert forall|x: Seq<u8>|
            intersect_all(la, n).contains(x) <==> intersect_all(lb, n).contains(x) by {
            lemma_intersect_all_contains(la, n, x);
            lemma_intersect_all_contains(lb, n, x);
            if forall|i: int| 0 <= i < n ==> (#[trigger] la[i]).contains(x) {
                assert forall|j: int| 0 <= j < n implies (#[trigger] lb[j]).contains(x) by {
                    assert(a.contains(b[j]));
                    let i = choose|i: int| 0 <= i < a.len() && a[i] == b[j];
                    assert(la[i].contains(x));
                    assert(la[i] == ids_or_none(pairs, buckets, shard, a[i], broad));
                    assert(lb[j] == ids_or_none(pairs, buckets, shard, b[j], broad));
                }
            }
            if forall|j: int| 0 <= j < n ==> (#[trigger] lb[j]).contains(x) {
                assert forall|i: int| 0 <= i < n implies (#[trigger] la[i]).contains(x) by {
                    assert(b.contains(a[i]));
                    let j = choose|j: int| 0 <= j < b.len() && b[j] == a[i];
                    assert(lb[j].contains(x));
                    assert(la[i] == ids_or_none(pairs, buckets, shard, a[i], broad));
                    assert(lb[j] == ids_or_none(pairs, buckets, shard, b[j], broad));
                }
            }
        }
        assert(intersect_all(la, n).to_set() =~= intersect_all(lb, n).to_set());
    }
}

/// A range value that carries an id has five components, and its fourth is
/// `3` or `8`.
pub proof fn lemma_series_id_components(range_value: Seq<u8>)
    ensures
        spec_series_id(range_value) is Ok <==> split(range_value, 0u8).len() == 5 && (split(
            range_value,
            0u8,
        )[3] == seq![51u8] || split(range_value, 0u8)[3] == seq![56u8]),
{
}

} // verus!
