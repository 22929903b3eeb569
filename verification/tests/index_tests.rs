use loki_inspect::common::{BadPredicateSyntax, KeyValue};
use loki_inspect::executor::{
    do_broad_queries, filter_entries, get_entries_from_queries, passes_filters, query_pages,
    Entry, KvPair,
};
use loki_inspect::index::{
    calc_queries, calc_queries_for_serires, day_number, get_buckets, plan_label_queries,
    DayBucket, Query, DAY_MS,
};
use loki_inspect::resolve::{
    contains_id, dedup_ids, filter_chunk_refs, ids_of_entries, inspect, intersect,
    parse_chunk_ref, parse_chunk_refs, parse_chunk_time_range_value, resolve_chunks,
    select_series, series_ids_for, ChunkRef, IndexError,
};
use loki_inspect::text::{
    bytes_eq, bytes_lt, copy_bytes, encode_time, parse_hex, parse_signed_hex,
    parse_unsigned_hex, push_bytes, push_decimal, push_decimal_int, push_two_digits,
    split_bytes, starts_with,
};

const DAY: i64 = 86_400_000;
const NGINX_HASH: &str = "W+Hsx5NfHdhWNdT+7a9mBZQDAlPMl8npyjgZ/+rDa2U";

fn kv(key: &str, value: &str) -> KeyValue {
    KeyValue { key: key.to_string(), value: value.to_string() }
}

fn pair(key: &[u8], value: Option<&[u8]>) -> KvPair {
    KvPair { key: key.to_vec(), value: value.map(|v| v.to_vec()) }
}

fn query(hash: &[u8], prefix: &[u8], start: &[u8], value: &[u8]) -> Query {
    Query {
        table_name: b"index_1".to_vec(),
        hash_value: hash.to_vec(),
        range_value_prefix: prefix.to_vec(),
        range_value_start: start.to_vec(),
        value_equal: value.to_vec(),
    }
}

fn entry(range_value: &[u8], value: &[u8]) -> Entry {
    Entry {
        table_name: b"index_1".to_vec(),
        hash_value: b"h".to_vec(),
        range_value: range_value.to_vec(),
        value: value.to_vec(),
    }
}

fn range_values(entries: &[Entry]) -> Vec<Vec<u8>> {
    entries.iter().map(|e| e.range_value.clone()).collect()
}

fn ids(list: &[&str]) -> Vec<Vec<u8>> {
    list.iter().map(|s| s.as_bytes().to_vec()).collect()
}

fn sorted(mut v: Vec<Vec<u8>>) -> Vec<Vec<u8>> {
    v.sort();
    v
}

/// The key of a label entry: shard, bucket, label, hash of the value, and a
/// range value whose third component is the series id.
fn label_key(shard: u32, day: i64, label: &str, value_hash: &str, series: &str) -> Vec<u8> {
    let mut key = format!("{:02}:fake:d{}:logs:{}", shard, day, label).into_bytes();
    key.push(0);
    key.extend_from_slice(value_hash.as_bytes());
    key.push(0);
    key.extend_from_slice(b"x");
    key.push(0);
    key.extend_from_slice(series.as_bytes());
    key.push(0);
    key.extend_from_slice(b"3");
    key.push(0);
    key
}

/// The key of a chunk entry of a series: the second component of the range
/// value is the chunk id.
fn chunk_key(day: i64, series: &str, through_hex: &str, chunk_id: &str) -> Vec<u8> {
    let mut key = format!("fake:d{}:{}", day, series).into_bytes();
    key.push(0);
    key.extend_from_slice(through_hex.as_bytes());
    key.push(0);
    key.extend_from_slice(chunk_id.as_bytes());
    key.push(0);
    key.push(0);
    key.extend_from_slice(b"8");
    key.push(0);
    key
}

/// A chunk id whose times are offsets into day 19234.
fn chunk_id(fingerprint: &str, from: i64, to: i64, checksum: u32) -> String {
    format!("fake/{}:{:x}:{:x}:{:x}", fingerprint, 19234 * DAY + from, 19234 * DAY + to, checksum)
}

fn value_hash(value: &str) -> String {
    let digest = ring::digest::digest(&ring::digest::SHA256, value.as_bytes());
    base64::encode_config(digest, base64::STANDARD_NO_PAD)
}

fn sample_index() -> Vec<KvPair> {
    let day: i64 = 19234;
    let nginx = value_hash("nginx");
    let prod = value_hash("prod");
    let mut pairs = vec![
        pair(&label_key(0, day, "app", &nginx, "series-a"), Some(b"nginx")),
        pair(&label_key(3, day, "app", &nginx, "series-b"), Some(b"nginx")),
        pair(&label_key(3, day, "app", &nginx, "series-a"), Some(b"nginx")),
        pair(&label_key(5, day, "app", &value_hash("httpd"), "series-c"), Some(b"httpd")),
        pair(&label_key(1, day, "env", &prod, "series-b"), Some(b"prod")),
        pair(&label_key(2, day, "env", &prod, "series-c"), Some(b"prod")),
        pair(&chunk_key(day, "series-a", "00000200", &chunk_id("a1", 0x100, 0x200, 1)), Some(b"")),
        pair(&chunk_key(day, "series-b", "00000200", &chunk_id("b1", 0x100, 0x200, 2)), Some(b"")),
        pair(&chunk_key(day, "series-b", "00000400", &chunk_id("b2", 0x300, 0x400, 3)), Some(b"")),
        pair(&chunk_key(day, "series-c", "00000200", &chunk_id("c1", 0x100, 0x200, 4)), Some(b"")),
        pair(b"fake:d19234:series-b", None),
    ];
    pairs.sort_by(|a, b| a.key.cmp(&b.key));
    pairs
}

#[test]
fn planner_for_one_predicate() {
    let start_ms = 19234 * DAY + 1000;
    let buckets = get_buckets(b"fake", start_ms, start_ms + 3_600_000);
    assert_eq!(buckets.len(), 1);
    let queries = calc_queries(16, &buckets, &kv("app", "nginx"));
    assert_eq!(queries.len(), 16);
    let mut expected_prefix = NGINX_HASH.as_bytes().to_vec();
    expected_prefix.push(0);
    for (i, q) in queries.iter().enumerate() {
        assert_eq!(q.table_name, b"index_19234".to_vec());
        assert_eq!(q.hash_value, format!("{:02}:fake:d19234:logs:app", i).into_bytes());
        assert_eq!(q.range_value_prefix, expected_prefix);
        assert_eq!(q.range_value_start, Vec::<u8>::new());
        assert_eq!(q.value_equal, b"nginx".to_vec());
        assert!(q.hash_value.len() > 0);
        assert_eq!(q.range_value_prefix.last(), Some(&0u8));
    }
    assert_eq!(queries[0].hash_value, b"00:fake:d19234:logs:app".to_vec());
    assert_eq!(queries[15].hash_value, b"15:fake:d19234:logs:app".to_vec());
}

#[test]
fn planner_hashes_the_value() {
    let buckets = get_buckets(b"fake", 0, 1);
    let a = calc_queries(1, &buckets, &kv("app", "nginx"));
    let b = calc_queries(1, &buckets, &kv("app", "httpd"));
    assert_eq!(a[0].range_value_prefix.len(), 44);
    assert_eq!(b[0].range_value_prefix.len(), 44);
    assert_ne!(a[0].range_value_prefix, b[0].range_value_prefix);
    assert_ne!(a[0].range_value_prefix[..5].to_vec(), b"nginx".to_vec());
    let mut expected = value_hash("httpd").into_bytes();
    expected.push(0);
    assert_eq!(b[0].range_value_prefix, expected);
}

#[test]
fn planner_fans_out_over_buckets_and_shards() {
    let buckets = get_buckets(b"t", 10 * DAY + 5, 12 * DAY + 7);
    assert_eq!(buckets.len(), 3);
    let queries = calc_queries(120, &buckets, &kv("a", "b"));
    assert_eq!(queries.len(), 360);
    assert_eq!(queries[0].hash_value, b"00:t:d10:logs:a".to_vec());
    assert_eq!(queries[9].hash_value, b"09:t:d10:logs:a".to_vec());
    assert_eq!(queries[10].hash_value, b"10:t:d10:logs:a".to_vec());
    assert_eq!(queries[119].hash_value, b"119:t:d10:logs:a".to_vec());
    assert_eq!(queries[120].hash_value, b"00:t:d11:logs:a".to_vec());
    assert_eq!(queries[120].table_name, b"index_11".to_vec());
    assert_eq!(queries[359].hash_value, b"119:t:d12:logs:a".to_vec());
    assert_eq!(calc_queries(0, &buckets, &kv("a", "b")).len(), 0);
    assert_eq!(calc_queries(4, &Vec::new(), &kv("a", "b")).len(), 0);
}

#[test]
fn buckets_of_one_day() {
    let buckets = get_buckets(b"fake", 19234 * DAY + 1000, 19234 * DAY + 5000);
    assert_eq!(buckets.len(), 1);
    assert_eq!(buckets[0].from, 1000);
    assert_eq!(buckets[0].through, 5000);
    assert_eq!(buckets[0].table_name, b"index_19234".to_vec());
    assert_eq!(buckets[0].hash_key, b"fake:d19234".to_vec());
    assert_eq!(buckets[0].bucket_size, 86_400_000);
    assert_eq!(DAY_MS, 86_400_000);
}

#[test]
fn buckets_are_contiguous_over_days() {
    let start = 100 * DAY + 7;
    let end = 103 * DAY + 9;
    let buckets = get_buckets(b"x", start, end);
    assert_eq!(buckets.len(), 4);
    assert_eq!(buckets[0].from, 7);
    assert_eq!(buckets[0].through, 86_400_000);
    assert_eq!(buckets[1].from, 0);
    assert_eq!(buckets[1].through, 86_400_000);
    assert_eq!(buckets[2].from, 0);
    assert_eq!(buckets[2].through, 86_400_000);
    assert_eq!(buckets[3].from, 0);
    assert_eq!(buckets[3].through, 9);
    assert_eq!(buckets[3].table_name, b"index_103".to_vec());
    for (i, b) in buckets.iter().enumerate() {
        let day = 100 + i as i64;
        let abs_from = day * DAY + b.from as i64;
        let abs_through = day * DAY + b.through as i64;
        if i == 0 {
            assert_eq!(abs_from, start);
        }
        if i + 1 < buckets.len() {
            let next = &buckets[i + 1];
            assert_eq!(abs_through, (day + 1) * DAY + next.from as i64);
        } else {
            assert_eq!(abs_through, end);
        }
    }
}

#[test]
fn buckets_at_day_boundaries() {
    let buckets = get_buckets(b"x", 5 * DAY, 6 * DAY);
    assert_eq!(buckets.len(), 2);
    assert_eq!((buckets[0].from, buckets[0].through), (0, 86_400_000));
    assert_eq!((buckets[1].from, buckets[1].through), (0, 0));
    let buckets = get_buckets(b"x", 6 * DAY - 1, 6 * DAY - 1);
    assert_eq!(buckets.len(), 1);
    assert_eq!((buckets[0].from, buckets[0].through), (86_399_999, 86_399_999));
    assert_eq!(get_buckets(b"x", 6 * DAY, 5 * DAY).len(), 0);
    assert_eq!(get_buckets(b"x", 5 * DAY + 10, 5 * DAY + 9).len(), 1);
}

#[test]
fn buckets_before_the_epoch() {
    assert_eq!(day_number(-1), -1);
    assert_eq!(day_number(-DAY), -1);
    assert_eq!(day_number(-DAY - 1), -2);
    assert_eq!(day_number(0), 0);
    assert_eq!(day_number(DAY - 1), 0);
    assert_eq!(day_number(DAY), 1);
    let buckets = get_buckets(b"t", -5, 5);
    assert_eq!(buckets.len(), 2);
    assert_eq!(buckets[0].table_name, b"index_-1".to_vec());
    assert_eq!(buckets[0].hash_key, b"t:d-1".to_vec());
    assert_eq!((buckets[0].from, buckets[0].through), (86_399_995, 86_400_000));
    assert_eq!((buckets[1].from, buckets[1].through), (0, 5));
}

#[test]
fn series_queries_carry_the_bucket_start() {
    let buckets = get_buckets(b"fake", 19234 * DAY + 0x1a2b, 19235 * DAY + 5);
    let queries = calc_queries_for_serires(&buckets, &ids(&["s1", "s2"]));
    assert_eq!(queries.len(), 4);
    assert_eq!(queries[0].hash_value, b"fake:d19234:s1".to_vec());
    assert_eq!(queries[1].hash_value, b"fake:d19234:s2".to_vec());
    assert_eq!(queries[2].hash_value, b"fake:d19235:s1".to_vec());
    assert_eq!(queries[3].hash_value, b"fake:d19235:s2".to_vec());
    assert_eq!(queries[0].range_value_start, b"00001a2b".to_vec());
    assert_eq!(queries[2].range_value_start, b"00000000".to_vec());
    assert_eq!(queries[0].table_name, b"index_19234".to_vec());
    for q in queries.iter() {
        assert_eq!(q.range_value_prefix, Vec::<u8>::new());
        assert_eq!(q.value_equal, Vec::<u8>::new());
    }
    assert_eq!(calc_queries_for_serires(&buckets, &Vec::new()).len(), 0);
}

#[test]
fn time_is_written_as_eight_hex_digits() {
    assert_eq!(encode_time(0), b"00000000".to_vec());
    assert_eq!(encode_time(1), b"00000001".to_vec());
    assert_eq!(encode_time(0xdeadbeef), b"deadbeef".to_vec());
    assert_eq!(encode_time(86_400_000), b"05265c00".to_vec());
    assert_eq!(encode_time(u32::MAX), b"ffffffff".to_vec());
    assert_eq!(encode_time(0x0a0b0c0d), b"0a0b0c0d".to_vec());
}

#[test]
fn numbers_in_decimal() {
    let mut out = b"d".to_vec();
    push_decimal(&mut out, 0);
    assert_eq!(out, b"d0".to_vec());
    push_decimal(&mut out, 19234);
    assert_eq!(out, b"d019234".to_vec());
    let mut out = Vec::new();
    push_decimal(&mut out, u64::MAX);
    assert_eq!(out, b"18446744073709551615".to_vec());
    let mut out = Vec::new();
    push_decimal_int(&mut out, -42);
    push_decimal_int(&mut out, 7);
    assert_eq!(out, b"-427".to_vec());
    let mut out = Vec::new();
    push_decimal_int(&mut out, i64::MIN);
    assert_eq!(out, b"-9223372036854775808".to_vec());
    let mut out = Vec::new();
    push_two_digits(&mut out, 0);
    push_two_digits(&mut out, 9);
    push_two_digits(&mut out, 10);
    push_two_digits(&mut out, 123);
    assert_eq!(out, b"000910123".to_vec());
    let mut out = b"ab".to_vec();
    push_bytes(&mut out, b"cd");
    assert_eq!(out, b"abcd".to_vec());
}

#[test]
fn hexadecimal_numbers() {
    assert_eq!(parse_hex(b"0", 10), Some(0));
    assert_eq!(parse_hex(b"1a2b3c", u64::MAX), Some(0x1a2b3c));
    assert_eq!(parse_hex(b"DeadBeef", u64::MAX), Some(0xdeadbeef));
    assert_eq!(parse_hex(b"ffffffffffffffff", u64::MAX), Some(u64::MAX));
    assert_eq!(parse_hex(b"0000000000000000000001", u64::MAX), Some(1));
    assert_eq!(parse_hex(b"10000000000000000", u64::MAX), None);
    assert_eq!(parse_hex(b"ff", 255), Some(255));
    assert_eq!(parse_hex(b"100", 255), None);
    assert_eq!(parse_hex(b"", u64::MAX), None);
    assert_eq!(parse_hex(b"12g", u64::MAX), None);
    assert_eq!(parse_hex(b"+1", u64::MAX), None);
    assert_eq!(parse_hex(b"-1", u64::MAX), None);
    assert_eq!(parse_hex(b"7fffffffffffffff", i64::MAX as u64), Some(i64::MAX as u64));
    assert_eq!(parse_hex(b"8000000000000000", i64::MAX as u64), None);
}

#[test]
fn byte_strings() {
    assert!(starts_with(b"abc", b""));
    assert!(starts_with(b"abc", b"ab"));
    assert!(starts_with(b"abc", b"abc"));
    assert!(!starts_with(b"abc", b"abcd"));
    assert!(!starts_with(b"abc", b"b"));
    assert!(bytes_eq(b"", b""));
    assert!(bytes_eq(b"ab", b"ab"));
    assert!(!bytes_eq(b"ab", b"abc"));
    assert!(!bytes_eq(b"ab", b"ac"));
    assert!(bytes_lt(b"", b"a"));
    assert!(bytes_lt(b"a", b"b"));
    assert!(bytes_lt(b"ab", b"abc"));
    assert!(bytes_lt(b"ab", b"b"));
    assert!(!bytes_lt(b"a", b"a"));
    assert!(!bytes_lt(b"b", b"a"));
    assert!(!bytes_lt(b"abc", b"ab"));
    assert!(!bytes_lt(b"", b""));
    assert!(bytes_lt(&[0x7f], &[0x80]));
}

#[test]
fn splitting_on_a_separator() {
    assert_eq!(split_bytes(b"", 0), vec![Vec::<u8>::new()]);
    assert_eq!(split_bytes(b"abc", b':'), vec![b"abc".to_vec()]);
    assert_eq!(split_bytes(b"a:b", b':'), vec![b"a".to_vec(), b"b".to_vec()]);
    assert_eq!(
        split_bytes(b":a::b:", b':'),
        vec![b"".to_vec(), b"a".to_vec(), b"".to_vec(), b"b".to_vec(), b"".to_vec()]
    );
}

#[test]
fn series_id_of_a_range_value() {
    assert_eq!(parse_chunk_time_range_value(b"h\0x\0sid\x003\0").unwrap(), b"sid".to_vec());
    assert_eq!(parse_chunk_time_range_value(b"t\0cid\0\x008\0").unwrap(), b"cid".to_vec());
    assert_eq!(parse_chunk_time_range_value(b"\0\0\x003\0").unwrap(), Vec::<u8>::new());
    assert!(matches!(
        parse_chunk_time_range_value(b"a\0b\0c\x003"),
        Err(IndexError::MalformedRangeValue)
    ));
    assert!(matches!(
        parse_chunk_time_range_value(b"a\0b\0c\x003\0\0"),
        Err(IndexError::MalformedRangeValue)
    ));
    assert!(matches!(parse_chunk_time_range_value(b""), Err(IndexError::MalformedRangeValue)));
    match parse_chunk_time_range_value(b"a\0b\0c\x007\0") {
        Err(IndexError::UnknownRangeValueKind(kind)) => assert_eq!(kind, b"7".to_vec()),
        other => panic!("unexpected: {:?}", other),
    }
    match parse_chunk_time_range_value(b"a\0b\0c\x0033\0") {
        Err(IndexError::UnknownRangeValueKind(kind)) => assert_eq!(kind, b"33".to_vec()),
        other => panic!("unexpected: {:?}", other),
    }
    match parse_chunk_time_range_value(b"a\0b\0c\0\0") {
        Err(IndexError::UnknownRangeValueKind(kind)) => assert_eq!(kind, Vec::<u8>::new()),
        other => panic!("unexpected: {:?}", other),
    }
}

#[test]
fn chunk_id_parsing() {
    let r = parse_chunk_ref(b"fake/1a2b3c:1900:1a00:deadbeef").unwrap();
    assert_eq!(r.user_id, b"fake".to_vec());
    assert_eq!(r.fingerprint, 0x1a2b3c);
    assert_eq!(r.from, 0x1900);
    assert_eq!(r.to, 0x1a00);
    assert_eq!(r.checksum, 0xdeadbeef);
    let r = parse_chunk_ref(b"/0:0:0:0").unwrap();
    assert_eq!(r.user_id, Vec::<u8>::new());
    let r = parse_chunk_ref(b"t/ffffffffffffffff:7fffffffffffffff:0:ffffffff:extra/more").unwrap();
    assert_eq!(r.fingerprint, u64::MAX);
    assert_eq!(r.from, i64::MAX);
    assert_eq!(r.checksum, u32::MAX);
}

#[test]
fn bad_chunk_ids() {
    for id in [
        &b"fake"[..],
        b"",
        b"fake/1:2:3",
        b"fake/1:2:3:",
        b"fake/1:2:3:x",
        b"fake/:2:3:4",
        b"fake/1:8000000000000000:3:4",
        b"fake/1:2:3:100000000",
        b"fake/10000000000000000:2:3:4",
        b"fake:1:2:3:4",
    ] {
        assert!(matches!(parse_chunk_ref(id), Err(IndexError::BadChunkId)), "{:?}", id);
    }
    assert!(matches!(
        parse_chunk_refs(&ids(&["fake/1:2:3:4", "nope"])),
        Err(IndexError::BadChunkId)
    ));
    assert_eq!(parse_chunk_refs(&ids(&["fake/1:2:3:4", "t/a:b:c:d"])).unwrap().len(), 2);
}

fn chunk(from: i64, to: i64) -> ChunkRef {
    ChunkRef { user_id: b"t".to_vec(), fingerprint: 1, from, to, checksum: 2 }
}

#[test]
fn chunk_filter_keeps_what_meets_the_range() {
    let refs = vec![
        chunk(0, 99),
        chunk(0, 100),
        chunk(150, 160),
        chunk(200, 300),
        chunk(201, 300),
        chunk(0, 1000),
        chunk(100, 100),
    ];
    let kept = filter_chunk_refs(refs.clone(), 100, 200);
    let spans: Vec<(i64, i64)> = kept.iter().map(|c| (c.from, c.to)).collect();
    assert_eq!(spans, vec![(0, 100), (150, 160), (200, 300), (0, 1000), (100, 100)]);
    for c in refs.iter() {
        let rejected = c.to < 100 || c.from > 200;
        assert_eq!(c.overlaps(100, 200), !rejected);
        assert_eq!(spans.contains(&(c.from, c.to)), !rejected);
    }
    assert_eq!(filter_chunk_refs(Vec::new(), 0, 1).len(), 0);
}

#[test]
fn filters_of_a_query() {
    let q = query(b"h", b"ab\0", b"", b"");
    assert!(passes_filters(&entry(b"ab\0rest", b"v"), &q));
    assert!(!passes_filters(&entry(b"ab", b"v"), &q));
    assert!(!passes_filters(&entry(b"xab\0", b"v"), &q));
    let q = query(b"h", b"", b"0005", b"");
    assert!(passes_filters(&entry(b"0005", b"v"), &q));
    assert!(passes_filters(&entry(b"0006", b"v"), &q));
    assert!(passes_filters(&entry(b"00050", b"v"), &q));
    assert!(!passes_filters(&entry(b"0004ffff", b"v"), &q));
    assert!(!passes_filters(&entry(b"", b"v"), &q));
    let q = query(b"h", b"", b"", b"nginx");
    assert!(passes_filters(&entry(b"r", b"nginx"), &q));
    assert!(!passes_filters(&entry(b"r", b"nginx2"), &q));
    assert!(!passes_filters(&entry(b"r", b""), &q));
    let q = query(b"h", b"", b"", b"");
    assert!(passes_filters(&entry(b"", b""), &q));
    let entries = vec![entry(b"0004", b"a"), entry(b"0005", b"b"), entry(b"0009", b"a")];
    let kept = filter_entries(&entries, &query(b"h", b"", b"0005", b"a"));
    assert_eq!(range_values(&kept), vec![b"0009".to_vec()]);
}

fn small_store() -> Vec<KvPair> {
    vec![
        pair(b"h", Some(b"v")),
        pair(b"h\0", Some(b"v")),
        pair(b"h\0aa\0one", Some(b"v")),
        pair(b"h\0aa\0two", Some(b"w")),
        pair(b"h\0aa\0three", None),
        pair(b"h\0ab\0four", Some(b"v")),
        pair(b"h2\0aa\0five", Some(b"v")),
        pair(b"i\0aa\0six", Some(b"v")),
    ]
}

#[test]
fn scans_retain_the_keys_under_the_hash_value() {
    let store = small_store();
    let all = do_broad_queries(&store, &vec![query(b"h", b"", b"", b"")]);
    assert_eq!(
        range_values(&all),
        vec![b"".to_vec(), b"aa\0one".to_vec(), b"aa\0two".to_vec(), b"ab\0four".to_vec()]
    );
    for e in all.iter() {
        assert_eq!(e.hash_value, b"h".to_vec());
        assert_eq!(e.table_name, b"index_1".to_vec());
    }
    assert_eq!(all[2].value, b"w".to_vec());
    let some = do_broad_queries(&store, &vec![query(b"h", b"aa\0", b"", b"v")]);
    assert_eq!(range_values(&some), vec![b"aa\0one".to_vec()]);
    let later = query_pages(&store, &vec![query(b"h", b"", b"aa\0p", b"")]);
    assert_eq!(range_values(&later), vec![b"aa\0two".to_vec(), b"ab\0four".to_vec()]);
    assert_eq!(do_broad_queries(&store, &Vec::new()).len(), 0);
    assert_eq!(query_pages(&Vec::new(), &vec![query(b"h", b"", b"", b"")]).len(), 0);
}

#[test]
fn both_strategies_give_the_same_entries() {
    let store = small_store();
    let queries = vec![
        query(b"h", b"aa\0", b"", b""),
        query(b"h", b"aa\0", b"", b"v"),
        query(b"h", b"", b"", b"w"),
        query(b"h", b"a", b"aa\0t", b""),
        query(b"h2", b"", b"", b""),
        query(b"", b"", b"", b""),
        query(b"zz", b"q", b"", b""),
    ];
    let broad = get_entries_from_queries(false, &store, &queries);
    let narrow = get_entries_from_queries(true, &store, &queries);
    let b: Vec<_> = broad.iter().map(|e| (e.hash_value.clone(), e.range_value.clone(), e.value.clone())).collect();
    let n: Vec<_> = narrow.iter().map(|e| (e.hash_value.clone(), e.range_value.clone(), e.value.clone())).collect();
    assert_eq!(b, n);
    assert_eq!(b.len(), 2 + 1 + 1 + 2 + 1 + 0 + 0);
    assert_eq!(range_values(&do_broad_queries(&store, &queries)), range_values(&broad));
    assert_eq!(range_values(&query_pages(&store, &queries)), range_values(&narrow));
}

#[test]
fn ids_of_entries_in_order() {
    let entries = vec![
        entry(b"h\0x\0s1\x003\0", b""),
        entry(b"h\0s2\0x\x008\0", b""),
        entry(b"h\0x\0s1\x003\0", b""),
    ];
    assert_eq!(ids_of_entries(&entries).unwrap(), ids(&["s1", "s2", "s1"]));
    assert_eq!(dedup_ids(&ids(&["s1", "s2", "s1", "s3", "s2"])), ids(&["s1", "s2", "s3"]));
    let bad = vec![entry(b"h\0x\0s1\x003\0", b""), entry(b"oops", b"")];
    assert!(matches!(ids_of_entries(&bad), Err(IndexError::MalformedRangeValue)));
    assert!(contains_id(&ids(&["a", "b"]), b"b"));
    assert!(!contains_id(&ids(&["a", "b"]), b"c"));
    assert!(!contains_id(&Vec::new(), b""));
}

#[test]
fn intersection_does_not_depend_on_the_order() {
    let a = ids(&["s1", "s2", "s3", "s4"]);
    let b = ids(&["s4", "s2", "s9"]);
    let c = ids(&["s2", "s4", "s3"]);
    assert_eq!(intersect(&a, &b), ids(&["s2", "s4"]));
    assert_eq!(intersect(&b, &a), ids(&["s4", "s2"]));
    assert_eq!(sorted(intersect(&a, &b)), sorted(intersect(&b, &a)));
    assert_eq!(
        sorted(intersect(&intersect(&a, &b), &c)),
        sorted(intersect(&a, &intersect(&b, &c)))
    );
    assert_eq!(intersect(&a, &Vec::new()).len(), 0);
    assert_eq!(intersect(&Vec::new(), &a).len(), 0);
}

#[test]
fn series_of_one_predicate() {
    let store = sample_index();
    let buckets = get_buckets(b"fake", 19234 * DAY, 19234 * DAY + 1000);
    let found = series_ids_for(&store, 16, &buckets, &kv("app", "nginx"), false).unwrap();
    assert_eq!(sorted(found), ids(&["series-a", "series-b"]));
    let found = series_ids_for(&store, 16, &buckets, &kv("app", "nginx"), true).unwrap();
    assert_eq!(sorted(found), ids(&["series-a", "series-b"]));
    // shard 3 is not looked at with three shards
    let found = series_ids_for(&store, 3, &buckets, &kv("app", "nginx"), false).unwrap();
    assert_eq!(found, ids(&["series-a"]));
    let found = series_ids_for(&store, 16, &buckets, &kv("app", "none"), false).unwrap();
    assert_eq!(found.len(), 0);
}

#[test]
fn series_that_meet_every_predicate() {
    let store = sample_index();
    let buckets = get_buckets(b"fake", 19234 * DAY, 19234 * DAY + 1000);
    let both = vec![kv("app", "nginx"), kv("env", "prod")];
    let swapped = vec![kv("env", "prod"), kv("app", "nginx")];
    assert_eq!(select_series(&store, 16, &buckets, &both, false).unwrap(), ids(&["series-b"]));
    assert_eq!(select_series(&store, 16, &buckets, &swapped, true).unwrap(), ids(&["series-b"]));
    assert_eq!(select_series(&store, 16, &buckets, &Vec::new(), false).unwrap().len(), 0);
    // an empty intersection stays empty, whatever comes after it
    let three = vec![kv("app", "httpd"), kv("app", "nginx"), kv("env", "prod")];
    assert_eq!(select_series(&store, 16, &buckets, &three, false).unwrap().len(), 0);
}

#[test]
fn chunks_of_a_series() {
    let store = sample_index();
    let buckets = get_buckets(b"fake", 19234 * DAY, 19234 * DAY + 1000);
    let d = 19234 * DAY;
    let refs = resolve_chunks(&store, &buckets, &ids(&["series-b"]), d + 0x100, d + 0x200);
    let refs = refs.unwrap();
    assert_eq!(refs.len(), 1);
    assert_eq!(refs[0].fingerprint, 0xb1);
    assert_eq!(refs[0].checksum, 2);
    assert_eq!(refs[0].user_id, b"fake".to_vec());
    let refs = resolve_chunks(&store, &buckets, &ids(&["series-b"]), 0, i64::MAX).unwrap();
    assert_eq!(refs.len(), 2);
    assert_eq!(refs[1].from, d + 0x300);
    assert_eq!(refs[1].to, d + 0x400);
    let refs = resolve_chunks(&store, &buckets, &ids(&["series-z"]), 0, i64::MAX).unwrap();
    assert_eq!(refs.len(), 0);
}

#[test]
fn inspection_end_to_end() {
    let store = sample_index();
    let d = 19234 * DAY;
    let preds = vec![kv("app", "nginx")];
    // the chunks of the day all begin after this range
    let broad = inspect(&store, b"fake", 16, &preds, d, d + 0xff, false).unwrap();
    let narrow = inspect(&store, b"fake", 16, &preds, d, d + 0xff, true).unwrap();
    assert_eq!(broad.len(), 0);
    assert_eq!(narrow.len(), 0);
    let all = inspect(&store, b"fake", 16, &preds, d + 0x200, d + 0x300, false).unwrap();
    let mut prints: Vec<u64> = all.iter().map(|c| c.fingerprint).collect();
    prints.sort();
    assert_eq!(prints, vec![0xa1, 0xb1, 0xb2]);
    let early = inspect(&store, b"fake", 16, &preds, d + 0x1, d + 0x2ff, true).unwrap();
    let mut prints: Vec<u64> = early.iter().map(|c| c.fingerprint).collect();
    prints.sort();
    assert_eq!(prints, vec![0xa1, 0xb1]);
    // chunks that ended before the range began within the day are not looked at
    let late = inspect(&store, b"fake", 16, &preds, d + 0x201, d + 0x300, false).unwrap();
    let prints: Vec<u64> = late.iter().map(|c| c.fingerprint).collect();
    assert_eq!(prints, vec![0xb2]);
    let other_tenant = inspect(&store, b"other", 16, &preds, d + 0x200, d + 0x300, false);
    assert_eq!(other_tenant.unwrap().len(), 0);
    let other_day = inspect(&store, b"fake", 16, &preds, d - 0x300, d - 0x200, false);
    assert_eq!(other_day.unwrap().len(), 0);
    let both = vec![kv("app", "nginx"), kv("env", "prod")];
    let found = inspect(&store, b"fake", 16, &both, d + 0x200, d + 0x300, true).unwrap();
    let mut prints: Vec<u64> = found.iter().map(|c| c.fingerprint).collect();
    prints.sort();
    assert_eq!(prints, vec![0xb1, 0xb2]);
    let none = inspect(&store, b"fake", 16, &Vec::new(), d + 0x200, d + 0x300, true).unwrap();
    assert_eq!(none.len(), 0);
}

#[test]
fn inspection_stops_at_a_malformed_entry() {
    let mut store = sample_index();
    let mut key = b"00:fake:d19234:logs:app".to_vec();
    key.push(0);
    key.extend_from_slice(value_hash("nginx").as_bytes());
    key.push(0);
    key.extend_from_slice(b"only-two");
    store.push(pair(&key, Some(b"nginx")));
    let preds = vec![kv("app", "nginx")];
    let r = inspect(&store, b"fake", 16, &preds, 19234 * DAY, 19234 * DAY + 5, false);
    assert!(matches!(r, Err(IndexError::MalformedRangeValue)));
}

#[test]
fn predicates_are_split_at_the_first_equals_sign() {
    let p = KeyValue::from_str("app=nginx").unwrap();
    assert_eq!(p.key, "app");
    assert_eq!(p.value, "nginx");
    let p = KeyValue::from_str("a=b=c").unwrap();
    assert_eq!(p.key, "a");
    assert_eq!(p.value, "b=c");
    let p = KeyValue::from_str("=").unwrap();
    assert_eq!((p.key.as_str(), p.value.as_str()), ("", ""));
    let p = KeyValue::from_str("k\u{e9}y=v\u{e4}l").unwrap();
    assert_eq!((p.key.as_str(), p.value.as_str()), ("k\u{e9}y", "v\u{e4}l"));
    assert_eq!(KeyValue::from_str("nothing").err(), Some(BadPredicateSyntax));
    assert_eq!(KeyValue::from_str("").err(), Some(BadPredicateSyntax));
}

#[test]
fn buckets_are_plain_values() {
    let b = DayBucket {
        from: 1,
        through: 2,
        table_name: b"index_0".to_vec(),
        hash_key: b"t:d0".to_vec(),
        bucket_size: DAY_MS,
    };
    let queries = calc_queries_for_serires(&vec![b.clone()], &ids(&["s"]));
    assert_eq!(queries[0].hash_value, b"t:d0:s".to_vec());
    assert_eq!(queries[0].range_value_start, b"00000001".to_vec());
}

#[test]
fn planner_with_a_given_prefix() {
    let buckets = get_buckets(b"fake", 19234 * DAY, 19235 * DAY + 1);
    let queries = plan_label_queries(2, &buckets, b"app", b"nginx", b"HASH\0");
    let hashes: Vec<Vec<u8>> = queries.iter().map(|q| q.hash_value.clone()).collect();
    assert_eq!(
        hashes,
        vec![
            b"00:fake:d19234:logs:app".to_vec(),
            b"01:fake:d19234:logs:app".to_vec(),
            b"00:fake:d19235:logs:app".to_vec(),
            b"01:fake:d19235:logs:app".to_vec(),
        ]
    );
    for q in queries.iter() {
        assert_eq!(q.range_value_prefix, b"HASH\0".to_vec());
        assert_eq!(q.value_equal, b"nginx".to_vec());
        assert_eq!(q.range_value_start, Vec::<u8>::new());
    }
    assert_eq!(queries[0].table_name, b"index_19234".to_vec());
    assert_eq!(queries[3].table_name, b"index_19235".to_vec());
}

#[test]
fn hexadecimal_numbers_with_signs() {
    assert_eq!(parse_unsigned_hex(b"1a", u64::MAX), Some(0x1a));
    assert_eq!(parse_unsigned_hex(b"+1a", u64::MAX), Some(0x1a));
    assert_eq!(parse_unsigned_hex(b"-1a", u64::MAX), None);
    assert_eq!(parse_unsigned_hex(b"+", u64::MAX), None);
    assert_eq!(parse_unsigned_hex(b"++1", u64::MAX), None);
    assert_eq!(parse_unsigned_hex(b"", u64::MAX), None);
    assert_eq!(parse_unsigned_hex(b"+100", 255), None);
    assert_eq!(parse_signed_hex(b"10"), Some(16));
    assert_eq!(parse_signed_hex(b"+10"), Some(16));
    assert_eq!(parse_signed_hex(b"-10"), Some(-16));
    assert_eq!(parse_signed_hex(b"-0"), Some(0));
    assert_eq!(parse_signed_hex(b"7fffffffffffffff"), Some(i64::MAX));
    assert_eq!(parse_signed_hex(b"8000000000000000"), None);
    assert_eq!(parse_signed_hex(b"-8000000000000000"), Some(i64::MIN));
    assert_eq!(parse_signed_hex(b"-8000000000000001"), None);
    assert_eq!(parse_signed_hex(b"-"), None);
    assert_eq!(parse_signed_hex(b"+-1"), None);
    assert_eq!(parse_signed_hex(b"-+1"), None);
    assert_eq!(parse_signed_hex(b""), None);
    assert_eq!(copy_bytes(&b"abc".to_vec()), b"abc".to_vec());
}

#[test]
fn chunk_ids_with_signs() {
    let r = parse_chunk_ref(b"t/+1a:-10:+20:+ff").unwrap();
    assert_eq!((r.fingerprint, r.from, r.to, r.checksum), (0x1a, -16, 32, 255));
    let r = parse_chunk_ref(b"t/1:-8000000000000000:3:4").unwrap();
    assert_eq!(r.from, i64::MIN);
    for id in [
        &b"t/-1:2:3:4"[..],
        b"t/1:2:3:-4",
        b"t/1:-8000000000000001:3:4",
        b"t/1:+-2:3:4",
        b"t/1:+:3:4",
        b"t/1:2:-:4",
    ] {
        assert!(matches!(parse_chunk_ref(id), Err(IndexError::BadChunkId)), "{:?}", id);
    }
}

#[test]
fn predicates_parse_from_text() {
    let p: KeyValue = "app=nginx".parse().unwrap();
    assert_eq!((p.key.as_str(), p.value.as_str()), ("app", "nginx"));
    assert_eq!("app".parse::<KeyValue>().err(), Some(BadPredicateSyntax));
}
