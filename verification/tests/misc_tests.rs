use loki_inspect::common::{
    append_decimal, append_decimal_int, blue, gray, green, paint, red, request_headers,
    stream_label, true_color, yellow, HttpOpts, KeyValue,
};
use loki_inspect::decode::{decode_chunk, Decode};
use loki_inspect::codec::ChunkError;
use loki_inspect::push::{find_label, merge_labels, mk_req, Push};
use loki_inspect::query::{InvalidChoice, QueryDirection};
use loki_inspect::resolve::IndexError;
use loki_inspect::store::{inspect_bucket, read_pairs};
use loki_inspect::timerange::{
    get_duration, get_duration_helper, range_or_past_hour, time_range_at, BadTimeRange,
    TimeRangeOpts,
};

fn kv(key: &str, value: &str) -> KeyValue {
    KeyValue { key: key.to_string(), value: value.to_string() }
}

fn push_of(labels: Vec<KeyValue>, content: &str) -> Push {
    Push {
        labels,
        headers: Vec::new(),
        basic_auth: None,
        content: content.to_string(),
        tenant: None,
        endpoint: "http://127.0.0.1:3100".to_string(),
    }
}

#[test]
fn paint_wraps_in_escape_sequences() {
    assert_eq!(paint("hi", 255, 0, 0, true), "\x1b[38;2;255;0;0;1mhi\x1b[0m");
    assert_eq!(paint("hi", 100, 100, 255, true), "\x1b[38;2;100;100;255;1mhi\x1b[0m");
    assert_eq!(paint("", 1, 20, 9, true), "\x1b[38;2;1;20;9;1m\x1b[0m");
    assert_eq!(paint("hi", 255, 0, 0, false), "hi");
    assert_eq!(paint("", 255, 0, 0, false), "");
}

#[test]
fn colours_leave_the_text_or_wrap_it() {
    let cases: Vec<(String, (u8, u8, u8))> = vec![
        (red("x"), (255, 0, 0)),
        (green("x"), (0, 255, 0)),
        (blue("x"), (100, 100, 255)),
        (yellow("x"), (255, 255, 0)),
        (gray("x"), (128, 128, 128)),
        (true_color("x", 1, 2, 3), (1, 2, 3)),
    ];
    for (out, (r, g, b)) in cases {
        let wrapped = format!("\x1b[38;2;{};{};{};1mx\x1b[0m", r, g, b);
        assert!(out == "x" || out == wrapped, "{:?}", out);
    }
}

#[test]
fn decimal_texts() {
    let mut s = String::new();
    append_decimal(&mut s, 0);
    append_decimal(&mut s, 907);
    assert_eq!(s, "0907");
    let mut s = String::from("t=");
    append_decimal_int(&mut s, -1);
    append_decimal_int(&mut s, i64::MIN);
    append_decimal_int(&mut s, i64::MAX);
    assert_eq!(s, "t=-1-92233720368547758089223372036854775807");
}

#[test]
fn push_request_with_default_label() {
    let req = mk_req(&push_of(Vec::new(), "hello"), 1_661_946_709_000_000_000);
    assert_eq!(req.streams.len(), 1);
    let stream = &req.streams[0];
    assert_eq!(stream.stream.len(), 1);
    assert_eq!(stream.stream[0].key, "prog");
    assert_eq!(stream.stream[0].value, "lf");
    assert_eq!(
        stream.values,
        vec![("1661946709000000000".to_string(), "hello".to_string())]
    );
}

#[test]
fn push_request_with_given_labels() {
    let req = mk_req(&push_of(vec![kv("a", "1"), kv("b", "2")], "line"), -5);
    let stream = &req.streams[0];
    let labels: Vec<(&str, &str)> =
        stream.stream.iter().map(|l| (l.key.as_str(), l.value.as_str())).collect();
    assert_eq!(labels, vec![("a", "1"), ("b", "2")]);
    assert_eq!(stream.values, vec![("-5".to_string(), "line".to_string())]);
}

#[test]
fn request_headers_end_with_the_tenant() {
    let opts = HttpOpts {
        headers: vec![kv("X-A", "1"), kv("X-B", "2")],
        basic_auth: Some(kv("user", "secret")),
        tenant: Some("fake".to_string()),
        endpoint: "http://127.0.0.1:3100".to_string(),
    };
    let hs = request_headers(&opts.headers, &opts.tenant);
    let hs: Vec<(&str, &str)> = hs.iter().map(|h| (h.key.as_str(), h.value.as_str())).collect();
    assert_eq!(hs, vec![("X-A", "1"), ("X-B", "2"), ("X-Scope-OrgID", "fake")]);
    let hs = request_headers(&opts.headers, &None);
    assert_eq!(hs.len(), 2);
    assert_eq!(request_headers(&Vec::new(), &None).len(), 0);
}

#[test]
fn time_range_from_start_and_end() {
    assert_eq!(time_range_at(Some(10), Some(20), None, None, 99), Ok((10, 20)));
    assert_eq!(time_range_at(Some(20), Some(10), None, None, 99), Ok((20, 10)));
    assert_eq!(get_duration_helper(Some(10), Some(20), None, None), Ok((10, 20)));
    let opts = TimeRangeOpts { start: Some(1), end: Some(2), since: None, duration: None };
    assert_eq!(get_duration(&opts), Ok((1, 2)));
    assert_eq!(range_or_past_hour(&opts, 7_200_000), (1, 2));
}

#[test]
fn time_range_from_a_duration() {
    assert_eq!(time_range_at(Some(10), None, Some(5), None, 99), Ok((10, 15)));
    assert_eq!(time_range_at(None, Some(10), Some(5), None, 99), Ok((5, 10)));
    assert_eq!(time_range_at(None, Some(3), Some(5), None, 99), Ok((-2, 3)));
    assert_eq!(
        time_range_at(Some(10), Some(20), Some(5), None, 99),
        Err(BadTimeRange::DurationWithBoth)
    );
    assert_eq!(
        time_range_at(None, None, Some(5), None, 99),
        Err(BadTimeRange::DurationWithNeither)
    );
    assert_eq!(
        time_range_at(Some(i64::MAX), None, Some(1), None, 99),
        Err(BadTimeRange::OutOfRange)
    );
    assert_eq!(
        time_range_at(None, Some(i64::MIN), Some(1), None, 99),
        Err(BadTimeRange::OutOfRange)
    );
    assert_eq!(
        time_range_at(Some(0), None, Some(u64::MAX), None, 99),
        Err(BadTimeRange::OutOfRange)
    );
    assert_eq!(
        time_range_at(Some(-1), None, Some(i64::MAX as u64 + 1), None, 99),
        Ok((-1, i64::MAX))
    );
}

#[test]
fn time_range_since() {
    assert_eq!(time_range_at(None, None, None, Some(40), 100), Ok((60, 100)));
    assert_eq!(time_range_at(None, None, None, Some(0), 100), Ok((100, 100)));
    assert_eq!(
        time_range_at(None, None, None, Some(u64::MAX), 100),
        Err(BadTimeRange::OutOfRange)
    );
    for (s, e, d) in [(Some(1), None, None), (None, Some(1), None), (None, None, Some(1u64))] {
        assert_eq!(time_range_at(s, e, d, Some(40), 100), Err(BadTimeRange::SinceWithOthers));
        assert_eq!(get_duration_helper(s, e, d, Some(40)), Err(BadTimeRange::SinceWithOthers));
    }
    let (start, end) = get_duration_helper(None, None, None, Some(60_000)).unwrap();
    assert_eq!(end - start, 60_000);
    assert!(end > 1_600_000_000_000);
}

#[test]
fn time_range_that_is_not_given() {
    for (s, e) in [(None, None), (Some(1), None), (None, Some(1))] {
        assert_eq!(
            time_range_at(s, e, None, None, 99),
            Err(BadTimeRange::StartAndEndExpected)
        );
    }
    let opts = TimeRangeOpts { start: None, end: None, since: None, duration: None };
    assert_eq!(get_duration(&opts), Err(BadTimeRange::StartAndEndExpected));
    assert_eq!(range_or_past_hour(&opts, 7_200_000), (3_600_000, 7_200_000));
    let opts = TimeRangeOpts { start: None, end: None, since: Some(1000), duration: None };
    assert_eq!(range_or_past_hour(&opts, 7_200_000), (7_199_000, 7_200_000));
}

#[test]
fn decode_command() {
    let d = Decode { input: "in.bin".to_string(), output: "out.json".to_string(), compact: true };
    assert!(d.compact);
    assert_eq!(decode_chunk(&[]).err(), Some(ChunkError::ShortRead));
    assert_eq!(decode_chunk(&[0, 0, 0, 2]).err(), Some(ChunkError::BadHeader));
}

fn series_key(shard: u32, series: &str) -> Vec<u8> {
    let digest = ring::digest::digest(&ring::digest::SHA256, b"nginx");
    let hash = base64::encode_config(digest, base64::STANDARD_NO_PAD);
    let mut key = format!("{:02}:fake:d19234:logs:app", shard).into_bytes();
    key.push(0);
    key.extend_from_slice(hash.as_bytes());
    key.push(0);
    key.push(0);
    key.extend_from_slice(series.as_bytes());
    key.push(0);
    key.extend_from_slice(b"3");
    key.push(0);
    key
}

fn chunk_key(series: &str, chunk_id: &str) -> Vec<u8> {
    let mut key = format!("fake:d19234:{}", series).into_bytes();
    key.push(0);
    key.extend_from_slice(b"00000000");
    key.push(0);
    key.extend_from_slice(chunk_id.as_bytes());
    key.push(0);
    key.push(0);
    key.extend_from_slice(b"8");
    key.push(0);
    key
}

#[test]
fn inspection_of_a_database_file() {
    let day_start: i64 = 19234 * 86_400_000;
    let chunk_id = format!("fake/1a2b3c:{:x}:{:x}:deadbeef", day_start + 16, day_start + 32);
    let path = "/tmp/loki_inspect_store_test.db";
    {
        let mut db = nut::DBBuilder::new(path).build().unwrap();
        let mut tx = db.begin_rw_tx().unwrap();
        {
            let mut index = tx.create_bucket_if_not_exists(b"index").unwrap();
            index.put(&series_key(7, "s1"), b"nginx".to_vec()).unwrap();
            index.put(&chunk_key("s1", &chunk_id), b"-".to_vec()).unwrap();
            index.put(b"zzz", b"unrelated".to_vec()).unwrap();
        }
        tx.commit().unwrap();
    }
    let db = nut::DBBuilder::new(path).read_only(true).build().unwrap();
    let tx = db.begin_tx().unwrap();
    let bucket = tx.bucket(b"index").unwrap();
    let pairs = read_pairs(&bucket).unwrap();
    assert_eq!(pairs.len(), 3);
    assert_eq!(pairs[0].key, series_key(7, "s1"));
    assert_eq!(pairs[0].value, Some(b"nginx".to_vec()));
    assert_eq!(pairs[2].key, b"zzz".to_vec());
    let preds = vec![kv("app", "nginx")];
    let refs = inspect_bucket(&bucket, b"fake", 16, &preds, day_start, day_start + 20, false);
    let refs = refs.unwrap();
    assert_eq!(refs.len(), 1);
    assert_eq!(refs[0].user_id, b"fake".to_vec());
    assert_eq!(refs[0].fingerprint, 0x1a2b3c);
    assert_eq!(refs[0].from, day_start + 16);
    assert_eq!(refs[0].to, day_start + 32);
    assert_eq!(refs[0].checksum, 0xdeadbeef);
    let late = inspect_bucket(&bucket, b"fake", 16, &preds, day_start + 33, day_start + 40, true);
    assert_eq!(late.unwrap().len(), 0);
    let few_shards = inspect_bucket(&bucket, b"fake", 4, &preds, day_start, day_start + 20, false);
    assert_eq!(few_shards.unwrap().len(), 0);
    let other = vec![kv("app", "httpd")];
    let none = inspect_bucket(&bucket, b"fake", 16, &other, day_start, day_start + 20, false);
    assert!(matches!(none, Ok(ref v) if v.is_empty()));
    assert!(!matches!(none, Err(IndexError::Io)));
}

#[test]
fn stream_labels_on_one_line() {
    assert_eq!(stream_label(&Vec::new()), "");
    assert_eq!(stream_label(&vec![kv("app", "nginx")]), "app = nginx");
    assert_eq!(
        stream_label(&vec![kv("app", "nginx"), kv("env", "prod"), kv("x", "")]),
        "app = nginx, env = prod, x = "
    );
}

#[test]
fn labels_given_twice_keep_the_last_value() {
    let labels = vec![kv("a", "1"), kv("b", "2"), kv("a", "3"), kv("c", ""), kv("b", "4")];
    let merged = merge_labels(&labels);
    let got: Vec<(&str, &str)> =
        merged.iter().map(|l| (l.key.as_str(), l.value.as_str())).collect();
    assert_eq!(got, vec![("a", "3"), ("b", "4"), ("c", "")]);
    assert_eq!(merge_labels(&Vec::new()).len(), 0);
    assert_eq!(find_label(&labels, &"b".to_string()), Some(1));
    assert_eq!(find_label(&labels, &"a".to_string()), Some(0));
    assert_eq!(find_label(&labels, &"z".to_string()), None);
    let req = mk_req(&push_of(labels, "line"), 0);
    let stream = &req.streams[0];
    let got: Vec<(&str, &str)> =
        stream.stream.iter().map(|l| (l.key.as_str(), l.value.as_str())).collect();
    assert_eq!(got, vec![("a", "3"), ("b", "4"), ("c", "")]);
    assert_eq!(stream.values, vec![("0".to_string(), "line".to_string())]);
}

#[test]
fn query_directions() {
    assert_eq!(QueryDirection::from_str("backward"), Ok(QueryDirection::Backward));
    assert_eq!(QueryDirection::from_str("forward"), Ok(QueryDirection::Forward));
    assert_eq!(QueryDirection::from_str("Forward"), Err(InvalidChoice));
    assert_eq!(QueryDirection::from_str(""), Err(InvalidChoice));
    assert_eq!(QueryDirection::from_str("backwards"), Err(InvalidChoice));
    assert_eq!(QueryDirection::Forward.name(), "forward");
    assert_eq!(QueryDirection::Backward.name(), "backward");
}

#[test]
fn closed_transaction_is_an_io_error() {
    let path = "/tmp/loki_inspect_closed_tx_test.db";
    {
        let mut db = nut::DBBuilder::new(path).build().unwrap();
        let mut tx = db.begin_rw_tx().unwrap();
        {
            let mut index = tx.create_bucket_if_not_exists(b"index").unwrap();
            index.put(b"k", b"v".to_vec()).unwrap();
        }
        tx.commit().unwrap();
    }
    let db = nut::DBBuilder::new(path).read_only(true).build().unwrap();
    let tx = db.begin_tx().unwrap();
    let bucket = tx.bucket(b"index").unwrap();
    assert_eq!(read_pairs(&bucket).unwrap().len(), 1);
    let _ = tx.rollback();
    assert!(matches!(read_pairs(&bucket), Err(IndexError::Io)));
    let preds = vec![kv("app", "nginx")];
    let r = inspect_bucket(&bucket, b"fake", 16, &preds, 0, 1, false);
    assert!(matches!(r, Err(IndexError::Io)));
}
