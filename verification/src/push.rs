//! The request that pushes one log line to the log store.

use crate::common::{append_decimal_int, decimal_int_text, KeyValue};
use vstd::prelude::*;

verus! {

/// The options of the push command.
#[derive(Debug, Clone)]
pub struct Push {
    /// Labels of the stream; `prog=lf` where none is given.
    pub labels: Vec<KeyValue>,
    /// Headers to send.
    pub headers: Vec<KeyValue>,
    /// User name and password.
    pub basic_auth: Option<KeyValue>,
    /// The line to push.
    pub content: String,
    /// Tenant id.
    pub tenant: Option<String>,
    /// Where the log store listens.
    pub endpoint: String,
}

/// One stream of a push request: its labels, no name twice, and its lines,
/// each with its timestamp in decimal nanoseconds.
#[derive(Debug, Clone)]
pub struct Stream {
    pub stream: Vec<KeyValue>,
    pub values: Vec<(String, String)>,
}

/// The body of a push request.
#[derive(Debug, Clone)]
pub struct PushRequest {
    pub streams: Vec<Stream>,
}

/// A label as a pair of texts.
pub type LabelView = (Seq<char>, Seq<char>);

/// The labels as pairs of texts.
pub open spec fn labels_view(labels: Seq<KeyValue>) -> Seq<LabelView> {
    Seq::new(labels.len(), |i: int| (labels[i].key@, labels[i].value@))
}

/// Where the label named `name` stands in `labels`, if it is there.
pub open spec fn label_index(labels: Seq<LabelView>, name: Seq<char>) -> Option<int>
    decreases labels.len(),
{
    if labels.len() == 0 {
        None
    } else {
        match label_index(labels.drop_last(), name) {
            Some(j) => Some(j),
            None => if labels.last().0 == name {
                Some(labels.len() - 1)
            } else {
                None
            },
        }
    }
}

/// The labels as a map from names to values holds them: each name once, at
/// the place where it first occurs, with the value that was given last.
pub open spec fn merged(labels: Seq<LabelView>) -> Seq<LabelView>
    decreases labels.len(),
{
    if labels.len() == 0 {
        Seq::empty()
    } else {
        let before = merged(labels.drop_last());
        match label_index(before, labels.last().0) {
            Some(j) => before.update(j, labels.last()),
            None => before.push(labels.last()),
        }
    }
}

/// Whether no name occurs twice.
pub open spec fn distinct_names(labels: Seq<LabelView>) -> bool {
    forall|i: int, j: int| 0 <= i < j < labels.len() ==> labels[i].0 != labels[j].0
}

/// The labels of the stream that a push goes to: those given, merged, or
/// `prog=lf` where none is given.
pub open spec fn stream_labels(labels: Seq<KeyValue>) -> Seq<LabelView> {
    if labels.len() == 0 {
        seq![("prog"@, "lf"@)]
    } else {
        merged(labels_view(labels))
    }
}

/// An index that is found is in range and names a label of that name; where
/// none is found, no label has the name.
pub proof fn lemma_label_index(labels: Seq<LabelView>, name: Seq<char>)
    ensures
        match label_index(labels, name) {
            Some(j) => 0 <= j < labels.len() && labels[j].0 == name,
            None => forall|i: int| 0 <= i < labels.len() ==> (#[trigger] labels[i]).0 != name,
        },
    decreases labels.len(),
{
    if labels.len() > 0 {
        lemma_label_index(labels.drop_last(), name);
        if label_index(labels.drop_last(), name) is None {
            assert forall|i: int| 0 <= i < labels.len() - 1 implies (#[trigger] labels[i]).0
                != name by {
                assert(labels.drop_last()[i] == labels[i]);
            }
        } else {
            let j = label_index(labels.drop_last(), name)->Some_0;
            assert(labels.drop_last()[j] == labels[j]);
        }
    }
}

/// Merged labels hold no name twice, hold every name that was given, and no
/// other.
pub proof fn lemma_merged(labels: Seq<LabelView>)
    ensures
        distinct_names(merged(labels)),
        forall|i: int|
            0 <= i < labels.len() ==> label_index(merged(labels), (#[trigger] labels[i]).0)
                is Some,
        forall|j: int|
            0 <= j < merged(labels).len() ==> label_index(labels, (#[trigger] merged(labels)[j]).0)
                is Some,
    decreases labels.len(),
{
    if labels.len() > 0 {
        let rest = labels.drop_last();
        let last = labels.last();
        let before = merged(rest);
        lemma_merged(rest);
        lemma_label_index(before, last.0);
        let after = merged(labels);
        assert forall|i: int| 0 <= i < labels.len() implies label_index(
            after,
            (#[trigger] labels[i]).0,
        ) is Some by {
            lemma_label_index(after, labels[i].0);
            if i < labels.len() - 1 {
                assert(rest[i] == labels[i]);
                lemma_label_index(before, labels[i].0);
                let j = label_index(before, labels[i].0)->Some_0;
                assert(after[j].0 == labels[i].0);
            } else {
                match label_index(before, last.0) {
                    Some(j) => {
                        assert(after[j].0 == last.0);
                    },
                    None => {
                        assert(after[before.len() as int].0 == last.0);
                    },
                }
            }
        }
        assert forall|j: int| 0 <= j < after.len() implies label_index(
            labels,
            (#[trigger] after[j]).0,
        ) is Some by {
            lemma_label_index(labels, after[j].0);
            if j < before.len() && before[j].0 == after[j].0 {
                lemma_label_index(rest, before[j].0);
                let i = label_index(rest, before[j].0)->Some_0;
                assert(labels[i] == rest[i]);
            } else {
                assert(labels[labels.len() - 1].0 == after[j].0);
            }
        }
    }
}

/// Finds the label named `name`.
pub fn find_label(labels: &Vec<KeyValue>, name: &String) -> (r: Option<usize>)
    ensures
        match r {
            Some(j) => label_index(labels_view(labels@), name@) == Some(j as int) && j
                < labels@.len(),
            None => label_index(labels_view(labels@), name@) is None,
        },
{
    let ghost all = labels_view(labels@);
    let mut i: usize = 0;
    assert(all.take(0) =~= Seq::empty());
    while i < labels.len()
        invariant
            i <= labels@.len(),
            all == labels_view(labels@),
            label_index(all.take(i as int), name@) is None,
        decreases labels@.len() - i,
    {
        assert(all.take(i as int + 1).drop_last() =~= all.take(i as int));
        assert(all.take(i as int + 1).last() == all[i as int]);
        if labels[i].key == *name {
            proof {
                lemma_label_index_stays(all, name@, i as int + 1, all.len() as int);
                assert(all.take(all.len() as int) =~= all);
            }
            return Some(i);
        }
        i = i + 1;
    }
    assert(all.take(i as int) =~= all);
    None
}

/// An index that is found among the first `k` labels is the index that is
/// found among more of them.
pub proof fn lemma_label_index_stays(labels: Seq<LabelView>, name: Seq<char>, k: int, n: int)
    requires
        0 <= k <= n <= labels.len(),
        label_index(labels.take(k), name) is Some,
    ensures
        label_index(labels.take(n), name) == label_index(labels.take(k), name),
    decreases n - k,
{
    if k < n {
        lemma_label_index_stays(labels, name, k, n - 1);
        assert(labels.take(n).drop_last() =~= labels.take(n - 1));
    }
}

/// Merges labels as a map from names to values would: each name once, at the
/// place where it first occurs, with the value that was given last.
pub fn merge_labels(labels: &Vec<KeyValue>) -> (r: Vec<KeyValue>)
    ensures
        labels_view(r@) == merged(labels_view(labels@)),
        distinct_names(labels_view(r@)),
{
    let ghost all = labels_view(labels@);
    let mut out: Vec<KeyValue> = Vec::new();
    let mut i: usize = 0;
    assert(all.take(0) =~= Seq::empty());
    assert(labels_view(out@) =~= Seq::empty());
    while i < labels.len()
        invariant
            i <= labels@.len(),
            all == labels_view(labels@),
            labels_view(out@) == merged(all.take(i as int)),
        decreases labels@.len() - i,
    {
        assert(all.take(i as int + 1).drop_last() =~= all.take(i as int));
        assert(all.take(i as int + 1).last() == all[i as int]);
        let ghost before = labels_view(out@);
        let label = KeyValue { key: labels[i].key.clone(), value: labels[i].value.clone() };
        assert((label.key@, label.value@) == all[i as int]);
        match find_label(&out, &labels[i].key) {
            Some(j) => {
                out.set(j, label);
                assert(labels_view(out@) =~= before.update(j as int, all[i as int]));
            },
            None => {
                out.push(label);
                assert(labels_view(out@) =~= before.push(all[i as int]));
            },
        }
        i = i + 1;
    }
    assert(all.take(i as int) =~= all);
    proof {
        lemma_merged(all);
    }
    out
}

/// Builds the request that pushes the content of `push` with the timestamp
/// `ts`, in nanoseconds since the Unix epoch: one stream with one line.
pub fn mk_req(push: &Push, ts: i64) -> (r: PushRequest)
    ensures
        r.streams@.len() == 1,
        labels_view(r.streams@[0].stream@) == stream_labels(push.labels@),
        distinct_names(labels_view(r.streams@[0].stream@)),
        r.streams@[0].values@.len() == 1,
        r.streams@[0].values@[0].0@ == decimal_int_text(ts as int),
        r.streams@[0].values@[0].1@ == push.content@,
{
    let mut stream: Vec<KeyValue> = Vec::new();
    if push.labels.len() == 0 {
        stream.push(KeyValue { key: "prog".to_owned(), value: "lf".to_owned() });
        assert(labels_view(stream@) =~= stream_labels(push.labels@));
    } else {
        stream = merge_labels(&push.labels);
    }
    let mut stamp = String::new();
    append_decimal_int(&mut stamp, ts);
    assert(stamp@ =~= decimal_int_text(ts as int));
    let mut values: Vec<(String, String)> = Vec::new();
    values.push((stamp, push.content.clone()));
    let mut streams: Vec<Stream> = Vec::new();
    streams.push(Stream { stream, values });
    PushRequest { streams }
}

} // verus!
