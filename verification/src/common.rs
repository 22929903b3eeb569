//! Values shared by the commands: a `key=value` pair and the colours of the
//! terminal output.

use vstd::prelude::*;
use vstd::utf8::encode_utf8;

verus! {

/// A pair written `key=value`: a label predicate, a header, or a user name
/// with its password.
#[derive(Debug, Clone)]
pub struct KeyValue {
    pub key: String,
    pub value: String,
}

/// How the log store is reached.
#[derive(Debug, Clone)]
pub struct HttpOpts {
    /// Headers to send.
    pub headers: Vec<KeyValue>,
    /// User name and password.
    pub basic_auth: Option<KeyValue>,
    /// Tenant id.
    pub tenant: Option<String>,
    /// Where the log store listens.
    pub endpoint: String,
}

impl HttpOpts {
    /// The headers to put on a request made with these options.
    pub fn request_headers(&self) -> (r: Vec<KeyValue>)
        ensures
            headers_view(r@) == spec_request_headers(self.headers@, self.tenant),
    {
        request_headers(&self.headers, &self.tenant)
    }
}

/// A list of pairs as pairs of texts.
pub open spec fn headers_view(headers: Seq<KeyValue>) -> Seq<(Seq<char>, Seq<char>)> {
    Seq::new(headers.len(), |i: int| (headers[i].key@, headers[i].value@))
}

/// The headers of a request: those given, and after them the tenant header
/// where there is a tenant.
pub open spec fn spec_request_headers(
    headers: Seq<KeyValue>,
    tenant: Option<String>,
) -> Seq<(Seq<char>, Seq<char>)> {
    match tenant {
        Some(t) => headers_view(headers).push(("X-Scope-OrgID"@, t@)),
        None => headers_view(headers),
    }
}

/// The headers to put on a request to the log store, in the order in which
/// they are added.
pub fn request_headers(headers: &Vec<KeyValue>, tenant: &Option<String>) -> (r: Vec<KeyValue>)
    ensures
        headers_view(r@) == spec_request_headers(headers@, *tenant),
{
    let mut out: Vec<KeyValue> = Vec::new();
    let mut i: usize = 0;
    assert(headers_view(out@) =~= headers_view(headers@).take(0));
    while i < headers.len()
        invariant
            i <= headers@.len(),
            headers_view(out@) == headers_view(headers@).take(i as int),
        decreases headers@.len() - i,
    {
        let ghost before = headers_view(out@);
        let header = KeyValue { key: headers[i].key.clone(), value: headers[i].value.clone() };
        assert(header.key@ == headers@[i as int].key@ && header.value@ == headers@[i as int].value@);
        out.push(header);
        assert(headers_view(out@) =~= before.push((header.key@, header.value@)));
        i = i + 1;
        assert(headers_view(out@) =~= headers_view(headers@).take(i as int));
    }
    assert(headers_view(headers@).take(i as int) =~= headers_view(headers@));
    match tenant {
        Some(t) => {
            out.push(KeyValue { key: "X-Scope-OrgID".to_owned(), value: t.clone() });
            assert(headers_view(out@) =~= spec_request_headers(headers@, *tenant));
        },
        None => {},
    }
    out
}

/// The first `n` labels written as `key = value` and joined by `, `.
pub open spec fn spec_stream_label(labels: Seq<KeyValue>, n: int) -> Seq<char>
    decreases n,
{
    if n <= 0 {
        Seq::empty()
    } else if n == 1 {
        labels[0].key@ + " = "@ + labels[0].value@
    } else {
        spec_stream_label(labels, n - 1) + ", "@ + labels[n - 1].key@ + " = "@ + labels[n
            - 1].value@
    }
}

/// The labels of a stream on one line: each as `key = value`, with `, `
/// between them.
pub fn stream_label(labels: &Vec<KeyValue>) -> (r: String)
    ensures
        r@ == spec_stream_label(labels@, labels@.len() as int),
{
    let mut out = String::new();
    let mut i: usize = 0;
    while i < labels.len()
        invariant
            i <= labels@.len(),
            out@ == spec_stream_label(labels@, i as int),
        decreases labels@.len() - i,
    {
        if i > 0 {
            out.append(", ");
        }
        out.append(labels[i].key.as_str());
        out.append(" = ");
        out.append(labels[i].value.as_str());
        i = i + 1;
        assert(out@ =~= spec_stream_label(labels@, i as int));
    }
    out
}

/// A text without `=` cannot be split into a key and a value.
#[derive(Debug, Clone, Copy, PartialEq, Eq, Structural)]
pub struct BadPredicateSyntax;

impl KeyValue {
    /// The key as UTF-8 bytes.
    pub open spec fn key_bytes(&self) -> Seq<u8> {
        encode_utf8(self.key@)
    }

    /// The value as UTF-8 bytes.
    pub open spec fn value_bytes(&self) -> Seq<u8> {
        encode_utf8(self.value@)
    }

    /// Splits `s` at its first `=`. The key is what stands before it and
    /// holds no `=`; the value is all that follows, further `=` included.
    pub fn from_str(s: &str) -> (r: Result<KeyValue, BadPredicateSyntax>)
        ensures
            match r {
                Ok(kv) => kv.key@ + seq!['='] + kv.value@ == s@ && !kv.key@.contains('='),
                Err(_) => !s@.contains('='),
            },
    {
        let n: usize = s.unicode_len();
        let mut i: usize = 0;
        while i < n
            invariant
                n == s@.len(),
                i <= n,
                forall|j: int| 0 <= j < i ==> s@[j] != '=',
            decreases n - i,
        {
            if s.get_char(i) == '=' {
                let key = s.substring_char(0, i).to_owned();
                let value = s.substring_char(i + 1, n).to_owned();
                assert(key@ + seq!['='] + value@ =~= s@);
                return Ok(KeyValue { key, value });
            }
            i = i + 1;
        }
        Err(BadPredicateSyntax)
    }
}

impl std::str::FromStr for KeyValue {
    type Err = BadPredicateSyntax;

    /// Splits `s` at its first `=`. The key is what stands before it and
    /// holds no `=`; the value is all that follows, further `=` included.
    /// A text without `=` is refused.
    fn from_str(s: &str) -> (r: Result<KeyValue, BadPredicateSyntax>)
        ensures
            match r {
                Ok(kv) => kv.key@ + seq!['='] + kv.value@ == s@ && !kv.key@.contains('='),
                Err(_) => !s@.contains('='),
            },
    {
        KeyValue::from_str(s)
    }
}

/// The text of one decimal digit.
pub open spec fn digit_text(d: nat) -> Seq<char> {
    if d == 0 {
        "0"@
    } else if d == 1 {
        "1"@
    } else if d == 2 {
        "2"@
    } else if d == 3 {
        "3"@
    } else if d == 4 {
        "4"@
    } else if d == 5 {
        "5"@
    } else if d == 6 {
        "6"@
    } else if d == 7 {
        "7"@
    } else if d == 8 {
        "8"@
    } else {
        "9"@
    }
}

/// A number written in decimal, without leading zeros.
pub open spec fn decimal_text(n: nat) -> Seq<char>
    decreases n,
{
    if n < 10 {
        digit_text(n)
    } else {
        decimal_text(n / 10) + digit_text(n % 10)
    }
}

/// An integer written in decimal, with a minus sign where it is negative.
pub open spec fn decimal_int_text(d: int) -> Seq<char> {
    if d < 0 {
        "-"@ + decimal_text((-d) as nat)
    } else {
        decimal_text(d as nat)
    }
}

/// `s` wrapped in the escape sequences that make a terminal show it bold and
/// in the colour with the given red, green and blue parts.
pub open spec fn colored(s: Seq<char>, r: u8, g: u8, b: u8) -> Seq<char> {
    "\x1b[38;2;"@ + decimal_text(r as nat) + ";"@ + decimal_text(g as nat) + ";"@ + decimal_text(
        b as nat,
    ) + ";1m"@ + s + "\x1b[0m"@
}

fn digit_literal(d: u64) -> (r: &'static str)
    requires
        d < 10,
    ensures
        r@ == digit_text(d as nat),
{
    if d == 0 {
        "0"
    } else if d == 1 {
        "1"
    } else if d == 2 {
        "2"
    } else if d == 3 {
        "3"
    } else if d == 4 {
        "4"
    } else if d == 5 {
        "5"
    } else if d == 6 {
        "6"
    } else if d == 7 {
        "7"
    } else if d == 8 {
        "8"
    } else {
        "9"
    }
}

/// Appends `n` in decimal to `out`.
pub fn append_decimal(out: &mut String, n: u64)
    ensures
        final(out)@ == old(out)@ + decimal_text(n as nat),
    decreases n,
{
    if n >= 10 {
        append_decimal(out, n / 10);
    }
    out.append(digit_literal(n % 10));
    assert(out@ =~= old(out)@ + decimal_text(n as nat));
}

/// Appends `d` in decimal to `out`, with a minus sign where it is negative.
pub fn append_decimal_int(out: &mut String, d: i64)
    ensures
        final(out)@ == old(out)@ + decimal_int_text(d as int),
{
    if d < 0 {
        out.append("-");
        let magnitude: u64 = ((-(d + 1)) as u64) + 1;
        append_decimal(out, magnitude);
        assert(out@ =~= old(out)@ + decimal_int_text(d as int));
    } else {
        append_decimal(out, d as u64);
    }
}

/// `atty::is` for the standard output: whether it is a terminal. The answer
/// depends on how the process was started, so nothing is promised of it.
#[verifier::external_body]
fn stdout_is_terminal() -> (r: bool) {
    atty::is(atty::Stream::Stdout)
}

/// `s` in the given colour where `terminal` is set, and `s` itself where it
/// is not.
pub fn paint(s: &str, r: u8, g: u8, b: u8, terminal: bool) -> (out: String)
    ensures
        out@ == if terminal {
            colored(s@, r, g, b)
        } else {
            s@
        },
{
    if !terminal {
        return s.to_owned();
    }
    let mut out = String::new();
    out.append("\x1b[38;2;");
    append_decimal(&mut out, r as u64);
    out.append(";");
    append_decimal(&mut out, g as u64);
    out.append(";");
    append_decimal(&mut out, b as u64);
    out.append(";1m");
    out.append(s);
    out.append("\x1b[0m");
    assert(out@ =~= colored(s@, r, g, b));
    out
}

/// `s` in the given colour where the standard output is a terminal, and `s`
/// itself where it is not.
pub fn true_color(s: &str, r: u8, g: u8, b: u8) -> (out: String)
    ensures
        out@ == s@ || out@ == colored(s@, r, g, b),
{
    paint(s, r, g, b, stdout_is_terminal())
}

/// `s` in red on a terminal.
pub fn red(s: &str) -> (out: String)
    ensures
        out@ == s@ || out@ == colored(s@, 255, 0, 0),
{
    true_color(s, 255, 0, 0)
}

/// `s` in green on a terminal.
pub fn green(s: &str) -> (out: String)
    ensures
        out@ == s@ || out@ == colored(s@, 0, 255, 0),
{
    true_color(s, 0, 255, 0)
}

/// `s` in blue on a terminal.
pub fn blue(s: &str) -> (out: String)
    ensures
        out@ == s@ || out@ == colored(s@, 100, 100, 255),
{
    true_color(s, 100, 100, 255)
}

/// `s` in yellow on a terminal.
pub fn yellow(s: &str) -> (out: String)
    ensures
        out@ == s@ || out@ == colored(s@, 255, 255, 0),
{
    true_color(s, 255, 255, 0)
}

/// `s` in gray on a terminal.
pub fn gray(s: &str) -> (out: String)
    ensures
        out@ == s@ || out@ == colored(s@, 128, 128, 128),
{
    true_color(s, 128, 128, 128)
}

} // verus!
