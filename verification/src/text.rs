//! Byte strings: building keys, comparing them, splitting them on a
//! separator, and numbers written in decimal and hexadecimal.

use vstd::prelude::*;

verus! {

/// The decimal digits of `n`, most significant first, without leading zeros.
pub open spec fn decimal(n: nat) -> Seq<u8>
    decreases n,
{
    if n < 10 {
        seq![(48 + n) as u8]
    } else {
        decimal(n / 10).push((48 + n % 10) as u8)
    }
}

/// An integer in decimal, with a minus sign in front where it is negative.
pub open spec fn decimal_int(d: int) -> Seq<u8> {
    if d < 0 {
        seq![45u8] + decimal((-d) as nat)
    } else {
        decimal(d as nat)
    }
}

/// A number in decimal, padded with one zero where it has a single digit.
pub open spec fn two_digits(i: nat) -> Seq<u8> {
    if i < 10 {
        seq![48u8, (48 + i) as u8]
    } else {
        decimal(i)
    }
}

/// The lowercase hexadecimal digit for a value below sixteen.
pub open spec fn hex_digit(v: int) -> u8 {
    if v < 10 {
        (48 + v) as u8
    } else {
        (87 + v) as u8
    }
}

/// Eight lowercase hexadecimal digits of `v`, most significant first.
pub open spec fn hex8(v: u32) -> Seq<u8> {
    seq![
        hex_digit((v as int / 0x1000_0000) % 16),
        hex_digit((v as int / 0x100_0000) % 16),
        hex_digit((v as int / 0x10_0000) % 16),
        hex_digit((v as int / 0x1_0000) % 16),
        hex_digit((v as int / 0x1000) % 16),
        hex_digit((v as int / 0x100) % 16),
        hex_digit((v as int / 0x10) % 16),
        hex_digit(v as int % 16),
    ]
}

/// The value of a hexadecimal digit in either case.
pub open spec fn hex_val(c: u8) -> Option<nat> {
    if 48 <= c <= 57 {
        Some((c - 48) as nat)
    } else if 97 <= c <= 102 {
        Some((c - 87) as nat)
    } else if 65 <= c <= 70 {
        Some((c - 55) as nat)
    } else {
        None
    }
}

/// Whether every byte of `s` is a hexadecimal digit.
pub open spec fn all_hex(s: Seq<u8>) -> bool {
    forall|i: int| 0 <= i < s.len() ==> (#[trigger] hex_val(s[i])) is Some
}

/// The number that the hexadecimal digits of `s` write, most significant
/// first. A byte that is no digit counts as zero.
pub open spec fn hex_value(s: Seq<u8>) -> nat
    decreases s.len(),
{
    if s.len() == 0 {
        0
    } else {
        hex_value(s.drop_last()) * 16 + match hex_val(s.last()) {
            Some(d) => d,
            None => 0,
        }
    }
}

/// A hexadecimal number of at least one digit and at most `max`.
pub open spec fn spec_parse_hex(s: Seq<u8>, max: nat) -> Option<nat> {
    if s.len() > 0 && all_hex(s) && hex_value(s) <= max {
        Some(hex_value(s))
    } else {
        None
    }
}

/// An unsigned hexadecimal number of at most `max`, with or without a plus
/// sign in front.
pub open spec fn spec_parse_unsigned_hex(s: Seq<u8>, max: nat) -> Option<nat> {
    if s.len() > 0 && s[0] == 43u8 {
        spec_parse_hex(s.skip(1), max)
    } else {
        spec_parse_hex(s, max)
    }
}

/// A hexadecimal number that fits in 64 bits with a sign: the digits, with
/// or without a plus sign in front, or a minus sign and the digits.
pub open spec fn spec_parse_signed_hex(s: Seq<u8>) -> Option<int> {
    if s.len() > 0 && s[0] == 45u8 {
        match spec_parse_hex(s.skip(1), 0x8000_0000_0000_0000) {
            Some(v) => Some(-(v as int)),
            None => None,
        }
    } else {
        match spec_parse_unsigned_hex(s, 0x7fff_ffff_ffff_ffff) {
            Some(v) => Some(v as int),
            None => None,
        }
    }
}

/// `a` comes strictly before `b` in the byte-wise dictionary order.
pub open spec fn lex_lt(a: Seq<u8>, b: Seq<u8>) -> bool
    decreases a.len(),
{
    if b.len() == 0 {
        false
    } else if a.len() == 0 {
        true
    } else if a[0] != b[0] {
        a[0] < b[0]
    } else {
        lex_lt(a.skip(1), b.skip(1))
    }
}

/// The pieces of `s` between occurrences of `sep`. There is always at least
/// one piece, and one more than there are separators.
pub open spec fn split(s: Seq<u8>, sep: u8) -> Seq<Seq<u8>>
    decreases s.len(),
{
    if s.len() == 0 {
        seq![Seq::<u8>::empty()]
    } else {
        let init = split(s.drop_last(), sep);
        if s.last() == sep {
            init.push(Seq::<u8>::empty())
        } else {
            init.update(init.len() - 1, init.last().push(s.last()))
        }
    }
}

/// The views of a list of byte strings.
pub open spec fn bytes_list_view(v: Seq<Vec<u8>>) -> Seq<Seq<u8>> {
    Seq::new(v.len(), |i: int| v[i]@)
}

/// The value of a prefix of a hexadecimal number is at most the value of the
/// whole.
pub proof fn lemma_hex_value_prefix(s: Seq<u8>, k: int)
    requires
        0 <= k <= s.len(),
    ensures
        hex_value(s.take(k)) <= hex_value(s),
    decreases s.len() - k,
{
    if k < s.len() {
        lemma_hex_value_prefix(s, k + 1);
        assert(s.take(k + 1).drop_last() =~= s.take(k));
        assert(hex_value(s.take(k)) * 16 >= hex_value(s.take(k))) by (nonlinear_arith);
    } else {
        assert(s.take(k) =~= s);
    }
}

/// A copy of `s`.
pub fn copy_bytes(s: &Vec<u8>) -> (r: Vec<u8>)
    ensures
        r@ == s@,
{
    vstd::slice::slice_to_vec(s.as_slice())
}

/// Appends `s` to `out`.
pub fn push_bytes(out: &mut Vec<u8>, s: &[u8])
    ensures
        final(out)@ == old(out)@ + s@,
{
    let mut i: usize = 0;
    while i < s.len()
        invariant
            i <= s@.len(),
            out@ == old(out)@ + s@.take(i as int),
        decreases s@.len() - i,
    {
        out.push(s[i]);
        i = i + 1;
        assert(out@ =~= old(out)@ + s@.take(i as int));
    }
    assert(s@.take(i as int) =~= s@);
}

/// Appends `n` in decimal to `out`.
pub fn push_decimal(out: &mut Vec<u8>, n: u64)
    ensures
        final(out)@ == old(out)@ + decimal(n as nat),
    decreases n,
{
    if n >= 10 {
        push_decimal(out, n / 10);
    }
    let digit: u8 = (n % 10) as u8;
    out.push(48 + digit);
    assert(out@ =~= old(out)@ + decimal(n as nat));
}

/// Appends `d` in decimal to `out`, with a minus sign where it is negative.
pub fn push_decimal_int(out: &mut Vec<u8>, d: i64)
    ensures
        final(out)@ == old(out)@ + decimal_int(d as int),
{
    if d < 0 {
        out.push(45);
        let magnitude: u64 = ((-(d + 1)) as u64) + 1;
        push_decimal(out, magnitude);
        assert(out@ =~= old(out)@ + decimal_int(d as int));
    } else {
        push_decimal(out, d as u64);
    }
}

/// Appends `i` in decimal to `out`, in at least two digits.
pub fn push_two_digits(out: &mut Vec<u8>, i: u32)
    ensures
        final(out)@ == old(out)@ + two_digits(i as nat),
{
    if i < 10 {
        out.push(48);
        out.push(48 + i as u8);
        assert(out@ =~= old(out)@ + two_digits(i as nat));
    } else {
        push_decimal(out, i as u64);
    }
}

fn hex_digit_of(v: u32) -> (r: u8)
    requires
        v < 16,
    ensures
        r == hex_digit(v as int),
{
    if v < 10 {
        48 + v as u8
    } else {
        87 + v as u8
    }
}

/// Eight lowercase hexadecimal digits of `from`: the big-endian form of the
/// number, two digits for each byte.
pub fn encode_time(from: u32) -> (r: Vec<u8>)
    ensures
        r@ == hex8(from),
{
    let mut out: Vec<u8> = Vec::new();
    out.push(hex_digit_of((from / 0x1000_0000) % 16));
    out.push(hex_digit_of((from / 0x100_0000) % 16));
    out.push(hex_digit_of((from / 0x10_0000) % 16));
    out.push(hex_digit_of((from / 0x1_0000) % 16));
    out.push(hex_digit_of((from / 0x1000) % 16));
    out.push(hex_digit_of((from / 0x100) % 16));
    out.push(hex_digit_of((from / 0x10) % 16));
    out.push(hex_digit_of(from % 16));
    assert(out@ =~= hex8(from));
    out
}

/// Whether `s` begins with `prefix`.
pub fn starts_with(s: &[u8], prefix: &[u8]) -> (r: bool)
    ensures
        r == prefix@.is_prefix_of(s@),
{
    if prefix.len() > s.len() {
        return false;
    }
    let mut i: usize = 0;
    while i < prefix.len()
        invariant
            i <= prefix@.len() <= s@.len(),
            s@.take(i as int) == prefix@.take(i as int),
        decreases prefix@.len() - i,
    {
        if s[i] != prefix[i] {
            assert(s@.subrange(0, prefix@.len() as int)[i as int] != prefix@[i as int]);
            return false;
        }
        i = i + 1;
        assert(s@.take(i as int) =~= s@.take(i as int - 1).push(s@[i as int - 1]));
        assert(prefix@.take(i as int) =~= prefix@.take(i as int - 1).push(prefix@[i as int - 1]));
    }
    assert(prefix@.take(i as int) =~= prefix@);
    assert(s@.take(i as int) =~= s@.subrange(0, prefix@.len() as int));
    true
}

/// Whether two byte strings are the same.
pub fn bytes_eq(a: &[u8], b: &[u8]) -> (r: bool)
    ensures
        r == (a@ == b@),
{
    if a.len() != b.len() {
        return false;
    }
    let r = starts_with(a, b);
    assert(r ==> a@ =~= b@) by {
        if r {
            assert(a@.subrange(0, b@.len() as int) =~= a@);
        }
    }
    assert(a@ == b@ ==> r) by {
        if a@ == b@ {
            assert(a@.subrange(0, b@.len() as int) =~= a@);
        }
    }
    r
}

/// Whether `a` comes strictly before `b` in the byte-wise dictionary order.
pub fn bytes_lt(a: &[u8], b: &[u8]) -> (r: bool)
    ensures
        r == lex_lt(a@, b@),
{
    let mut i: usize = 0;
    assert(a@.skip(0) =~= a@);
    assert(b@.skip(0) =~= b@);
    loop
        invariant
            i <= a@.len(),
            i <= b@.len(),
            lex_lt(a@, b@) == lex_lt(a@.skip(i as int), b@.skip(i as int)),
        decreases a@.len() - i,
    {
        if i >= b.len() {
            return false;
        }
        if i >= a.len() {
            return true;
        }
        if a[i] != b[i] {
            return a[i] < b[i];
        }
        assert(a@.skip(i as int).skip(1) =~= a@.skip(i as int + 1));
        assert(b@.skip(i as int).skip(1) =~= b@.skip(i as int + 1));
        i = i + 1;
    }
}

/// Splits `s` on every occurrence of `sep`.
pub fn split_bytes(s: &[u8], sep: u8) -> (r: Vec<Vec<u8>>)
    ensures
        bytes_list_view(r@) == split(s@, sep),
        r@.len() >= 1,
{
    let mut pieces: Vec<Vec<u8>> = Vec::new();
    let mut current: Vec<u8> = Vec::new();
    let mut i: usize = 0;
    assert(s@.take(0) =~= Seq::<u8>::empty());
    assert(bytes_list_view(pieces@).push(current@) =~= split(s@.take(0), sep));
    while i < s.len()
        invariant
            i <= s@.len(),
            bytes_list_view(pieces@).push(current@) == split(s@.take(i as int), sep),
        decreases s@.len() - i,
    {
        let ghost before = bytes_list_view(pieces@).push(current@);
        assert(s@.take(i as int + 1).drop_last() =~= s@.take(i as int));
        if s[i] == sep {
            assert(bytes_list_view(pieces@.push(current)) =~= before);
            pieces.push(current);
            current = Vec::new();
        } else {
            current.push(s[i]);
            assert(bytes_list_view(pieces@).push(current@) =~= before.update(
                before.len() - 1,
                before.last().push(s@[i as int]),
            ));
        }
        i = i + 1;
    }
    assert(s@.take(i as int) =~= s@);
    assert(bytes_list_view(pieces@.push(current)) =~= bytes_list_view(pieces@).push(current@));
    pieces.push(current);
    pieces
}

fn hex_val_of(c: u8) -> (r: Option<u8>)
    ensures
        match r {
            Some(d) => hex_val(c) == Some(d as nat) && d < 16,
            None => hex_val(c) is None,
        },
{
    if 48 <= c && c <= 57 {
        Some(c - 48)
    } else if 97 <= c && c <= 102 {
        Some(c - 87)
    } else if 65 <= c && c <= 70 {
        Some(c - 55)
    } else {
        None
    }
}

/// Parses a hexadecimal number of at least one digit that is at most `max`.
pub fn parse_hex(s: &[u8], max: u64) -> (r: Option<u64>)
    ensures
        match r {
            Some(v) => spec_parse_hex(s@, max as nat) == Some(v as nat),
            None => spec_parse_hex(s@, max as nat) is None,
        },
{
    if s.len() == 0 {
        return None;
    }
    let mut acc: u64 = 0;
    let mut i: usize = 0;
    assert(s@.take(0) =~= Seq::<u8>::empty());
    while i < s.len()
        invariant
            i <= s@.len(),
            all_hex(s@.take(i as int)),
            acc == hex_value(s@.take(i as int)),
            acc <= max,
        decreases s@.len() - i,
    {
        assert(s@.take(i as int + 1).drop_last() =~= s@.take(i as int));
        let d: u8 = match hex_val_of(s[i]) {
            Some(d) => d,
            None => {
                assert(hex_val(s@[i as int]) is None);
                return None;
            },
        };
        if d as u64 > max || acc > (max - d as u64) / 16 {
            proof {
                lemma_hex_value_prefix(s@, i as int + 1);
                if all_hex(s@) {
                    assert(hex_val(s@[i as int]) is Some);
                }
            }
            return None;
        }
        acc = acc * 16 + d as u64;
        i = i + 1;
        assert forall|j: int| 0 <= j < i implies (#[trigger] hex_val(s@.take(i as int)[j])) is Some by {
            if j < i - 1 {
                assert(s@.take(i as int)[j] == s@.take(i as int - 1)[j]);
            }
        }
    }
    assert(s@.take(i as int) =~= s@);
    Some(acc)
}

/// Parses an unsigned hexadecimal number that is at most `max` and may have
/// a plus sign in front.
pub fn parse_unsigned_hex(s: &[u8], max: u64) -> (r: Option<u64>)
    ensures
        match r {
            Some(v) => spec_parse_unsigned_hex(s@, max as nat) == Some(v as nat),
            None => spec_parse_unsigned_hex(s@, max as nat) is None,
        },
{
    if s.len() > 0 && s[0] == 43 {
        let digits = vstd::slice::slice_subrange(s, 1, s.len());
        assert(digits@ =~= s@.skip(1));
        parse_hex(digits, max)
    } else {
        parse_hex(s, max)
    }
}

/// Parses a hexadecimal number that fits in 64 bits with a sign, and may
/// have a plus or a minus sign in front.
pub fn parse_signed_hex(s: &[u8]) -> (r: Option<i64>)
    ensures
        match r {
            Some(v) => spec_parse_signed_hex(s@) == Some(v as int),
            None => spec_parse_signed_hex(s@) is None,
        },
{
    if s.len() > 0 && s[0] == 45 {
        let digits = vstd::slice::slice_subrange(s, 1, s.len());
        assert(digits@ =~= s@.skip(1));
        match parse_hex(digits, 0x8000_0000_0000_0000) {
            Some(v) => {
                if v == 0x8000_0000_0000_0000 {
                    Some(i64::MIN)
                } else {
                    Some(-(v as i64))
                }
            },
            None => None,
        }
    } else {
        match parse_unsigned_hex(s, 0x7fff_ffff_ffff_ffff) {
            Some(v) => Some(v as i64),
            None => None,
        }
    }
}

} // verus!
