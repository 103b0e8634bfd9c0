//! The wire codec: bencoded byte strings and dictionaries.
//!
//! Both directions are written against the grammar stated here as spec
//! functions. Decoding reads a dictionary's keys in the order they come, as
//! clients send them, sorted or not: bendy's decoder refuses keys out of
//! order, and clients send `op` before `id`.

use vstd::prelude::*;

verus! {

/// `n` in decimal ASCII digits, most significant first, without leading zeros.
pub open spec fn decimal(n: nat) -> Seq<u8>
    decreases n,
{
    if n < 10 {
        seq![(48 + n) as u8]
    } else {
        decimal(n / 10).push((48 + n % 10) as u8)
    }
}

/// A bencoded byte string: its length in decimal, `:`, then the bytes.
pub open spec fn bencode_bytes(s: Seq<u8>) -> Seq<u8> {
    decimal(s.len()) + seq![58u8] + s
}

/// The key/value pairs of a dictionary, each written as two byte strings.
pub open spec fn bencode_pairs(p: Seq<(Seq<u8>, Seq<u8>)>) -> Seq<u8>
    decreases p.len(),
{
    if p.len() == 0 {
        Seq::empty()
    } else {
        bencode_pairs(p.drop_last()) + bencode_bytes(p.last().0) + bencode_bytes(p.last().1)
    }
}

/// A bencoded dictionary of byte strings: `d`, the pairs in the given order, `e`.
pub open spec fn bencode_dict(p: Seq<(Seq<u8>, Seq<u8>)>) -> Seq<u8> {
    seq![100u8] + bencode_pairs(p) + seq![101u8]
}

/// Appends `decimal(n)` to `out`.
fn push_decimal(out: &mut Vec<u8>, n: usize)
    ensures
        final(out)@ == old(out)@ + decimal(n as nat),
    decreases n,
{
    if n >= 10 {
        push_decimal(out, n / 10);
    }
    let digit: u8 = (48 + n % 10) as u8;
    out.push(digit);
    assert(final(out)@ =~= old(out)@ + decimal(n as nat));
}

/// Appends the bytes of `b` to `out`.
pub fn push_bytes(out: &mut Vec<u8>, b: &[u8])
    ensures
        final(out)@ == old(out)@ + b@,
{
    let mut i: usize = 0;
    while i < b.len()
        invariant
            0 <= i <= b@.len(),
            out@ == old(out)@ + b@.subrange(0, i as int),
        decreases b@.len() - i,
    {
        out.push(b[i]);
        i += 1;
        assert(out@ =~= old(out)@ + b@.subrange(0, i as int));
    }
    assert(b@.subrange(0, b@.len() as int) =~= b@);
}

/// Appends `b` to `out` as a bencoded byte string.
pub fn push_bencoded(out: &mut Vec<u8>, b: &[u8])
    ensures
        final(out)@ == old(out)@ + bencode_bytes(b@),
{
    push_decimal(out, b.len());
    out.push(58u8);
    push_bytes(out, b);
    assert(final(out)@ =~= old(out)@ + bencode_bytes(b@));
}

/// The view of a list of byte-string pairs.
pub open spec fn pairs_view(p: Seq<(Vec<u8>, Vec<u8>)>) -> Seq<(Seq<u8>, Seq<u8>)> {
    p.map_values(|x: (Vec<u8>, Vec<u8>)| (x.0@, x.1@))
}

/// Encodes a dictionary of byte strings, keys and values in the given order.
pub fn encode_dict(pairs: &Vec<(Vec<u8>, Vec<u8>)>) -> (r: Vec<u8>)
    ensures
        r@ == bencode_dict(pairs_view(pairs@)),
{
    let mut out: Vec<u8> = Vec::new();
    out.push(100u8);
    let mut i: usize = 0;
    while i < pairs.len()
        invariant
            0 <= i <= pairs@.len(),
            out@ == seq![100u8] + bencode_pairs(pairs_view(pairs@).take(i as int)),
        decreases pairs@.len() - i,
    {
        push_bencoded(&mut out, pairs[i].0.as_slice());
        push_bencoded(&mut out, pairs[i].1.as_slice());
        proof {
            let t = pairs_view(pairs@).take(i + 1);
            assert(t.drop_last() =~= pairs_view(pairs@).take(i as int));
        }
        i += 1;
    }
    out.push(101u8);
    assert(pairs_view(pairs@).take(pairs@.len() as int) =~= pairs_view(pairs@));
    out
}

/// A top-level value as the decoder gives it: the pairs of a dictionary, each
/// value a byte string (`Some`) or another kind of value (`None`); `None` for a
/// top-level value that is not a dictionary.
pub type RawObject = Option<Vec<(Vec<u8>, Option<Vec<u8>>)>>;

pub open spec fn raw_value_view(v: Option<Vec<u8>>) -> Option<Seq<u8>> {
    match v {
        Some(b) => Some(b@),
        None => None,
    }
}

/// The view of a decoded object.
pub open spec fn raw_object_view(o: RawObject) -> Option<Seq<(Seq<u8>, Option<Seq<u8>>)>> {
    match o {
        Some(p) => Some(
            p@.map_values(|x: (Vec<u8>, Option<Vec<u8>>)| (x.0@, raw_value_view(x.1))),
        ),
        None => None,
    }
}

pub open spec fn is_digit(c: u8) -> bool {
    48 <= c <= 57
}

/// The first position at or after `pos` that holds no decimal digit.
pub open spec fn digits_end(b: Seq<u8>, pos: int) -> int
    decreases b.len() - pos,
{
    if pos < 0 || pos >= b.len() || !is_digit(b[pos]) {
        pos
    } else {
        digits_end(b, pos + 1)
    }
}

/// The number that the decimal digits `s` write.
pub open spec fn digits_value(s: Seq<u8>) -> nat
    decreases s.len(),
{
    if s.len() == 0 {
        0
    } else {
        10 * digits_value(s.drop_last()) + (s.last() - 48) as nat
    }
}

/// The byte string that starts at `pos` (its length in decimal, `:`, the
/// bytes) and the position after it; `None` where there is none.
pub open spec fn parse_bytes(b: Seq<u8>, pos: int) -> Option<(Seq<u8>, int)> {
    let e = digits_end(b, pos);
    if e == pos || e >= b.len() || b[e] != 58 {
        None
    } else {
        let n = digits_value(b.subrange(pos, e));
        if e + 1 + n > b.len() {
            None
        } else {
            Some((b.subrange(e + 1, e + 1 + n), e + 1 + n))
        }
    }
}

/// The position after the integer `i[-]<digits>e` that starts at `pos`;
/// `None` where there is none.
pub open spec fn parse_int(b: Seq<u8>, pos: int) -> Option<int> {
    let s = if pos + 1 < b.len() && b[pos + 1] == 45 {
        pos + 2
    } else {
        pos + 1
    };
    let e = digits_end(b, s);
    if pos < 0 || pos >= b.len() || b[pos] != 105 || e == s || e >= b.len() || b[e] != 101 {
        None
    } else {
        Some(e + 1)
    }
}

/// Open containers while a value is scanned, innermost last: `l` a list, `k`
/// a dictionary that expects a key or its end, `v` a dictionary that expects
/// the value of a key it has read.
pub open spec fn resume(stack: Seq<u8>) -> Seq<u8> {
    if stack.len() > 0 && stack.last() == 118 {
        stack.update(stack.len() - 1, 107)
    } else {
        stack
    }
}

/// One step of the scan at `pos` (which must hold a byte): `None` where the
/// byte breaks the grammar; else whether a value ended (`true`) or a
/// container opened or a key was read (`false`), the next position, and the
/// open containers.
pub open spec fn scan_step(b: Seq<u8>, pos: int, stack: Seq<u8>) -> Option<(bool, int, Seq<u8>)> {
    let c = b[pos];
    if stack.len() > 0 && stack.last() == 107 {
        if c == 101 {
            Some((true, pos + 1, stack.drop_last()))
        } else {
            match parse_bytes(b, pos) {
                None => None,
                Some((_, p)) => Some((false, p, stack.update(stack.len() - 1, 118))),
            }
        }
    } else if c == 101 {
        if stack.len() > 0 && stack.last() == 108 {
            Some((true, pos + 1, stack.drop_last()))
        } else {
            None
        }
    } else if is_digit(c) {
        match parse_bytes(b, pos) {
            None => None,
            Some((_, p)) => Some((true, p, stack)),
        }
    } else if c == 105 {
        match parse_int(b, pos) {
            None => None,
            Some(p) => Some((true, p, stack)),
        }
    } else if c == 108 {
        Some((false, pos + 1, stack.push(108)))
    } else if c == 100 {
        Some((false, pos + 1, stack.push(107)))
    } else {
        None
    }
}

/// The end of the value that is being scanned at `pos` inside the open
/// containers `stack`; `None` where the bytes break the grammar (a byte string,
/// `i[-]<digits>e`, `l<values>e`, or `d<byte string, value pairs>e`).
pub open spec fn scan(b: Seq<u8>, pos: int, stack: Seq<u8>) -> Option<int>
    decreases b.len() - pos,
{
    if pos < 0 || pos >= b.len() {
        None
    } else {
        match scan_step(b, pos, stack) {
            None => None,
            Some((done, p, s)) => if p <= pos || p > b.len() {
                None
            } else if done && s.len() == 0 {
                Some(p)
            } else if done {
                scan(b, p, resume(s))
            } else {
                scan(b, p, s)
            },
        }
    }
}

/// The end of the complete value that starts at `pos`, if it is well formed.
pub open spec fn value_end(b: Seq<u8>, pos: int) -> Option<int> {
    scan(b, pos, Seq::empty())
}

/// The entries of a dictionary from `pos` on, after the entries `acc`, up to
/// the closing `e`: a value that is a byte string is recorded as `Some`, any
/// other well-formed value as `None`. `None` where the bytes break the grammar.
pub open spec fn parse_entries(
    b: Seq<u8>,
    pos: int,
    acc: Seq<(Seq<u8>, Option<Seq<u8>>)>,
) -> Option<Seq<(Seq<u8>, Option<Seq<u8>>)>>
    decreases b.len() - pos,
{
    if pos < 0 || pos >= b.len() {
        None
    } else if b[pos] == 101 {
        Some(acc)
    } else {
        match parse_bytes(b, pos) {
            None => None,
            Some((k, p1)) => if p1 >= b.len() || p1 <= pos {
                None
            } else if is_digit(b[p1]) {
                match parse_bytes(b, p1) {
                    None => None,
                    Some((v, p2)) => if p2 <= pos || p2 > b.len() {
                        None
                    } else {
                        parse_entries(b, p2, acc.push((k, Some(v))))
                    },
                }
            } else {
                match value_end(b, p1) {
                    None => None,
                    Some(p2) => if p2 <= pos || p2 > b.len() {
                        None
                    } else {
                        parse_entries(b, p2, acc.push((k, None)))
                    },
                }
            },
        }
    }
}

/// What a request's bytes decode to: `None` where the first value breaks the
/// grammar; `Some(None)` where it is a well-formed byte string, integer or
/// list; `Some(Some(entries))` for a well-formed dictionary (see
/// `parse_entries`). Bytes after the first value are not read.
pub open spec fn bencode_object(b: Seq<u8>) -> Option<Option<Seq<(Seq<u8>, Option<Seq<u8>>)>>> {
    if b.len() == 0 {
        None
    } else if b[0] == 100 {
        match parse_entries(b, 1, Seq::empty()) {
            None => None,
            Some(p) => Some(Some(p)),
        }
    } else {
        match value_end(b, 0) {
            None => None,
            Some(_) => Some(None),
        }
    }
}

proof fn lemma_digits_end(b: Seq<u8>, pos: int)
    requires
        0 <= pos <= b.len(),
    ensures
        pos <= digits_end(b, pos) <= b.len(),
        forall|i: int| pos <= i < digits_end(b, pos) ==> is_digit(#[trigger] b[i]),
    decreases b.len() - pos,
{
    if pos < b.len() && is_digit(b[pos]) {
        lemma_digits_end(b, pos + 1);
    }
}

/// The bytes of `b` from `start` to `end`.
fn copy_range(b: &[u8], start: usize, end: usize) -> (r: Vec<u8>)
    requires
        start <= end <= b@.len(),
    ensures
        r@ == b@.subrange(start as int, end as int),
{
    let mut out: Vec<u8> = Vec::new();
    let mut i: usize = start;
    while i < end
        invariant
            start <= i <= end <= b@.len(),
            out@ == b@.subrange(start as int, i as int),
        decreases end - i,
    {
        out.push(b[i]);
        i += 1;
        assert(out@ =~= b@.subrange(start as int, i as int));
    }
    out
}

/// Reads the byte string at `pos` (see `parse_bytes`).
fn read_bytes(b: &[u8], pos: usize) -> (r: Option<(Vec<u8>, usize)>)
    requires
        pos <= b@.len(),
    ensures
        match parse_bytes(b@, pos as int) {
            None => r is None,
            Some((s, e)) => r matches Some((v, e2)) && v@ == s && e2 == e,
        },
{
    let len = b.len();
    let mut i: usize = pos;
    let mut n: u128 = 0;
    let mut big = false;
    proof {
        lemma_digits_end(b@, pos as int);
        assert(b@.subrange(pos as int, pos as int) =~= Seq::<u8>::empty());
    }
    while i < len && 48 <= b[i] && b[i] <= 57
        invariant
            pos <= i <= len == b@.len(),
            digits_end(b@, pos as int) == digits_end(b@, i as int),
            !big ==> n == digits_value(b@.subrange(pos as int, i as int)) && n <= len,
            big ==> digits_value(b@.subrange(pos as int, i as int)) > len,
        decreases len - i,
    {
        let ghost before = b@.subrange(pos as int, i as int);
        assert(b@.subrange(pos as int, i + 1).drop_last() =~= before);
        let d = (b[i] - 48) as u128;
        if !big {
            n = n * 10 + d;
            if n > len as u128 {
                big = true;
            }
        } else {
            assert(digits_value(before) <= 10 * digits_value(before) + d) by (nonlinear_arith);
        }
        i += 1;
    }
    proof {
        lemma_digits_end(b@, i as int);
    }
    if i == pos || i >= len || b[i] != 58 || big {
        return None;
    }
    let n = n as usize;
    if n > len - i - 1 {
        return None;
    }
    let v = copy_range(b, i + 1, i + 1 + n);
    Some((v, i + 1 + n))
}

/// Reads the integer at `pos` (see `parse_int`).
fn read_int(b: &[u8], pos: usize) -> (r: Option<usize>)
    requires
        pos < b@.len(),
    ensures
        match parse_int(b@, pos as int) {
            None => r is None,
            Some(e) => r == Some(e as usize),
        },
{
    if b[pos] != 105 {
        return None;
    }
    let len = b.len();
    let s: usize = if pos + 1 < len && b[pos + 1] == 45 {
        pos + 2
    } else {
        pos + 1
    };
    let mut i: usize = s;
    proof {
        lemma_digits_end(b@, s as int);
    }
    while i < len && 48 <= b[i] && b[i] <= 57
        invariant
            s <= i <= len == b@.len(),
            digits_end(b@, s as int) == digits_end(b@, i as int),
        decreases len - i,
    {
        i += 1;
    }
    if i == s || i >= len || b[i] != 101 {
        return None;
    }
    Some(i + 1)
}

/// One step of the scan (see `scan_step`); updates the open containers.
fn scan_one(b: &[u8], pos: usize, stack: &mut Vec<u8>) -> (r: Option<(bool, usize)>)
    requires
        pos < b@.len(),
    ensures
        match scan_step(b@, pos as int, old(stack)@) {
            None => r is None,
            Some((done, p, s)) => r == Some((done, p as usize)) && final(stack)@ == s && 0
                <= p <= b@.len(),
        },
{
    proof {
        lemma_digits_end(b@, pos as int);
        lemma_digits_end(b@, pos as int + 1);
        if pos + 2 <= b@.len() {
            lemma_digits_end(b@, pos as int + 2);
        }
    }
    let c = b[pos];
    let n = stack.len();
    if n > 0 && stack[n - 1] == 107 {
        if c == 101 {
            stack.pop();
            assert(stack@ =~= old(stack)@.drop_last());
            return Some((true, pos + 1));
        }
        match read_bytes(b, pos) {
            None => None,
            Some((_, p)) => {
                stack.set(n - 1, 118);
                Some((false, p))
            },
        }
    } else if c == 101 {
        if n > 0 && stack[n - 1] == 108 {
            stack.pop();
            assert(stack@ =~= old(stack)@.drop_last());
            Some((true, pos + 1))
        } else {
            None
        }
    } else if 48 <= c && c <= 57 {
        match read_bytes(b, pos) {
            None => None,
            Some((_, p)) => Some((true, p)),
        }
    } else if c == 105 {
        match read_int(b, pos) {
            None => None,
            Some(p) => Some((true, p)),
        }
    } else if c == 108 {
        stack.push(108);
        Some((false, pos + 1))
    } else if c == 100 {
        stack.push(107);
        Some((false, pos + 1))
    } else {
        None
    }
}

/// The end of the complete value that starts at `start` (see `value_end`).
pub fn skip_value(b: &[u8], start: usize) -> (r: Option<usize>)
    requires
        start <= b@.len(),
    ensures
        match value_end(b@, start as int) {
            None => r is None,
            Some(e) => r == Some(e as usize) && start < e <= b@.len(),
        },
{
    let mut stack: Vec<u8> = Vec::new();
    let mut pos: usize = start;
    loop
        invariant
            start <= pos <= b@.len(),
            value_end(b@, start as int) == scan(b@, pos as int, stack@),
        decreases b@.len() - pos,
    {
        if pos >= b.len() {
            return None;
        }
        match scan_one(b, pos, &mut stack) {
            None => return None,
            Some((done, p)) => {
                if p <= pos || p > b.len() {
                    return None;
                }
                if done {
                    let n = stack.len();
                    if n == 0 {
                        return Some(p);
                    }
                    if stack[n - 1] == 118 {
                        stack.set(n - 1, 107);
                    }
                }
                pos = p;
            },
        }
    }
}

/// Decodes the first value of a request (see `bencode_object`).
pub fn decode_object(b: &[u8]) -> (r: Option<RawObject>)
    ensures
        r is Some <==> bencode_object(b@) is Some,
        r matches Some(o) ==> bencode_object(b@) == Some(raw_object_view(o)),
{
    if b.len() == 0 {
        return None;
    }
    if b[0] != 100 {
        return match skip_value(b, 0) {
            None => None,
            Some(_) => Some(None),
        };
    }
    let mut pairs: Vec<(Vec<u8>, Option<Vec<u8>>)> = Vec::new();
    let mut pos: usize = 1;
    assert(raw_object_view(Some(pairs)).unwrap() =~= Seq::empty());
    while pos < b.len()
        invariant
            1 <= pos <= b@.len(),
            b@[0] == 100,
            parse_entries(b@, 1, Seq::empty()) == parse_entries(
                b@,
                pos as int,
                raw_object_view(Some(pairs)).unwrap(),
            ),
        decreases b@.len() - pos,
    {
        let ghost acc = raw_object_view(Some(pairs)).unwrap();
        if b[pos] == 101 {
            assert(parse_entries(b@, pos as int, acc) == Some(acc));
            return Some(Some(pairs));
        }
        let (k, p1) = match read_bytes(b, pos) {
            None => return None,
            Some(kp) => kp,
        };
        if p1 >= b.len() || p1 <= pos {
            return None;
        }
        if 48 <= b[p1] && b[p1] <= 57 {
            let (v, p2) = match read_bytes(b, p1) {
                None => return None,
                Some(vp) => vp,
            };
            if p2 <= pos || p2 > b.len() {
                return None;
            }
            let ghost kv = (k@, Some(v@));
            pairs.push((k, Some(v)));
            assert(raw_object_view(Some(pairs)).unwrap() =~= acc.push(kv));
            pos = p2;
        } else {
            let p2 = match skip_value(b, p1) {
                None => return None,
                Some(e) => e,
            };
            if p2 <= pos || p2 > b.len() {
                return None;
            }
            let ghost kv = (k@, None::<Seq<u8>>);
            pairs.push((k, None));
            assert(raw_object_view(Some(pairs)).unwrap() =~= acc.push(kv));
            pos = p2;
        }
    }
    None
}

/// A dictionary of byte strings as the decoder reports it: each value `Some`.
pub open spec fn as_entries(p: Seq<(Seq<u8>, Seq<u8>)>) -> Seq<(Seq<u8>, Option<Seq<u8>>)> {
    p.map_values(|kv: (Seq<u8>, Seq<u8>)| (kv.0, Some(kv.1)))
}

/// The pairs of decoded entries whose values are all byte strings.
pub open spec fn entry_pairs(e: Seq<(Seq<u8>, Option<Seq<u8>>)>) -> Seq<(Seq<u8>, Seq<u8>)> {
    e.map_values(|kv: (Seq<u8>, Option<Seq<u8>>)| (kv.0, kv.1.unwrap()))
}

proof fn lemma_decimal(n: nat)
    ensures
        decimal(n).len() > 0,
        forall|i: int| 0 <= i < decimal(n).len() ==> is_digit(#[trigger] decimal(n)[i]),
        digits_value(decimal(n)) == n,
    decreases n,
{
    if n >= 10 {
        lemma_decimal(n / 10);
        assert(decimal(n).drop_last() =~= decimal(n / 10));
        let c = (48 + n % 10) as u8;
        assert(decimal(n).last() == c);
        assert(c as int == 48 + n % 10);
        assert(n == 10 * (n / 10) + n % 10);
        assert(digits_value(decimal(n)) == 10 * digits_value(decimal(n / 10)) + (c - 48) as nat);
    } else {
        assert(decimal(n).drop_last() =~= Seq::<u8>::empty());
        let c = (48 + n) as u8;
        assert(decimal(n).last() == c);
        assert(c as int == 48 + n);
        assert(digits_value(decimal(n)) == 10 * digits_value(Seq::<u8>::empty()) + (c - 48) as nat);
    }
}

proof fn lemma_digits_end_at(b: Seq<u8>, pos: int, e: int)
    requires
        0 <= pos <= e <= b.len(),
        forall|i: int| pos <= i < e ==> is_digit(#[trigger] b[i]),
        e == b.len() || !is_digit(b[e]),
    ensures
        digits_end(b, pos) == e,
    decreases e - pos,
{
    if pos < e {
        lemma_digits_end_at(b, pos + 1, e);
    }
}

proof fn lemma_parse_bytes(b: Seq<u8>, pos: int, s: Seq<u8>)
    requires
        0 <= pos,
        pos + bencode_bytes(s).len() <= b.len(),
        b.subrange(pos, pos + bencode_bytes(s).len()) == bencode_bytes(s),
    ensures
        parse_bytes(b, pos) == Some((s, pos + bencode_bytes(s).len())),
        is_digit(b[pos]),
{
    let d = decimal(s.len());
    let t = bencode_bytes(s);
    lemma_decimal(s.len());
    let e = pos + d.len();
    assert forall|i: int| pos <= i < e implies is_digit(#[trigger] b[i]) by {
        assert(b[i] == b.subrange(pos, pos + t.len())[i - pos]);
        assert(t[i - pos] == d[i - pos]);
    }
    assert(b[e] == t[d.len() as int]);
    lemma_digits_end_at(b, pos, e);
    assert(b.subrange(pos, e) =~= d);
    assert forall|j: int| 0 <= j < s.len() implies b.subrange(e + 1, e + 1 + s.len())[j] == s[j] by {
        assert(b[e + 1 + j] == b.subrange(pos, pos + t.len())[d.len() + 1 + j]);
    }
    assert(b.subrange(e + 1, e + 1 + s.len()) =~= s);
    assert(b[pos] == t[0]);
}

proof fn lemma_pairs_prefix(p: Seq<(Seq<u8>, Seq<u8>)>, i: int, j: int)
    requires
        0 <= i <= j <= p.len(),
    ensures
        bencode_pairs(p.take(i)).len() <= bencode_pairs(p.take(j)).len(),
        bencode_pairs(p.take(j)).subrange(0, bencode_pairs(p.take(i)).len() as int)
            == bencode_pairs(p.take(i)),
    decreases j - i,
{
    if i < j {
        lemma_pairs_prefix(p, i, j - 1);
        assert(p.take(j).drop_last() =~= p.take(j - 1));
        let a = bencode_pairs(p.take(i));
        let m = bencode_pairs(p.take(j - 1));
        assert(bencode_pairs(p.take(j)).subrange(0, a.len() as int) =~= m.subrange(0, a.len() as int));
    } else {
        assert(bencode_pairs(p.take(j)).subrange(0, bencode_pairs(p.take(i)).len() as int)
            =~= bencode_pairs(p.take(i)));
    }
}

proof fn lemma_parse_entries(p: Seq<(Seq<u8>, Seq<u8>)>, i: int)
    requires
        0 <= i <= p.len(),
    ensures
        parse_entries(bencode_dict(p), 1 + bencode_pairs(p.take(i)).len() as int, as_entries(p.take(i)))
            == Some(as_entries(p)),
    decreases p.len() - i,
{
    let b = bencode_dict(p);
    let q = bencode_pairs(p);
    let pos: int = 1 + bencode_pairs(p.take(i)).len() as int;
    assert(p.take(p.len() as int) =~= p);
    if i == p.len() {
        assert(b[pos] == 101u8);
        assert(as_entries(p.take(i)) =~= as_entries(p));
    } else {
        let k = p[i].0;
        let v = p[i].1;
        let bk = bencode_bytes(k);
        let bv = bencode_bytes(v);
        let a = bencode_pairs(p.take(i));
        assert(p.take(i + 1).drop_last() =~= p.take(i));
        assert(bencode_pairs(p.take(i + 1)) == a + bk + bv);
        lemma_pairs_prefix(p, i + 1, p.len() as int);
        let n1 = bencode_pairs(p.take(i + 1)).len();
        assert(q.subrange(0, n1 as int) == a + bk + bv);
        assert(b.subrange(pos, pos + bk.len()) =~= bk) by {
            assert forall|t: int| 0 <= t < bk.len() implies b.subrange(pos, pos + bk.len())[t] == bk[t] by {
                assert(b[pos + t] == q[a.len() + t]);
                assert(q[a.len() + t] == q.subrange(0, n1 as int)[a.len() + t]);
            }
        }
        let p1: int = pos + bk.len();
        assert(b.subrange(p1, p1 + bv.len()) =~= bv) by {
            assert forall|t: int| 0 <= t < bv.len() implies b.subrange(p1, p1 + bv.len())[t] == bv[t] by {
                assert(b[p1 + t] == q[a.len() + bk.len() + t]);
                assert(q[a.len() + bk.len() + t] == q.subrange(0, n1 as int)[a.len() + bk.len() + t]);
            }
        }
        lemma_parse_bytes(b, pos, k);
        lemma_parse_bytes(b, p1, v);
        assert(as_entries(p.take(i)).push((k, Some(v))) =~= as_entries(p.take(i + 1)));
        lemma_parse_entries(p, i + 1);
    }
}

/// Decoding the encoding of a dictionary of byte strings gives back its pairs,
/// in order, each value a byte string; encoding those again gives the same bytes.
pub proof fn lemma_decode_encode_dict(p: Seq<(Seq<u8>, Seq<u8>)>)
    ensures
        bencode_object(bencode_dict(p)) == Some(Some(as_entries(p))),
        bencode_dict(entry_pairs(as_entries(p))) == bencode_dict(p),
{
    assert(p.take(0) =~= Seq::<(Seq<u8>, Seq<u8>)>::empty());
    assert(as_entries(p.take(0)) =~= Seq::<(Seq<u8>, Option<Seq<u8>>)>::empty());
    lemma_parse_entries(p, 0);
    assert(entry_pairs(as_entries(p)) =~= p);
}

} // verus!
