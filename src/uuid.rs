//! Version-4 session identifiers in the canonical 8-4-4-4-12 hexadecimal form.

use rand::Rng;
use vstd::prelude::*;
use vstd::string::StringExecFns;
use vstd::string::StrSliceExecFns;

verus! {

/// The digit that writes `n` (for `n < 16`).
pub open spec fn hex_char(n: nat) -> char {
    "0123456789abcdef"@[n as int]
}

/// `v` written with exactly `w` lower-case hexadecimal digits, most significant
/// first (higher digits beyond `w` are cut off).
pub open spec fn hex_group(v: nat, w: nat) -> Seq<char>
    decreases w,
{
    if w == 0 {
        Seq::empty()
    } else {
        hex_group(v / 16, (w - 1) as nat).push(hex_char(v % 16))
    }
}

pub open spec fn is_hex_char(c: char) -> bool {
    ('0' <= c && c <= '9') || ('a' <= c && c <= 'f')
}

/// The canonical textual form of a random version-4 identifier:
/// `xxxxxxxx-xxxx-4xxx-yxxx-xxxxxxxxxxxx` with `y` one of `8`, `9`, `a`, `b`.
pub open spec fn is_v4_uuid(s: Seq<char>) -> bool {
    &&& s.len() == 36
    &&& forall|i: int|
        0 <= i < 36 ==> if i == 8 || i == 13 || i == 18 || i == 23 {
            s[i] == '-'
        } else {
            is_hex_char(#[trigger] s[i])
        }
    &&& s[14] == '4'
    &&& (s[19] == '8' || s[19] == '9' || s[19] == 'a' || s[19] == 'b')
}

/// The identifier made from six draws: `a` fills the first group, `b` the
/// second, `c` the three digits after the version digit `4`, `d` picks the
/// variant digit `8 | (3 & d)`, `e` the three digits after it, `f` the last group.
pub open spec fn uuid_chars(a: nat, b: nat, c: nat, d: nat, e: nat, f: nat) -> Seq<char> {
    hex_group(a, 8) + seq!['-'] + hex_group(b, 4) + seq!['-', '4'] + hex_group(c, 3)
        + seq!['-', hex_char(variant_nibble(d))] + hex_group(e, 3) + seq!['-']
        + hex_group(f, 12)
}

/// The variant digit's value: the two high bits are `10`, the rest come from `d`.
pub open spec fn variant_nibble(d: nat) -> nat {
    (8u64 | (3u64 & (d as u64))) as nat
}

proof fn lemma_hex_char(n: nat)
    requires
        n < 16,
    ensures
        is_hex_char(hex_char(n)),
        n == 4 ==> hex_char(n) == '4',
        n == 8 ==> hex_char(n) == '8',
        n == 9 ==> hex_char(n) == '9',
        n == 10 ==> hex_char(n) == 'a',
        n == 11 ==> hex_char(n) == 'b',
{
    reveal_strlit("0123456789abcdef");
}

proof fn lemma_hex_group(v: nat, w: nat)
    ensures
        hex_group(v, w).len() == w,
        forall|i: int| 0 <= i < w ==> is_hex_char(#[trigger] hex_group(v, w)[i]),
    decreases w,
{
    if w > 0 {
        lemma_hex_group(v / 16, (w - 1) as nat);
        lemma_hex_char(v % 16);
    }
}

/// Every identifier built from draws is in the version-4 form.
pub proof fn lemma_uuid_is_v4(a: nat, b: nat, c: nat, d: nat, e: nat, f: nat)
    requires
        d < 16,
    ensures
        is_v4_uuid(uuid_chars(a, b, c, d, e, f)),
{
    lemma_hex_group(a, 8);
    lemma_hex_group(b, 4);
    lemma_hex_group(c, 3);
    lemma_hex_group(e, 3);
    lemma_hex_group(f, 12);
    let d64 = d as u64;
    assert(8u64 <= (8u64 | (3u64 & d64)) <= 11u64) by (bit_vector);
    lemma_hex_char(variant_nibble(d));
    lemma_hex_char(4);
    let s = uuid_chars(a, b, c, d, e, f);
    assert forall|i: int| 0 <= i < 36 implies if i == 8 || i == 13 || i == 18 || i == 23 {
        s[i] == '-'
    } else {
        is_hex_char(#[trigger] s[i])
    } by {
        if i < 8 {
            assert(s[i] == hex_group(a, 8)[i]);
        } else if 8 < i < 13 {
            assert(s[i] == hex_group(b, 4)[i - 9]);
        } else if 15 <= i < 18 {
            assert(s[i] == hex_group(c, 3)[i - 15]);
        } else if 20 <= i < 23 {
            assert(s[i] == hex_group(e, 3)[i - 20]);
        } else if 23 < i {
            assert(s[i] == hex_group(f, 12)[i - 24]);
        }
    }
}

/// Appends `hex_group(v, w)` to `s`.
fn push_hex(s: &mut String, v: u64, w: u64)
    ensures
        final(s)@ == old(s)@ + hex_group(v as nat, w as nat),
    decreases w,
{
    if w > 0 {
        push_hex(s, v / 16, w - 1);
        let n: usize = (v % 16) as usize;
        proof {
            reveal_strlit("0123456789abcdef");
        }
        let digit = "0123456789abcdef".substring_char(n, n + 1);
        s.append(digit);
        proof {
            assert(digit@ =~= seq![hex_char(v as nat % 16)]);
        }
        assert(final(s)@ =~= old(s)@ + hex_group(v as nat, w as nat));
    }
}

/// Formats the identifier made from six draws (see `uuid_chars`); with these
/// bounds each draw fills its group exactly.
pub fn uuid_from_draws(a: u64, b: u64, c: u64, d: u64, e: u64, f: u64) -> (r: String)
    requires
        a < 0x1_0000_0000,
        b < 0x1_0000,
        c < 0x1000,
        d < 16,
        e < 0x1000,
        f < 0x1_0000_0000_0000,
    ensures
        r@ == uuid_chars(a as nat, b as nat, c as nat, d as nat, e as nat, f as nat),
        is_v4_uuid(r@),
{
    let mut s = String::new();
    push_hex(&mut s, a, 8);
    s.append("-");
    push_hex(&mut s, b, 4);
    s.append("-");
    push_hex(&mut s, 4, 1);
    push_hex(&mut s, c, 3);
    s.append("-");
    let v: u64 = 8u64 | (3u64 & d);
    assert(v < 16) by (bit_vector)
        requires v == 8u64 | (3u64 & d);
    push_hex(&mut s, v, 1);
    push_hex(&mut s, e, 3);
    s.append("-");
    push_hex(&mut s, f, 12);
    proof {
        reveal_strlit("-");
        reveal_with_fuel(hex_group, 2);
        assert(hex_group(4, 1) =~= seq![hex_char(4)]);
        lemma_hex_char(4);
        assert(hex_group(v as nat, 1) =~= seq![hex_char(variant_nibble(d as nat))]);
        assert(s@ =~= uuid_chars(a as nat, b as nat, c as nat, d as nat, e as nat, f as nat));
        lemma_uuid_is_v4(a as nat, b as nat, c as nat, d as nat, e as nat, f as nat);
    }
    s
}

/// Relies on rand's `thread_rng().gen_range(0, bound)`: a value in `[0, bound)`;
/// it panics when the range is empty, which `requires` excludes.
#[verifier::external_body]
fn random_below(bound: u64) -> (r: u64)
    requires
        bound > 0,
    ensures
        r < bound,
{
    rand::thread_rng().gen_range(0, bound)
}

/// A fresh random version-4 identifier.
pub fn random_uuid() -> (r: String)
    ensures
        is_v4_uuid(r@),
{
    let a = random_below(0x1_0000_0000);
    let b = random_below(0x1_0000);
    let c = random_below(0x1000);
    let d = random_below(16);
    let e = random_below(0x1000);
    let f = random_below(0x1_0000_0000_0000);
    uuid_from_draws(a, b, c, d, e, f)
}

} // verus!
