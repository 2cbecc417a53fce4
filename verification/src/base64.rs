//! Lenient base64 decoding of the parameter sets carried in SDP.

use vstd::prelude::*;
use crate::text::{
    is_ascii_ws, is_ws2, is_ws3, leading_ws_len, trailing_ws_len, trim, trim_bounds, trim_end,
    trim_start,
};
use vstd::string::StringSliceAdditionalSpecFns;

verus! {

/// The 6-bit value a base64 alphabet byte stands for.
pub open spec fn base64_value(b: u8) -> Option<u8> {
    if 65 <= b <= 90 {
        Some((b - 65) as u8)
    } else if 97 <= b <= 122 {
        Some((b - 97 + 26) as u8)
    } else if 48 <= b <= 57 {
        Some((b - 48 + 52) as u8)
    } else if b == 43 {
        Some(62u8)
    } else if b == 47 {
        Some(63u8)
    } else {
        None
    }
}

/// The 6-bit values of the alphabet bytes of `s` before its first `=`;
/// bytes outside the alphabet are skipped.
pub open spec fn base64_sextets(s: Seq<u8>) -> Seq<u8>
    decreases s.len(),
{
    if s.len() == 0 || s[0] == 61 {
        Seq::empty()
    } else {
        match base64_value(s[0]) {
            Some(v) => seq![v] + base64_sextets(s.skip(1)),
            None => base64_sextets(s.skip(1)),
        }
    }
}

/// The bytes that a run of 6-bit values spells, eight bits at a time; bits
/// that do not fill a whole byte at the end are dropped.
pub open spec fn sextets_to_bytes(v: Seq<u8>) -> Seq<u8>
    decreases v.len(),
{
    let b0 = (v[0] * 4 + v[1] / 16) as u8;
    let b1 = ((v[1] % 16) * 16 + v[2] / 4) as u8;
    let b2 = ((v[2] % 4) * 64 + v[3]) as u8;
    if v.len() >= 4 {
        seq![b0, b1, b2] + sextets_to_bytes(v.skip(4))
    } else if v.len() == 3 {
        seq![b0, b1]
    } else if v.len() == 2 {
        seq![b0]
    } else {
        Seq::empty()
    }
}

/// What `decode_base64` yields for the bytes of its input.
pub open spec fn base64_decoded(s: Seq<u8>) -> Seq<u8> {
    sextets_to_bytes(base64_sextets(trim(s)))
}

/// The 6-bit value of one alphabet byte.
pub fn base64_value_of(b: u8) -> (r: Option<u8>)
    ensures
        r == base64_value(b),
{
    if 65 <= b && b <= 90 {
        Some(b - 65)
    } else if 97 <= b && b <= 122 {
        Some(b - 97 + 26)
    } else if 48 <= b && b <= 57 {
        Some(b - 48 + 52)
    } else if b == 43 {
        Some(62)
    } else if b == 47 {
        Some(63)
    } else {
        None
    }
}

proof fn lemma_sextets_small(s: Seq<u8>)
    ensures
        forall|i: int| 0 <= i < base64_sextets(s).len() ==> base64_sextets(s)[i] < 64,
    decreases s.len(),
{
    if s.len() > 0 && s[0] != 61 {
        lemma_sextets_small(s.skip(1));
        let r = base64_sextets(s.skip(1));
        match base64_value(s[0]) {
            Some(v) => {
                assert forall|i: int| 0 <= i < base64_sextets(s).len() implies base64_sextets(
                    s,
                )[i] < 64 by {
                    if i > 0 {
                        assert(base64_sextets(s)[i] == r[i - 1]);
                    }
                }
            },
            None => {},
        }
    }
}

/// Decodes base64 text after trimming it: decoding stops at the first `=`,
/// bytes outside the alphabet are skipped, and trailing bits that do not
/// fill a byte are dropped. It never fails.
pub fn decode_base64(input: &str) -> (r: Option<Vec<u8>>)
    ensures
        r matches Some(v) && v@ == base64_decoded(input.spec_bytes()),
{
    Some(decode_base64_bytes(input.as_bytes()))
}

/// `decode_base64` on the bytes of a text.
pub fn decode_base64_bytes(bytes: &[u8]) -> (r: Vec<u8>)
    ensures
        r@ == base64_decoded(bytes@),
{
    let (a, b) = trim_bounds(bytes, 0, bytes.len());
    let ghost t = bytes@.subrange(a as int, b as int);
    assert(bytes@.subrange(0, bytes@.len() as int) =~= bytes@);
    let mut vals: Vec<u8> = Vec::new();
    let mut i: usize = a;
    assert(bytes@.subrange(a as int, b as int).skip(0) =~= t);
    loop
        invariant
            a <= i <= b <= bytes@.len(),
            t == bytes@.subrange(a as int, b as int),
            base64_sextets(t) == vals@ + base64_sextets(bytes@.subrange(i as int, b as int)),
        ensures
            base64_sextets(t) == vals@,
        decreases b - i,
    {
        if i == b {
            break;
        }
        let c = bytes[i];
        let ghost rest = bytes@.subrange(i as int, b as int);
        assert(rest[0] == c);
        assert(rest.skip(1) =~= bytes@.subrange(i + 1, b as int));
        if c == 61 {
            assert(base64_sextets(rest) =~= Seq::<u8>::empty());
            assert(vals@ + Seq::<u8>::empty() =~= vals@);
            break;
        }
        match base64_value_of(c) {
            Some(v) => {
                assert(vals@.push(v) + base64_sextets(bytes@.subrange(i + 1, b as int)) =~= vals@
                    + (seq![v] + base64_sextets(bytes@.subrange(i + 1, b as int))));
                vals.push(v);
            },
            None => {},
        }
        i = i + 1;
    }
    let ghost sx = base64_sextets(t);
    proof {
        lemma_sextets_small(t);
    }
    assert(vals@ == sx);
    let mut out: Vec<u8> = Vec::new();
    let n = vals.len();
    let mut k: usize = 0;
    assert(sx.skip(0) =~= sx);
    while n - k >= 4
        invariant
            n == vals@.len(),
            vals@ == sx,
            k <= n,
            forall|j: int| 0 <= j < n ==> sx[j] < 64,
            sextets_to_bytes(sx) == out@ + sextets_to_bytes(sx.skip(k as int)),
        decreases n - k,
    {
        let v0 = vals[k];
        let v1 = vals[k + 1];
        let v2 = vals[k + 2];
        let v3 = vals[k + 3];
        let ghost rest = sx.skip(k as int);
        assert(rest[0] == v0 && rest[1] == v1 && rest[2] == v2 && rest[3] == v3);
        assert(rest.skip(4) =~= sx.skip(k + 4));
        let b0 = (v0 * 4 + v1 / 16) as u8;
        let b1 = ((v1 % 16) * 16 + v2 / 4) as u8;
        let b2 = ((v2 % 4) * 64 + v3) as u8;
        assert(out@.push(b0).push(b1).push(b2) + sextets_to_bytes(sx.skip(k + 4)) =~= out@ + (
        seq![b0, b1, b2] + sextets_to_bytes(sx.skip(k + 4))));
        out.push(b0);
        out.push(b1);
        out.push(b2);
        k = k + 4;
    }
    let ghost rest = sx.skip(k as int);
    let left = n - k;
    if left >= 2 {
        let v0 = vals[k];
        let v1 = vals[k + 1];
        assert(rest[0] == v0 && rest[1] == v1);
        out.push((v0 * 4 + v1 / 16) as u8);
        if left == 3 {
            let v2 = vals[k + 2];
            assert(rest[2] == v2);
            out.push(((v1 % 16) * 16 + v2 / 4) as u8);
        }
    }
    assert(out@ =~= base64_decoded(bytes@));
    out
}

// ---------------------------------------------------------------------------
// Laws
// ---------------------------------------------------------------------------

/// No `=` occurs in `s`.
pub open spec fn no_padding(s: Seq<u8>) -> bool {
    forall|i: int| 0 <= i < s.len() ==> s[i] != 61
}

/// A byte that decoding skips: outside the alphabet and not `=`.
pub open spec fn is_foreign(b: u8) -> bool {
    base64_value(b) is None && b != 61
}

/// The sextets of two texts one after the other: those of the first, and
/// those of the second unless the first holds a `=`.
proof fn lemma_sextets_concat(a: Seq<u8>, b: Seq<u8>)
    ensures
        base64_sextets(a + b) == if no_padding(a) {
            base64_sextets(a) + base64_sextets(b)
        } else {
            base64_sextets(a)
        },
    decreases a.len(),
{
    if a.len() == 0 {
        assert(a + b =~= b);
        assert(base64_sextets(a) + base64_sextets(b) =~= base64_sextets(b));
    } else {
        assert((a + b)[0] == a[0]);
        assert((a + b).skip(1) =~= a.skip(1) + b);
        lemma_sextets_concat(a.skip(1), b);
        if a[0] != 61 {
            assert(no_padding(a) == no_padding(a.skip(1))) by {
                if no_padding(a.skip(1)) {
                    assert forall|i: int| 0 <= i < a.len() implies a[i] != 61 by {
                        if i > 0 {
                            assert(a[i] == a.skip(1)[i - 1]);
                        }
                    }
                }
                if no_padding(a) {
                    assert forall|i: int| 0 <= i < a.skip(1).len() implies a.skip(1)[i] != 61 by {
                        assert(a.skip(1)[i] == a[i + 1]);
                    }
                }
            }
            match base64_value(a[0]) {
                Some(v) => {
                    assert(seq![v] + (base64_sextets(a.skip(1)) + base64_sextets(b)) =~= seq![v]
                        + base64_sextets(a.skip(1)) + base64_sextets(b));
                },
                None => {},
            }
        } else {
            assert(!no_padding(a));
        }
    }
}

/// Text made only of skipped bytes gives no sextets.
proof fn lemma_sextets_foreign(x: Seq<u8>)
    requires
        forall|i: int| 0 <= i < x.len() ==> is_foreign(#[trigger] x[i]),
    ensures
        base64_sextets(x) == Seq::<u8>::empty(),
        no_padding(x),
    decreases x.len(),
{
    if x.len() > 0 {
        assert(is_foreign(x[0]));
        lemma_sextets_foreign(x.skip(1));
        assert forall|i: int| 0 <= i < x.len() implies x[i] != 61 by {
            assert(is_foreign(x[i]));
        }
    }
}

/// White-space bytes are skipped.
proof fn lemma_ws_bytes_foreign(s: Seq<u8>, n: int)
    requires
        n == 1 && s.len() >= 1 && is_ascii_ws(s[0]) || n == 2 && s.len() >= 2 && is_ws2(s[0], s[1])
            || n == 3 && s.len() >= 3 && is_ws3(s[0], s[1], s[2]),
    ensures
        forall|i: int| 0 <= i < n ==> is_foreign(#[trigger] s.take(n)[i]),
{
    assert forall|i: int| 0 <= i < n implies is_foreign(#[trigger] s.take(n)[i]) by {
        assert(s.take(n)[i] == s[i]);
    }
}

/// Trimming does not change the sextets: white space is skipped anyway.
pub proof fn lemma_sextets_ignore_trim(s: Seq<u8>)
    ensures
        base64_sextets(trim(s)) == base64_sextets(s),
{
    lemma_sextets_trim_start(s);
    lemma_sextets_trim_end(trim_start(s));
}

proof fn lemma_sextets_trim_start(s: Seq<u8>)
    ensures
        base64_sextets(trim_start(s)) == base64_sextets(s),
    decreases s.len(),
{
    let n = leading_ws_len(s);
    if n > 0 {
        lemma_ws_bytes_foreign(s, n);
        lemma_sextets_foreign(s.take(n));
        lemma_sextets_concat(s.take(n), s.skip(n));
        assert(s.take(n) + s.skip(n) =~= s);
        assert(base64_sextets(s.take(n)) + base64_sextets(s.skip(n)) =~= base64_sextets(s.skip(n)));
        lemma_sextets_trim_start(s.skip(n));
    }
}

proof fn lemma_sextets_trim_end(s: Seq<u8>)
    ensures
        base64_sextets(trim_end(s)) == base64_sextets(s),
    decreases s.len(),
{
    let n = trailing_ws_len(s);
    if n > 0 {
        let k = s.len() - n;
        let w = s.skip(k);
        lemma_ws_bytes_foreign(w, n);
        assert(w.take(n) =~= w);
        lemma_sextets_foreign(w);
        lemma_sextets_concat(s.take(k), w);
        assert(s.take(k) + w =~= s);
        assert(base64_sextets(s.take(k)) + base64_sextets(w) =~= base64_sextets(s.take(k)));
        lemma_sextets_trim_end(s.take(k));
    }
}

/// Decoding stops at the first `=`: whatever follows it is ignored.
pub proof fn lemma_decoding_stops_at_padding(s: Seq<u8>, t: Seq<u8>)
    ensures
        base64_decoded(s + seq![61u8] + t) == base64_decoded(s),
{
    lemma_sextets_ignore_trim(s + seq![61u8] + t);
    lemma_sextets_ignore_trim(s);
    lemma_sextets_concat(s, seq![61u8] + t);
    assert(s + seq![61u8] + t =~= s + (seq![61u8] + t));
    assert((seq![61u8] + t)[0] == 61);
    assert(base64_sextets(seq![61u8] + t) =~= Seq::<u8>::empty());
    assert(base64_sextets(s) + Seq::<u8>::empty() =~= base64_sextets(s));
}

/// Bytes outside the alphabet (other than `=`) are skipped wherever they
/// stand: inserting or removing them does not change what decodes.
pub proof fn lemma_decoding_skips_foreign_bytes(a: Seq<u8>, x: Seq<u8>, c: Seq<u8>)
    requires
        forall|i: int| 0 <= i < x.len() ==> is_foreign(#[trigger] x[i]),
    ensures
        base64_decoded(a + x + c) == base64_decoded(a + c),
{
    lemma_sextets_ignore_trim(a + x + c);
    lemma_sextets_ignore_trim(a + c);
    lemma_sextets_foreign(x);
    assert(a + x + c =~= a + (x + c));
    lemma_sextets_concat(a, x + c);
    lemma_sextets_concat(a, c);
    lemma_sextets_concat(x, c);
    assert(base64_sextets(x) + base64_sextets(c) =~= base64_sextets(c));
}

/// The bytes of `s` that decoding looks at: the alphabet bytes and `=`,
/// in order.
pub open spec fn significant_bytes(s: Seq<u8>) -> Seq<u8>
    decreases s.len(),
{
    if s.len() == 0 {
        Seq::empty()
    } else if is_foreign(s[0]) {
        significant_bytes(s.skip(1))
    } else {
        seq![s[0]] + significant_bytes(s.skip(1))
    }
}

proof fn lemma_sextets_significant(s: Seq<u8>)
    ensures
        base64_sextets(s) == base64_sextets(significant_bytes(s)),
    decreases s.len(),
{
    if s.len() > 0 {
        lemma_sextets_significant(s.skip(1));
        if !is_foreign(s[0]) {
            let k = seq![s[0]] + significant_bytes(s.skip(1));
            assert(k[0] == s[0]);
            assert(k.skip(1) =~= significant_bytes(s.skip(1)));
        }
    }
}

/// Decoding looks only at the alphabet bytes and `=`, in order: two texts
/// that differ only in other bytes, inserted or removed anywhere, decode
/// alike.
pub proof fn lemma_decoding_depends_on_significant_bytes(s: Seq<u8>, s2: Seq<u8>)
    requires
        significant_bytes(s) == significant_bytes(s2),
    ensures
        base64_decoded(s) == base64_decoded(s2),
{
    lemma_sextets_ignore_trim(s);
    lemma_sextets_ignore_trim(s2);
    lemma_sextets_significant(s);
    lemma_sextets_significant(s2);
}

/// Decoding gives `6 * k / 8` bytes (rounded down) for the `k` alphabet
/// bytes before the first `=`.
pub proof fn lemma_decoded_len(s: Seq<u8>)
    ensures
        base64_decoded(s).len() == 6 * base64_sextets(s).len() / 8,
{
    lemma_sextets_ignore_trim(s);
    lemma_sextets_to_bytes_len(base64_sextets(s));
}

proof fn lemma_sextets_to_bytes_len(v: Seq<u8>)
    ensures
        sextets_to_bytes(v).len() == 6 * v.len() / 8,
    decreases v.len(),
{
    if v.len() >= 4 {
        lemma_sextets_to_bytes_len(v.skip(4));
    }
}

/// The alphabet byte that stands for a 6-bit value.
pub open spec fn base64_char(v: u8) -> u8 {
    if v < 26 {
        (65 + v) as u8
    } else if v < 52 {
        (97 + v - 26) as u8
    } else if v < 62 {
        (48 + v - 52) as u8
    } else if v == 62 {
        43u8
    } else {
        47u8
    }
}

/// The standard (RFC 4648) base64 encoding of `b`: each three bytes become
/// four alphabet bytes; one or two bytes left over become two or three,
/// followed by `==` or `=` when `pad` is set.
pub open spec fn base64_encoded(b: Seq<u8>, pad: bool) -> Seq<u8>
    decreases b.len(),
{
    if b.len() >= 3 {
        seq![
            base64_char(b[0] / 4),
            base64_char(((b[0] % 4) * 16 + b[1] / 16) as u8),
            base64_char(((b[1] % 16) * 4 + b[2] / 64) as u8),
            base64_char(b[2] % 64),
        ] + base64_encoded(b.skip(3), pad)
    } else if b.len() == 2 {
        seq![
            base64_char(b[0] / 4),
            base64_char(((b[0] % 4) * 16 + b[1] / 16) as u8),
            base64_char(((b[1] % 16) * 4) as u8),
        ] + if pad {
            seq![61u8]
        } else {
            Seq::empty()
        }
    } else if b.len() == 1 {
        seq![base64_char(b[0] / 4), base64_char(((b[0] % 4) * 16) as u8)] + if pad {
            seq![61u8, 61u8]
        } else {
            Seq::empty()
        }
    } else {
        Seq::empty()
    }
}

proof fn lemma_char_value(v: u8)
    requires
        v < 64,
    ensures
        base64_value(base64_char(v)) == Some(v),
        base64_char(v) != 61,
{
}

/// An alphabet byte in front adds its value in front.
proof fn lemma_sextets_cons(v: u8, r: Seq<u8>)
    requires
        v < 64,
    ensures
        base64_sextets(seq![base64_char(v)] + r) == seq![v] + base64_sextets(r),
{
    lemma_char_value(v);
    let s = seq![base64_char(v)] + r;
    assert(s[0] == base64_char(v));
    assert(s.skip(1) =~= r);
}

proof fn lemma_round_trip_sextets(b: Seq<u8>, pad: bool)
    ensures
        sextets_to_bytes(base64_sextets(base64_encoded(b, pad))) == b,
    decreases b.len(),
{
    let e = base64_encoded(b, pad);
    if b.len() >= 3 {
        let (b0, b1, b2) = (b[0], b[1], b[2]);
        let v0 = b0 / 4;
        let v1 = ((b0 % 4) * 16 + b1 / 16) as u8;
        let v2 = ((b1 % 16) * 4 + b2 / 64) as u8;
        let v3 = b2 % 64;
        lemma_char_value(v0);
        lemma_char_value(v1);
        lemma_char_value(v2);
        lemma_char_value(v3);
        let head = seq![base64_char(v0), base64_char(v1), base64_char(v2), base64_char(v3)];
        let rest = base64_encoded(b.skip(3), pad);
        assert(e == head + rest);
        assert(no_padding(head));
        lemma_sextets_concat(head, rest);
        assert(base64_sextets(head) =~= seq![v0, v1, v2, v3]) by {
            let e0: Seq<u8> = Seq::empty();
            lemma_sextets_cons(v3, e0);
            lemma_sextets_cons(v2, seq![base64_char(v3)] + e0);
            lemma_sextets_cons(v1, seq![base64_char(v2)] + (seq![base64_char(v3)] + e0));
            lemma_sextets_cons(
                v0,
                seq![base64_char(v1)] + (seq![base64_char(v2)] + (seq![base64_char(v3)] + e0)),
            );
            assert(head =~= seq![base64_char(v0)] + (seq![base64_char(v1)] + (seq![base64_char(v2)] + (
            seq![base64_char(v3)] + e0))));
        }
        let sx = seq![v0, v1, v2, v3] + base64_sextets(rest);
        assert(sx.skip(4) =~= base64_sextets(rest));
        lemma_round_trip_sextets(b.skip(3), pad);
        assert(((v0 * 4 + v1 / 16) as u8) == b0 && (((v1 % 16) * 16 + v2 / 4) as u8) == b1 && (((v2
            % 4) * 64 + v3) as u8) == b2) by (bit_vector)
            requires
                v0 == b0 / 4,
                v1 == ((b0 % 4) * 16 + b1 / 16) as u8,
                v2 == ((b1 % 16) * 4 + b2 / 64) as u8,
                v3 == b2 % 64,
        ;
        assert(sextets_to_bytes(sx) =~= seq![b0, b1, b2] + b.skip(3));
        assert(seq![b0, b1, b2] + b.skip(3) =~= b);
    } else if b.len() == 2 {
        let (b0, b1) = (b[0], b[1]);
        let v0 = b0 / 4;
        let v1 = ((b0 % 4) * 16 + b1 / 16) as u8;
        let v2 = ((b1 % 16) * 4) as u8;
        lemma_char_value(v0);
        lemma_char_value(v1);
        lemma_char_value(v2);
        let head = seq![base64_char(v0), base64_char(v1), base64_char(v2)];
        let tail: Seq<u8> = if pad {
            seq![61u8]
        } else {
            Seq::empty()
        };
        assert(e == head + tail);
        lemma_sextets_concat(head, tail);
        assert(base64_sextets(head) =~= seq![v0, v1, v2]) by {
            let e0: Seq<u8> = Seq::empty();
            lemma_sextets_cons(v2, e0);
            lemma_sextets_cons(v1, seq![base64_char(v2)] + e0);
            lemma_sextets_cons(v0, seq![base64_char(v1)] + (seq![base64_char(v2)] + e0));
            assert(head =~= seq![base64_char(v0)] + (seq![base64_char(v1)] + (seq![base64_char(v2)]
                + e0)));
        }
        assert(base64_sextets(tail) =~= Seq::<u8>::empty());
        assert(seq![v0, v1, v2] + Seq::<u8>::empty() =~= seq![v0, v1, v2]);
        assert(((v0 * 4 + v1 / 16) as u8) == b0 && (((v1 % 16) * 16 + v2 / 4) as u8) == b1)
            by (bit_vector)
            requires
                v0 == b0 / 4,
                v1 == ((b0 % 4) * 16 + b1 / 16) as u8,
                v2 == ((b1 % 16) * 4) as u8,
        ;
        assert(sextets_to_bytes(seq![v0, v1, v2]) =~= b);
    } else if b.len() == 1 {
        let b0 = b[0];
        let v0 = b0 / 4;
        let v1 = ((b0 % 4) * 16) as u8;
        lemma_char_value(v0);
        lemma_char_value(v1);
        let head = seq![base64_char(v0), base64_char(v1)];
        let tail: Seq<u8> = if pad {
            seq![61u8, 61u8]
        } else {
            Seq::empty()
        };
        assert(e == head + tail);
        lemma_sextets_concat(head, tail);
        assert(base64_sextets(head) =~= seq![v0, v1]) by {
            let e0: Seq<u8> = Seq::empty();
            lemma_sextets_cons(v1, e0);
            lemma_sextets_cons(v0, seq![base64_char(v1)] + e0);
            assert(head =~= seq![base64_char(v0)] + (seq![base64_char(v1)] + e0));
        }
        assert(base64_sextets(tail) =~= Seq::<u8>::empty());
        assert(seq![v0, v1] + Seq::<u8>::empty() =~= seq![v0, v1]);
        assert(((v0 * 4 + v1 / 16) as u8) == b0) by (bit_vector)
            requires
                v0 == b0 / 4,
                v1 == ((b0 % 4) * 16) as u8,
        ;
        assert(sextets_to_bytes(seq![v0, v1]) =~= b);
    } else {
        assert(b =~= Seq::<u8>::empty());
    }
}

/// Decoding the standard base64 encoding of any bytes, padded or not,
/// gives those bytes back (so the parameter sets of an SDP decode to the
/// SPS and PPS units they encode).
pub proof fn lemma_base64_round_trip(b: Seq<u8>, pad: bool)
    ensures
        base64_decoded(base64_encoded(b, pad)) == b,
{
    lemma_sextets_ignore_trim(base64_encoded(b, pad));
    lemma_round_trip_sextets(b, pad);
}

} // verus!
