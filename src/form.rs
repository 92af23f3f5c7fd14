//! The `application/x-www-form-urlencoded` body that carries a job's
//! parameters: bytes other than ASCII letters, digits and `*-._` are written
//! as `%XX` (a space as `+`), keys and values are joined by `=`, pairs by `&`.
use vstd::prelude::*;
use crate::params::{first_index_of, lemma_first_index_is};
use vstd::utf8::encode_utf8;

verus! {

pub open spec fn is_unreserved(b: u8) -> bool {
    (48 <= b <= 57) || (65 <= b <= 90) || (97 <= b <= 122) || b == 42 || b == 45 || b == 46
        || b == 95
}

/// Upper-case hex digit of `d < 16`.
pub open spec fn hex_digit(d: u8) -> u8 {
    if d < 10 {
        (48 + d) as u8
    } else {
        (55 + d) as u8
    }
}

pub open spec fn is_hex(c: u8) -> bool {
    (48 <= c <= 57) || (65 <= c <= 70) || (97 <= c <= 102)
}

pub open spec fn hex_value(c: u8) -> u8 {
    if 48 <= c <= 57 {
        (c - 48) as u8
    } else if 65 <= c <= 70 {
        (c - 55) as u8
    } else {
        (c - 87) as u8
    }
}

/// The encoding of one byte.
pub open spec fn enc_byte(b: u8) -> Seq<u8> {
    if is_unreserved(b) {
        seq![b]
    } else if b == 32 {
        seq![43u8]
    } else {
        seq![37u8, hex_digit(b / 16), hex_digit(b % 16)]
    }
}

/// The encoding of a key or a value.
pub open spec fn enc_bytes(s: Seq<u8>) -> Seq<u8>
    decreases s.len(),
{
    if s.len() == 0 {
        Seq::empty()
    } else {
        enc_bytes(s.drop_last()) + enc_byte(s.last())
    }
}

/// Decoding of a key or a value: `+` is a space, `%XX` with two hex digits is
/// that byte, every other byte stands for itself.
pub open spec fn dec_bytes(t: Seq<u8>) -> Seq<u8>
    decreases t.len(),
{
    if t.len() == 0 {
        Seq::empty()
    } else if t[0] == 43 {
        seq![32u8] + dec_bytes(t.subrange(1, t.len() as int))
    } else if t[0] == 37 && t.len() >= 3 && is_hex(t[1]) && is_hex(t[2]) {
        seq![(hex_value(t[1]) * 16 + hex_value(t[2])) as u8] + dec_bytes(
            t.subrange(3, t.len() as int),
        )
    } else {
        seq![t[0]] + dec_bytes(t.subrange(1, t.len() as int))
    }
}

pub open spec fn enc_pair(p: (Seq<u8>, Seq<u8>)) -> Seq<u8> {
    enc_bytes(p.0) + seq![61u8] + enc_bytes(p.1)
}

/// The body for a list of key/value pairs.
pub open spec fn enc_pairs(ps: Seq<(Seq<u8>, Seq<u8>)>) -> Seq<u8>
    decreases ps.len(),
{
    if ps.len() == 0 {
        Seq::empty()
    } else if ps.len() == 1 {
        enc_pair(ps[0])
    } else {
        enc_pairs(ps.drop_last()) + seq![38u8] + enc_pair(ps.last())
    }
}

/// One `&`-separated segment read as a pair: split at its first `=`; with no
/// `=` the whole segment is the key and the value is empty.
pub open spec fn dec_pair(seg: Seq<u8>) -> (Seq<u8>, Seq<u8>) {
    let j = first_index_of(seg, 61u8);
    if j < seg.len() {
        (dec_bytes(seg.take(j as int)), dec_bytes(seg.skip(j + 1int)))
    } else {
        (dec_bytes(seg), Seq::empty())
    }
}

/// The pairs of a body; empty segments are skipped.
pub open spec fn dec_pairs(t: Seq<u8>) -> Seq<(Seq<u8>, Seq<u8>)>
    decreases t.len(),
{
    if t.len() == 0 {
        Seq::empty()
    } else {
        let i = first_index_of(t, 38u8);
        let rest = if i < t.len() {
            dec_pairs(t.skip(i + 1int))
        } else {
            Seq::empty()
        };
        if i == 0 {
            rest
        } else {
            seq![dec_pair(t.take(i as int))] + rest
        }
    }
}

pub open spec fn lacks(s: Seq<u8>, c: u8) -> bool {
    forall|j: int| 0 <= j < s.len() ==> s[j] != c
}

proof fn lemma_enc_bytes_front(s: Seq<u8>)
    requires
        s.len() > 0,
    ensures
        enc_bytes(s) == enc_byte(s[0]) + enc_bytes(s.drop_first()),
    decreases s.len(),
{
    if s.len() == 1 {
        assert(s.drop_last() =~= Seq::<u8>::empty());
        assert(s.drop_first() =~= Seq::<u8>::empty());
        assert(enc_bytes(s) =~= enc_byte(s[0]) + enc_bytes(s.drop_first()));
    } else {
        lemma_enc_bytes_front(s.drop_last());
        assert(s.drop_last().drop_first() =~= s.drop_first().drop_last());
        assert(s.drop_first().last() == s.last());
        assert(enc_bytes(s) =~= enc_byte(s[0]) + enc_bytes(s.drop_first()));
    }
}

proof fn lemma_enc_bytes_lacks(s: Seq<u8>)
    ensures
        lacks(enc_bytes(s), 38u8),
        lacks(enc_bytes(s), 61u8),
    decreases s.len(),
{
    if s.len() > 0 {
        lemma_enc_bytes_lacks(s.drop_last());
        let b = s.last();
        assert(b / 16 < 16 && b % 16 < 16) by (bit_vector);
        let a = enc_bytes(s.drop_last());
        let e = enc_byte(b);
        assert forall|j: int| 0 <= j < (a + e).len() implies (a + e)[j] != 38u8 && (a + e)[j]
            != 61u8 by {
            if j >= a.len() {
                assert((a + e)[j] == e[j - a.len()]);
            }
        }
    }
}

proof fn lemma_hex_round_trip(d: u8)
    requires
        d < 16,
    ensures
        is_hex(hex_digit(d)),
        hex_value(hex_digit(d)) == d,
{
}

proof fn lemma_dec_enc_bytes(s: Seq<u8>)
    ensures
        dec_bytes(enc_bytes(s)) == s,
    decreases s.len(),
{
    if s.len() == 0 {
        assert(enc_bytes(s) =~= Seq::<u8>::empty());
        assert(dec_bytes(enc_bytes(s)) =~= s);
    } else {
        lemma_enc_bytes_front(s);
        lemma_dec_enc_bytes(s.drop_first());
        let b = s[0];
        let e = enc_byte(b);
        let r = enc_bytes(s.drop_first());
        let t = e + r;
        if is_unreserved(b) || b == 32 {
            assert(t.subrange(1, t.len() as int) =~= r);
        } else {
            let hi = b / 16;
            let lo = b % 16;
            assert(hi < 16 && lo < 16 && (hi * 16 + lo) as u8 == b) by (bit_vector)
                requires
                    hi == b / 16,
                    lo == b % 16,
            ;
            lemma_hex_round_trip(hi);
            lemma_hex_round_trip(lo);
            assert(t[1] == hex_digit(hi));
            assert(t[2] == hex_digit(lo));
            assert(t.subrange(3, t.len() as int) =~= r);
        }
        assert(dec_bytes(t) =~= seq![b] + s.drop_first());
        assert(seq![b] + s.drop_first() =~= s);
    }
}

proof fn lemma_first_index_after<A>(a: Seq<A>, c: A, b: Seq<A>)
    requires
        forall|j: int| 0 <= j < a.len() ==> a[j] != c,
    ensures
        first_index_of(a + b, c) == a.len() + first_index_of(b, c),
    decreases a.len(),
{
    if a.len() == 0 {
        assert(a + b =~= b);
    } else {
        lemma_first_index_after(a.drop_first(), c, b);
        assert((a + b).drop_first() =~= a.drop_first() + b);
        assert((a + b)[0] == a[0]);
    }
}

proof fn lemma_enc_pairs_front(ps: Seq<(Seq<u8>, Seq<u8>)>)
    requires
        ps.len() >= 2,
    ensures
        enc_pairs(ps) == enc_pair(ps[0]) + seq![38u8] + enc_pairs(ps.drop_first()),
    decreases ps.len(),
{
    if ps.len() == 2 {
        assert(ps.drop_last() =~= seq![ps[0]]);
        assert(ps.drop_first() =~= seq![ps[1]]);
        assert(enc_pairs(ps.drop_last()) == enc_pair(ps[0]));
        assert(enc_pairs(ps.drop_first()) == enc_pair(ps[1]));
    } else {
        lemma_enc_pairs_front(ps.drop_last());
        assert(ps.drop_last().drop_first() =~= ps.drop_first().drop_last());
        assert(ps.drop_first().last() == ps.last());
        assert(enc_pairs(ps) =~= enc_pair(ps[0]) + seq![38u8] + enc_pairs(ps.drop_first()));
    }
}

proof fn lemma_dec_enc_pair(p: (Seq<u8>, Seq<u8>))
    ensures
        dec_pair(enc_pair(p)) == p,
        lacks(enc_pair(p), 38u8),
        enc_pair(p).len() > 0,
{
    let k = enc_bytes(p.0);
    let v = enc_bytes(p.1);
    let seg = enc_pair(p);
    lemma_enc_bytes_lacks(p.0);
    lemma_enc_bytes_lacks(p.1);
    lemma_dec_enc_bytes(p.0);
    lemma_dec_enc_bytes(p.1);
    assert(seg =~= k + (seq![61u8] + v));
    lemma_first_index_after(k, 61u8, seq![61u8] + v);
    assert(first_index_of(seq![61u8] + v, 61u8) == 0);
    assert(seg.take(k.len() as int) =~= k);
    assert(seg.skip(k.len() + 1int) =~= v);
    assert forall|j: int| 0 <= j < seg.len() implies seg[j] != 38u8 by {
        if j < k.len() {
            assert(seg[j] == k[j]);
        } else if j > k.len() {
            assert(seg[j] == v[j - k.len() - 1]);
        }
    }
    assert(seg[k.len() as int] == 61u8);
}

/// Decoding a body recovers exactly the key/value pairs it was encoded from.
pub proof fn lemma_form_round_trip(ps: Seq<(Seq<u8>, Seq<u8>)>)
    ensures
        dec_pairs(enc_pairs(ps)) == ps,
    decreases ps.len(),
{
    if ps.len() == 0 {
        assert(dec_pairs(enc_pairs(ps)) =~= ps);
    } else {
        let head = enc_pair(ps[0]);
        lemma_dec_enc_pair(ps[0]);
        if ps.len() == 1 {
            lemma_first_index_after(head, 38u8, Seq::<u8>::empty());
            assert(head + Seq::<u8>::empty() =~= head);
            assert(head.take(head.len() as int) =~= head);
            assert(dec_pairs(enc_pairs(ps)) =~= ps);
        } else {
            let tail = enc_pairs(ps.drop_first());
            let t = enc_pairs(ps);
            lemma_enc_pairs_front(ps);
            lemma_form_round_trip(ps.drop_first());
            assert(t =~= head + (seq![38u8] + tail));
            lemma_first_index_after(head, 38u8, seq![38u8] + tail);
            assert(first_index_of(seq![38u8] + tail, 38u8) == 0);
            assert(t.take(head.len() as int) =~= head);
            assert(t.skip(head.len() + 1int) =~= tail);
            assert(dec_pairs(t) =~= seq![ps[0]] + ps.drop_first());
            assert(seq![ps[0]] + ps.drop_first() =~= ps);
        }
    }
}

/// The pairs of a parameter list as the bytes of their UTF-8 text.
pub open spec fn param_bytes(ps: Seq<(String, String)>) -> Seq<(Seq<u8>, Seq<u8>)> {
    ps.map_values(|p: (String, String)| (encode_utf8(p.0@), encode_utf8(p.1@)))
}

pub open spec fn pairs_view(v: Seq<(Vec<u8>, Vec<u8>)>) -> Seq<(Seq<u8>, Seq<u8>)> {
    v.map_values(|p: (Vec<u8>, Vec<u8>)| (p.0@, p.1@))
}

fn hex_digit_of(d: u8) -> (r: u8)
    requires
        d < 16,
    ensures
        r == hex_digit(d),
{
    if d < 10 {
        48 + d
    } else {
        55 + d
    }
}

fn push_encoded(out: &mut Vec<u8>, s: &[u8])
    ensures
        final(out)@ == old(out)@ + enc_bytes(s@),
{
    let mut i: usize = 0;
    while i < s.len()
        invariant
            i <= s@.len(),
            out@ == old(out)@ + enc_bytes(s@.take(i as int)),
        decreases s@.len() - i,
    {
        let b = s[i];
        proof {
            assert(s@.take(i + 1).drop_last() =~= s@.take(i as int));
            assert(s@.take(i + 1).last() == b);
        }
        let ghost before = out@;
        if (48 <= b && b <= 57) || (65 <= b && b <= 90) || (97 <= b && b <= 122) || b == 42 || b
            == 45 || b == 46 || b == 95 {
            out.push(b);
        } else if b == 32 {
            out.push(43);
        } else {
            out.push(37);
            out.push(hex_digit_of(b / 16));
            out.push(hex_digit_of(b % 16));
        }
        proof {
            assert(out@ =~= before + enc_byte(b));
        }
        i = i + 1;
    }
    assert(s@.take(s@.len() as int) =~= s@);
}

/// The form body for `params`, pairs in the given order.
pub fn encode_form(params: &Vec<(String, String)>) -> (r: Vec<u8>)
    ensures
        r@ == enc_pairs(param_bytes(params@)),
{
    let ghost q = param_bytes(params@);
    let mut out: Vec<u8> = Vec::new();
    let mut i: usize = 0;
    while i < params.len()
        invariant
            i <= params@.len(),
            q == param_bytes(params@),
            out@ == enc_pairs(q.take(i as int)),
        decreases params@.len() - i,
    {
        let ghost before = out@;
        if i > 0 {
            out.push(38);
        }
        let key = params[i].0.as_str().as_bytes();
        let val = params[i].1.as_str().as_bytes();
        push_encoded(&mut out, key);
        out.push(61);
        push_encoded(&mut out, val);
        proof {
            assert(q[i as int] == (key@, val@));
            let t = q.take(i + 1);
            assert(t.last() == q[i as int]);
            if i == 0 {
                assert(out@ =~= enc_pair(q[i as int]));
            } else {
                assert(t.drop_last() =~= q.take(i as int));
                assert(out@ =~= before + seq![38u8] + enc_pair(q[i as int]));
            }
        }
        i = i + 1;
    }
    assert(q.take(params@.len() as int) =~= q);
    out
}

fn is_hex_byte(c: u8) -> (r: bool)
    ensures
        r == is_hex(c),
{
    (48 <= c && c <= 57) || (65 <= c && c <= 70) || (97 <= c && c <= 102)
}

fn hex_value_of(c: u8) -> (r: u8)
    requires
        is_hex(c),
    ensures
        r == hex_value(c),
        r < 16,
{
    if 48 <= c && c <= 57 {
        c - 48
    } else if 65 <= c && c <= 70 {
        c - 55
    } else {
        c - 87
    }
}

fn decode_bytes(t: &[u8], a: usize, b: usize) -> (r: Vec<u8>)
    requires
        a <= b <= t@.len(),
    ensures
        r@ == dec_bytes(t@.subrange(a as int, b as int)),
{
    let mut out: Vec<u8> = Vec::new();
    let mut i: usize = a;
    while i < b
        invariant
            a <= i <= b <= t@.len(),
            out@ + dec_bytes(t@.subrange(i as int, b as int)) == dec_bytes(
                t@.subrange(a as int, b as int),
            ),
        decreases b - i,
    {
        let ghost u = t@.subrange(i as int, b as int);
        let ghost before = out@;
        let c = t[i];
        if c == 43 {
            proof {
                assert(u.subrange(1, u.len() as int) =~= t@.subrange(i + 1, b as int));
            }
            out.push(32);
            i = i + 1;
        } else if c == 37 && b - i >= 3 && is_hex_byte(t[i + 1]) && is_hex_byte(t[i + 2]) {
            proof {
                assert(u[1] == t@[i + 1]);
                assert(u[2] == t@[i + 2]);
                assert(u.subrange(3, u.len() as int) =~= t@.subrange(i + 3, b as int));
            }
            let hi = hex_value_of(t[i + 1]);
            let lo = hex_value_of(t[i + 2]);
            out.push(hi * 16 + lo);
            i = i + 3;
        } else {
            proof {
                assert(u.subrange(1, u.len() as int) =~= t@.subrange(i + 1, b as int));
            }
            out.push(c);
            i = i + 1;
        }
        proof {
            assert(out@ =~= before + seq![out@.last()]);
            assert(dec_bytes(u) == seq![out@.last()] + dec_bytes(
                t@.subrange(i as int, b as int),
            ));
            assert(out@ + dec_bytes(t@.subrange(i as int, b as int)) =~= before + dec_bytes(u));
        }
    }
    assert(out@ + dec_bytes(t@.subrange(i as int, b as int)) =~= out@);
    out
}

fn decode_pair(t: &[u8], a: usize, b: usize) -> (r: (Vec<u8>, Vec<u8>))
    requires
        a <= b <= t@.len(),
    ensures
        (r.0@, r.1@) == dec_pair(t@.subrange(a as int, b as int)),
{
    let ghost seg = t@.subrange(a as int, b as int);
    let mut j: usize = a;
    while j < b && t[j] != 61
        invariant
            a <= j <= b <= t@.len(),
            forall|k: int| a <= k < j ==> t@[k] != 61u8,
        decreases b - j,
    {
        j = j + 1;
    }
    proof {
        assert forall|k: int| 0 <= k < j - a implies seg[k] != 61u8 by {
            assert(seg[k] == t@[a + k]);
        }
        lemma_first_index_is(seg, 61u8, j - a);
    }
    if j < b {
        proof {
            assert(seg.take(j - a) =~= t@.subrange(a as int, j as int));
            assert(seg.skip(j - a + 1) =~= t@.subrange(j + 1, b as int));
        }
        (decode_bytes(t, a, j), decode_bytes(t, j + 1, b))
    } else {
        (decode_bytes(t, a, b), Vec::new())
    }
}

/// The key/value pairs of a form body, as bytes.
pub fn decode_form(body: &[u8]) -> (r: Vec<(Vec<u8>, Vec<u8>)>)
    ensures
        pairs_view(r@) == dec_pairs(body@),
{
    let n = body.len();
    let mut out: Vec<(Vec<u8>, Vec<u8>)> = Vec::new();
    let mut start: usize = 0;
    assert(body@.skip(0) =~= body@);
    assert(pairs_view(out@) + dec_pairs(body@) =~= dec_pairs(body@));
    while start < n
        invariant
            start <= n == body@.len(),
            pairs_view(out@) + dec_pairs(body@.skip(start as int)) == dec_pairs(body@),
        decreases n - start,
    {
        let ghost u = body@.skip(start as int);
        let ghost before = pairs_view(out@);
        let mut j: usize = start;
        while j < n && body[j] != 38
            invariant
                start <= j <= n == body@.len(),
                forall|k: int| start <= k < j ==> body@[k] != 38u8,
            decreases n - j,
        {
            j = j + 1;
        }
        proof {
            assert forall|k: int| 0 <= k < j - start implies u[k] != 38u8 by {
                assert(u[k] == body@[start + k]);
            }
            lemma_first_index_is(u, 38u8, j - start);
            assert(u.take(j - start) =~= body@.subrange(start as int, j as int));
        }
        if j > start {
            let p = decode_pair(body, start, j);
            out.push(p);
            proof {
                assert(pairs_view(out@) =~= before + seq![(p.0@, p.1@)]);
            }
        }
        if j < n {
            proof {
                assert(u.skip(j - start + 1) =~= body@.skip(j + 1));
            }
            start = j + 1;
        } else {
            start = n;
        }
        proof {
            assert(pairs_view(out@) + dec_pairs(body@.skip(start as int)) =~= before + dec_pairs(u));
        }
    }
    assert(body@.skip(n as int) =~= Seq::<u8>::empty());
    assert(pairs_view(out@) + dec_pairs(body@.skip(n as int)) =~= pairs_view(out@));
    out
}

/// Decoding the body of a parameter list gives back its pairs, each as the
/// bytes of its key and value.
pub proof fn lemma_params_round_trip(params: Seq<(String, String)>)
    ensures
        dec_pairs(enc_pairs(param_bytes(params))) == param_bytes(params),
{
    lemma_form_round_trip(param_bytes(params));
}

} // verus!
