use vstd::prelude::*;

use crate::codec::append_bytes;
use crate::decimal::{
    all_digits, dec, decimal_value, int_text, is_digit, lemma_dec_digits, nat_text, push_int_text,
};
use crate::query::first_index;

verus! {

/// Most peers taken from each of the seeders and the leechers.
pub const PEER_LIMIT: usize = 50;

/// The byte strings of `ps` one after the other.
pub open spec fn flatten(ps: Seq<Seq<u8>>) -> Seq<u8>
    decreases ps.len(),
{
    if ps.len() == 0 {
        Seq::<u8>::empty()
    } else {
        flatten(ps.drop_last()) + ps.last()
    }
}

/// The first fifty of `ps`, or all of them when there are fewer.
pub open spec fn capped(ps: Seq<Seq<u8>>) -> Seq<Seq<u8>> {
    if ps.len() <= 50 {
        ps
    } else {
        ps.take(50)
    }
}

/// The peers that a reply lists: capped seeders, then capped leechers.
pub open spec fn reply_peers(seeders: Seq<Seq<u8>>, leechers: Seq<Seq<u8>>) -> Seq<Seq<u8>> {
    capped(seeders) + capped(leechers)
}

/// The bencoded tracker reply with the given counts and compact peer bytes.
pub open spec fn reply_bytes(complete: int, incomplete: int, peers: Seq<u8>) -> Seq<u8> {
    complete_head() + int_text(complete) + incomplete_head() + int_text(incomplete) + peers_head()
        + dec(peers.len()) + seq![58u8] + peers + seq![101u8]
}

/// `d8:completei`
pub open spec fn complete_head() -> Seq<u8> {
    seq![100, 56, 58, 99, 111, 109, 112, 108, 101, 116, 101, 105]
}

fn complete_head_bytes() -> (r: Vec<u8>)
    ensures
        r@ == complete_head(),
{
    vec![100, 56, 58, 99, 111, 109, 112, 108, 101, 116, 101, 105]
}

/// `e10:incompletei`
pub open spec fn incomplete_head() -> Seq<u8> {
    seq![101, 49, 48, 58, 105, 110, 99, 111, 109, 112, 108, 101, 116, 101, 105]
}

fn incomplete_head_bytes() -> (r: Vec<u8>)
    ensures
        r@ == incomplete_head(),
{
    vec![101, 49, 48, 58, 105, 110, 99, 111, 109, 112, 108, 101, 116, 101, 105]
}

/// `e8:intervali1800e12:min intervali1800e5:peers`
pub open spec fn peers_head() -> Seq<u8> {
    seq![101, 56, 58, 105, 110, 116, 101, 114, 118, 97, 108, 105, 49, 56, 48, 48, 101, 49, 50, 58, 109, 105, 110, 32, 105, 110, 116, 101, 114, 118, 97, 108, 105, 49, 56, 48, 48, 101, 53, 58, 112, 101, 101, 114, 115]
}

fn peers_head_bytes() -> (r: Vec<u8>)
    ensures
        r@ == peers_head(),
{
    vec![101, 56, 58, 105, 110, 116, 101, 114, 118, 97, 108, 105, 49, 56, 48, 48, 101, 49, 50, 58, 109, 105, 110, 32, 105, 110, 116, 101, 114, 118, 97, 108, 105, 49, 56, 48, 48, 101, 53, 58, 112, 101, 101, 114, 115]
}

/// Appends the byte strings `ps[0..k]` to `out`, with `k` at most fifty.
fn push_capped(out: &mut Vec<u8>, ps: &Vec<Vec<u8>>)
    ensures
        final(out)@ == old(out)@ + flatten(capped(ps.deep_view())),
{
    let k: usize = if ps.len() <= PEER_LIMIT {
        ps.len()
    } else {
        PEER_LIMIT
    };
    let ghost c = capped(ps.deep_view());
    proof {
        assert(c.len() == k);
        assert(c.take(0) =~= Seq::<Seq<u8>>::empty());
        assert(old(out)@ + flatten(c.take(0)) =~= old(out)@);
    }
    let mut i: usize = 0;
    while i < k
        invariant
            k <= ps@.len(),
            c == capped(ps.deep_view()),
            c.len() == k,
            i <= k,
            out@ == old(out)@ + flatten(c.take(i as int)),
        decreases k - i,
    {
        append_bytes(out, &ps[i]);
        i = i + 1;
        proof {
            assert(c.take(i as int).drop_last() =~= c.take(i - 1));
            assert(c[i - 1] == ps[i - 1]@);
            assert(old(out)@ + flatten(c.take(i as int)) =~= old(out)@ + flatten(c.take(i - 1))
                + ps[i - 1]@);
        }
    }
    proof {
        assert(c.take(k as int) =~= c);
    }
}

/// Byte strings of `a` then those of `b`, flattened.
proof fn lemma_flatten_append(a: Seq<Seq<u8>>, b: Seq<Seq<u8>>)
    ensures
        flatten(a + b) == flatten(a) + flatten(b),
    decreases b.len(),
{
    if b.len() == 0 {
        assert(a + b =~= a);
        assert(flatten(a) + flatten(b) =~= flatten(a));
    } else {
        lemma_flatten_append(a, b.drop_last());
        assert((a + b).drop_last() =~= a + b.drop_last());
        assert(flatten(a) + flatten(b.drop_last()) + b.last() =~= flatten(a) + (flatten(
            b.drop_last(),
        ) + b.last()));
    }
}

/// The bencoded announce reply: the two counts, the fixed interval of 1800
/// seconds, and at most fifty seeders then at most fifty leechers as compact
/// peer bytes.
pub fn announce_reply(
    complete: i64,
    incomplete: i64,
    seeders: &Vec<Vec<u8>>,
    leechers: &Vec<Vec<u8>>,
) -> (r: Vec<u8>)
    ensures
        r@ == reply_bytes(
            complete as int,
            incomplete as int,
            flatten(reply_peers(seeders.deep_view(), leechers.deep_view())),
        ),
        reply_peers(seeders.deep_view(), leechers.deep_view()).len() <= 2 * PEER_LIMIT,
{
    let mut peers: Vec<u8> = Vec::new();
    push_capped(&mut peers, seeders);
    push_capped(&mut peers, leechers);
    proof {
        lemma_flatten_append(capped(seeders.deep_view()), capped(leechers.deep_view()));
        assert(peers@ =~= flatten(reply_peers(seeders.deep_view(), leechers.deep_view())));
    }
    let mut r = complete_head_bytes();
    push_int_text(&mut r, complete);
    append_bytes(&mut r, &incomplete_head_bytes());
    push_int_text(&mut r, incomplete);
    append_bytes(&mut r, &peers_head_bytes());
    append_bytes(&mut r, &nat_text(peers.len() as u64));
    r.push(58);
    append_bytes(&mut r, &peers);
    r.push(101);
    proof {
        assert(r@ =~= reply_bytes(complete as int, incomplete as int, peers@));
    }
    r
}

/// Each entry of `ps` is a compact peer of six bytes.
pub open spec fn all_compact(ps: Seq<Seq<u8>>) -> bool {
    forall|i: int| 0 <= i < ps.len() ==> (#[trigger] ps[i]).len() == 6
}

proof fn lemma_flatten_len(ps: Seq<Seq<u8>>)
    requires
        all_compact(ps),
    ensures
        flatten(ps).len() == 6 * ps.len(),
    decreases ps.len(),
{
    if ps.len() > 0 {
        assert(all_compact(ps.drop_last()));
        lemma_flatten_len(ps.drop_last());
    }
}

/// A reply lists at most fifty seeders and at most fifty leechers, so with
/// compact peers its peer bytes number at most six hundred.
pub proof fn lemma_reply_peer_limit(seeders: Seq<Seq<u8>>, leechers: Seq<Seq<u8>>)
    requires
        all_compact(seeders),
        all_compact(leechers),
    ensures
        capped(seeders).len() <= 50,
        capped(leechers).len() <= 50,
        flatten(reply_peers(seeders, leechers)).len() <= 600,
{
    let p = reply_peers(seeders, leechers);
    assert(all_compact(p)) by {
        assert forall|i: int| 0 <= i < p.len() implies (#[trigger] p[i]).len() == 6 by {
            if i < capped(seeders).len() {
                assert(p[i] == seeders[i]);
            } else {
                assert(p[i] == leechers[i - capped(seeders).len()]);
            }
        }
    }
    lemma_flatten_len(p);
}

/// A decimal integer with an optional leading `-`.
pub open spec fn signed_value(s: Seq<u8>) -> Option<int> {
    if s.len() > 0 && s[0] == 45 {
        match decimal_value(s.skip(1)) {
            Some(n) => Some(-n),
            None => None,
        }
    } else {
        match decimal_value(s) {
            Some(n) => Some(n as int),
            None => None,
        }
    }
}

/// `b` holds `lit` from index `at` on.
pub open spec fn holds_at(b: Seq<u8>, at: int, lit: Seq<u8>) -> bool {
    0 <= at && at + lit.len() <= b.len() && b.subrange(at, at + lit.len() as int) == lit
}

/// Reads a reply in the shape [`reply_bytes`] writes: the two integers end at
/// the first `e` after them, the peer string's length at the first `:`, and
/// the dictionary's closing `e` is the last byte.
pub open spec fn reply_fields(b: Seq<u8>) -> Option<(int, int, Seq<u8>)> {
    let a0 = complete_head().len() as int;
    let e1 = a0 + first_index(b.skip(a0), 101);
    let a1 = e1 + incomplete_head().len();
    let e2 = a1 + first_index(b.skip(a1), 101);
    let a2 = e2 + peers_head().len();
    let e3 = a2 + first_index(b.skip(a2), 58);
    let a3 = e3 + 1;
    if !holds_at(b, 0, complete_head()) || !holds_at(b, e1, incomplete_head()) || !holds_at(
        b,
        e2,
        peers_head(),
    ) || e3 >= b.len() {
        None
    } else {
        match (
            signed_value(b.subrange(a0, e1)),
            signed_value(b.subrange(a1, e2)),
            decimal_value(b.subrange(a2, e3)),
        ) {
            (Some(c), Some(l), Some(n)) => if a3 + n + 1 == b.len() && b[a3 + n] == 101 {
                Some((c, l, b.subrange(a3, a3 + n)))
            } else {
                None
            },
            _ => None,
        }
    }
}

/// Cuts bytes into six-byte compact peers, from the end.
pub open spec fn compact_peers(b: Seq<u8>) -> Seq<Seq<u8>>
    decreases b.len(),
{
    if b.len() < 6 {
        Seq::empty()
    } else {
        compact_peers(b.take(b.len() - 6)).push(b.skip(b.len() - 6))
    }
}

proof fn lemma_compact_flatten(ps: Seq<Seq<u8>>)
    requires
        all_compact(ps),
    ensures
        compact_peers(flatten(ps)) == ps,
    decreases ps.len(),
{
    if ps.len() > 0 {
        let init = ps.drop_last();
        assert(all_compact(init));
        lemma_compact_flatten(init);
        lemma_flatten_len(init);
        let f = flatten(ps);
        assert(f.take(f.len() - 6) =~= flatten(init));
        assert(f.skip(f.len() - 6) =~= ps.last());
        assert(init.push(ps.last()) =~= ps);
    } else {
        assert(flatten(ps).len() == 0);
        assert(ps =~= Seq::<Seq<u8>>::empty());
    }
}

/// Where `b` holds `t` at `at`, then the byte `stop`, and `t` has no `stop`,
/// the first `stop` from `at` on ends `t`.
proof fn lemma_ends_at(b: Seq<u8>, at: int, t: Seq<u8>, stop: u8)
    requires
        0 <= at,
        at + t.len() < b.len(),
        b.subrange(at, at + t.len() as int) == t,
        b[at + t.len()] == stop,
        forall|k: int| 0 <= k < t.len() ==> t[k] != stop,
    ensures
        first_index(b.skip(at), stop) == t.len(),
{
    let s = b.skip(at);
    assert forall|j: int| 0 <= j < t.len() implies s[j] != stop by {
        assert(s[j] == t[j]);
    }
    crate::query::lemma_first_index(s, stop, t.len() as int);
}

proof fn lemma_int_text(i: int)
    ensures
        signed_value(int_text(i)) == Some(i),
        forall|k: int| 0 <= k < int_text(i).len() ==> int_text(i)[k] != 101 && int_text(i)[k] != 58,
{
    if i < 0 {
        let d = dec((-i) as nat);
        lemma_dec_digits((-i) as nat);
        assert(int_text(i).skip(1) =~= d);
        assert forall|k: int| 0 <= k < int_text(i).len() implies int_text(i)[k] != 101
            && int_text(i)[k] != 58 by {
            if k > 0 {
                assert(int_text(i)[k] == d[k - 1]);
                assert(is_digit(d[k - 1]));
            }
        }
    } else {
        let d = dec(i as nat);
        lemma_dec_digits(i as nat);
        assert(is_digit(d[0]));
        assert forall|k: int| 0 <= k < d.len() implies d[k] != 101 && d[k] != 58 by {
            assert(is_digit(d[k]));
        }
    }
}

proof fn lemma_piece(x: Seq<u8>, y: Seq<u8>, z: Seq<u8>)
    ensures
        (x + y + z).subrange(x.len() as int, (x.len() + y.len()) as int) == y,
        z.len() > 0 ==> (x + y + z)[(x.len() + y.len()) as int] == z[0],
{
    assert((x + y + z).subrange(x.len() as int, (x.len() + y.len()) as int) =~= y);
}

/// Where each part of a reply lies in its bytes.
#[verifier::rlimit(60)]
proof fn lemma_layout(complete: int, incomplete: int, f: Seq<u8>)
    ensures
        ({
            let b = reply_bytes(complete, incomplete, f);
            let e1 = (complete_head().len() + int_text(complete).len()) as int;
            let a1 = e1 + incomplete_head().len() as int;
            let e2 = a1 + int_text(incomplete).len() as int;
            let a2 = e2 + peers_head().len() as int;
            let e3 = a2 + dec(f.len()).len() as int;
            let n = f.len() as int;
            &&& holds_at(b, 0, complete_head())
            &&& b.subrange(complete_head().len() as int, e1) == int_text(complete)
            &&& holds_at(b, e1, incomplete_head())
            &&& b.subrange(a1, e2) == int_text(incomplete)
            &&& holds_at(b, e2, peers_head())
            &&& b.subrange(a2, e3) == dec(f.len())
            &&& b[e3] == 58
            &&& b.subrange(e3 + 1, e3 + 1 + n) == f
            &&& b.len() == e3 + 1 + n + 1
            &&& b[e3 + 1 + n] == 101
        }),
{
    let b = reply_bytes(complete, incomplete, f);
    let t1 = int_text(complete);
    let t2 = int_text(incomplete);
    let t3 = dec(f.len());
    let upto1 = complete_head();
    let upto2 = upto1 + t1;
    let upto3 = upto2 + incomplete_head();
    let upto4 = upto3 + t2;
    let upto5 = upto4 + peers_head();
    let upto6 = upto5 + t3;
    let upto7 = upto6 + seq![58u8];
    let tail1 = incomplete_head() + t2 + peers_head() + t3 + seq![58u8] + f + seq![101u8];
    let tail2 = peers_head() + t3 + seq![58u8] + f + seq![101u8];
    let tail3 = seq![58u8] + f + seq![101u8];
    assert(b == upto7 + f + seq![101u8]);
    assert(b =~= Seq::<u8>::empty() + upto1 + (t1 + tail1)) by {
        assert(b =~= upto1 + t1 + tail1);
    }
    lemma_piece(Seq::<u8>::empty(), upto1, t1 + tail1);
    assert(b =~= upto1 + t1 + tail1);
    lemma_piece(upto1, t1, tail1);
    assert(b =~= upto2 + incomplete_head() + (t2 + tail2));
    lemma_piece(upto2, incomplete_head(), t2 + tail2);
    assert(b =~= upto3 + t2 + tail2);
    lemma_piece(upto3, t2, tail2);
    assert(b =~= upto4 + peers_head() + (t3 + tail3));
    lemma_piece(upto4, peers_head(), t3 + tail3);
    assert(b =~= upto5 + t3 + tail3);
    lemma_piece(upto5, t3, tail3);
    lemma_piece(upto7, f, seq![101u8]);
}

proof fn lemma_fields(b: Seq<u8>, t1: Seq<u8>, t2: Seq<u8>, t3: Seq<u8>, f: Seq<u8>, c: int, l: int)
    requires
        ({
            let e1 = (complete_head().len() + t1.len()) as int;
            let a1 = e1 + incomplete_head().len() as int;
            let e2 = a1 + t2.len() as int;
            let a2 = e2 + peers_head().len() as int;
            let e3 = a2 + t3.len() as int;
            let n = f.len() as int;
            &&& holds_at(b, 0, complete_head())
            &&& b.subrange(complete_head().len() as int, e1) == t1
            &&& holds_at(b, e1, incomplete_head())
            &&& b.subrange(a1, e2) == t2
            &&& holds_at(b, e2, peers_head())
            &&& b.subrange(a2, e3) == t3
            &&& b[e3] == 58
            &&& b.subrange(e3 + 1, e3 + 1 + n) == f
            &&& b.len() == e3 + 1 + n + 1
            &&& b[e3 + 1 + n] == 101
        }),
        signed_value(t1) == Some(c),
        signed_value(t2) == Some(l),
        decimal_value(t3) == Some(f.len()),
        forall|k: int| 0 <= k < t1.len() ==> t1[k] != 101,
        forall|k: int| 0 <= k < t2.len() ==> t2[k] != 101,
        forall|k: int| 0 <= k < t3.len() ==> t3[k] != 58,
    ensures
        reply_fields(b) == Some((c, l, f)),
{
    let a0 = complete_head().len() as int;
    let e1 = a0 + t1.len();
    let a1 = e1 + incomplete_head().len();
    let e2 = a1 + t2.len();
    let a2 = e2 + peers_head().len();
    let e3 = a2 + t3.len();
    assert(b[e1] == b.subrange(e1, e1 + incomplete_head().len())[0]);
    assert(b[e2] == b.subrange(e2, e2 + peers_head().len())[0]);
    lemma_ends_at(b, a0, t1, 101);
    lemma_ends_at(b, a1, t2, 101);
    lemma_ends_at(b, a2, t3, 58);
}

/// A reply read back gives the counts and the peers it was written with:
/// compact peers encoded by [`announce_reply`] come out of the peer string
/// in the same order.
pub proof fn lemma_reply_round_trip(complete: int, incomplete: int, peers: Seq<Seq<u8>>)
    requires
        all_compact(peers),
    ensures
        reply_fields(reply_bytes(complete, incomplete, flatten(peers))) == Some(
            (complete, incomplete, flatten(peers)),
        ),
        compact_peers(flatten(peers)) == peers,
{
    lemma_compact_flatten(peers);
    let f = flatten(peers);
    lemma_int_text(complete);
    lemma_int_text(incomplete);
    lemma_dec_digits(f.len());
    lemma_int_text(f.len() as int);
    lemma_layout(complete, incomplete, f);
    lemma_fields(
        reply_bytes(complete, incomplete, f),
        int_text(complete),
        int_text(incomplete),
        dec(f.len()),
        f,
        complete,
        incomplete,
    );
}

} // verus!
