use vstd::prelude::*;

use crate::commands::{
    announce_count_text, cache_hit_count_text, cache_key, del_cmd, del_text, downloaded_text,
    duration_total_text, hincrby_cmd, hincrby_text, incr_cmd, incrby_cmd, leechers_key,
    leechers_text, nochange_count_text, seeders_key, seeders_text, set_ex_cmd, set_text,
    torrents_text, zadd_cmd, zadd_text, zrem_cmd, zrem_text,
};
use crate::decimal::{decimal_value, lemma_dec_digits};
use crate::engine::{
    body_of, cache_cmds, is_cache_hit, leech_delta, membership_cmds, seed_delta, write_back_cmds,
};
use crate::query::{AnnounceView, Event};
use crate::reply::{flatten, reply_bytes, reply_peers};

verus! {

/// What the store holds of one swarm: the members of its two sorted sets, its
/// cached reply, and its count of completions.
pub struct SwarmState {
    pub seeders: Set<Seq<u8>>,
    pub leechers: Set<Seq<u8>>,
    pub cache: Option<Seq<u8>>,
    pub downloaded: int,
}

/// The effect of one store command on the swarm of info-hash `h`.
pub open spec fn apply_command(st: SwarmState, h: Seq<u8>, c: Seq<Seq<u8>>) -> SwarmState {
    if c.len() == 4 && c[0] == zadd_text() && c[1] == seeders_key(h) {
        SwarmState { seeders: st.seeders.insert(c[3]), ..st }
    } else if c.len() == 4 && c[0] == zadd_text() && c[1] == leechers_key(h) {
        SwarmState { leechers: st.leechers.insert(c[3]), ..st }
    } else if c.len() == 3 && c[0] == zrem_text() && c[1] == seeders_key(h) {
        SwarmState { seeders: st.seeders.remove(c[2]), ..st }
    } else if c.len() == 3 && c[0] == zrem_text() && c[1] == leechers_key(h) {
        SwarmState { leechers: st.leechers.remove(c[2]), ..st }
    } else if c.len() == 2 && c[0] == del_text() && c[1] == cache_key(h) {
        SwarmState { cache: None, ..st }
    } else if c.len() == 5 && c[0] == set_text() && c[1] == cache_key(h) {
        SwarmState { cache: Some(c[2]), ..st }
    } else if c.len() == 4 && c[0] == hincrby_text() && c[1] == h && c[2] == downloaded_text() {
        match decimal_value(c[3]) {
            Some(n) => SwarmState { downloaded: st.downloaded + n, ..st },
            None => st,
        }
    } else {
        st
    }
}

/// The effect of commands applied in order.
pub open spec fn apply_all(st: SwarmState, h: Seq<u8>, cs: Seq<Seq<Seq<u8>>>) -> SwarmState
    decreases cs.len(),
{
    if cs.len() == 0 {
        st
    } else {
        apply_command(apply_all(st, h, cs.drop_last()), h, cs.last())
    }
}

/// The swarm after the write-back of announce `a`, told in words of sets:
/// the peer joins or leaves the sets as the event says, the cache is dropped
/// when a count changes and holds `body` otherwise, and a completion counts.
pub open spec fn after_write_back(
    st: SwarmState,
    a: AnnounceView,
    in_s: bool,
    in_l: bool,
    body: Seq<u8>,
) -> SwarmState {
    let p = a.ip_port;
    SwarmState {
        seeders: if a.event == Event::Stopped {
            if in_s {
                st.seeders.remove(p)
            } else {
                st.seeders
            }
        } else if a.is_seeding {
            st.seeders.insert(p)
        } else {
            st.seeders
        },
        leechers: if a.event == Event::Stopped {
            if !in_s && in_l {
                st.leechers.remove(p)
            } else {
                st.leechers
            }
        } else if a.is_seeding {
            if a.event == Event::Completed && in_l {
                st.leechers.remove(p)
            } else {
                st.leechers
            }
        } else {
            st.leechers.insert(p)
        },
        cache: if seed_delta(a, in_s, in_l) != 0 || leech_delta(a, in_s, in_l) != 0 {
            None
        } else {
            Some(body)
        },
        downloaded: if a.event == Event::Completed && a.is_seeding {
            st.downloaded + 1
        } else {
            st.downloaded
        },
    }
}

proof fn lemma_apply_append(st: SwarmState, h: Seq<u8>, a: Seq<Seq<Seq<u8>>>, b: Seq<Seq<Seq<u8>>>)
    ensures
        apply_all(st, h, a + b) == apply_all(apply_all(st, h, a), h, b),
    decreases b.len(),
{
    if b.len() == 0 {
        assert(a + b =~= a);
    } else {
        lemma_apply_append(st, h, a, b.drop_last());
        assert((a + b).drop_last() =~= a + b.drop_last());
        assert((a + b).last() == b.last());
    }
}

proof fn lemma_apply_one(st: SwarmState, h: Seq<u8>, c: Seq<Seq<u8>>)
    ensures
        apply_all(st, h, seq![c]) == apply_command(st, h, c),
{
    assert(seq![c].drop_last() =~= Seq::<Seq<Seq<u8>>>::empty());
    assert(apply_all(st, h, seq![c].drop_last()) == st);
    assert(seq![c].last() == c);
}

proof fn lemma_apply_two(st: SwarmState, h: Seq<u8>, c: Seq<Seq<u8>>, d: Seq<Seq<u8>>)
    ensures
        apply_all(st, h, seq![c, d]) == apply_command(apply_command(st, h, c), h, d),
{
    assert(seq![c, d].drop_last() =~= seq![c]);
    lemma_apply_one(st, h, c);
}

proof fn lemma_membership_effect(st: SwarmState, a: AnnounceView, in_s: bool, in_l: bool, now: int)
    requires
        a.info_hash.len() == 20,
    ensures
        apply_all(st, a.info_hash, membership_cmds(a, in_s, in_l, now)) == (SwarmState {
            cache: st.cache,
            ..after_write_back(st, a, in_s, in_l, Seq::empty())
        }),
{
    let h = a.info_hash;
    let p = a.ip_port;
    let m = membership_cmds(a, in_s, in_l, now);
    assert(seeders_key(h).len() == 28 && leechers_key(h).len() == 29);
    if a.event == Event::Stopped {
        if in_s {
            lemma_apply_one(st, h, zrem_cmd(seeders_key(h), p));
        } else if in_l {
            lemma_apply_one(st, h, zrem_cmd(leechers_key(h), p));
        } else {
            assert(m =~= Seq::<Seq<Seq<u8>>>::empty());
        }
    } else if a.is_seeding {
        let add = zadd_cmd(seeders_key(h), now, p);
        if a.event == Event::Completed {
            let inc = hincrby_cmd(h, downloaded_text(), 1);
            lemma_dec_digits(1);
            assert(inc[3] == seq![49u8]);
            assert(decimal_value(inc[3]) == Some(1nat));
            let s1 = apply_command(st, h, add);
            if in_l {
                let rem = zrem_cmd(leechers_key(h), p);
                assert(m =~= seq![add, rem] + seq![inc]);
                lemma_apply_append(st, h, seq![add, rem], seq![inc]);
                lemma_apply_two(st, h, add, rem);
                lemma_apply_one(apply_command(s1, h, rem), h, inc);
            } else {
                assert(m =~= seq![add, inc]);
                lemma_apply_two(st, h, add, inc);
            }
        } else {
            assert(m =~= seq![add]);
            lemma_apply_one(st, h, add);
        }
    } else {
        lemma_apply_one(st, h, zadd_cmd(leechers_key(h), now, p));
    }
}

proof fn lemma_cache_effect(st: SwarmState, h: Seq<u8>, sd: int, ld: int, body: Seq<u8>)
    requires
        h.len() == 20,
    ensures
        apply_all(st, h, cache_cmds(h, sd, ld, body)) == (SwarmState {
            cache: if sd != 0 || ld != 0 {
                None
            } else {
                Some(body)
            },
            ..st
        }),
{
    let cs = cache_cmds(h, sd, ld, body);
    assert(cache_key(h).len() == 26);
    if sd != 0 || ld != 0 {
        let hs = hincrby_cmd(h, seeders_text(), sd);
        let hl = hincrby_cmd(h, leechers_text(), ld);
        let d = del_cmd(cache_key(h));
        if sd != 0 && ld != 0 {
            assert(cs =~= seq![hs, hl] + seq![d]);
            lemma_apply_append(st, h, seq![hs, hl], seq![d]);
            lemma_apply_two(st, h, hs, hl);
            lemma_apply_one(st, h, d);
        } else if sd != 0 {
            assert(cs =~= seq![hs, d]);
            lemma_apply_two(st, h, hs, d);
        } else {
            assert(cs =~= seq![hl, d]);
            lemma_apply_two(st, h, hl, d);
        }
    } else {
        lemma_apply_two(st, h, incr_cmd(nochange_count_text()), set_ex_cmd(cache_key(h), body));
    }
}

/// What the write-back of an announce does to its swarm: the peer joins the
/// seeders or the leechers, or leaves them on `stopped`, as the peer's
/// earlier presence (`in_s`, `in_l`) and the event say; the cached reply is
/// dropped when a count changes and is `body` otherwise; a completion by a
/// seeding peer adds one to `downloaded`.
pub proof fn lemma_write_back_effect(
    st: SwarmState,
    a: AnnounceView,
    in_s: bool,
    in_l: bool,
    cache_hit: bool,
    body: Seq<u8>,
    now: int,
    duration: int,
)
    requires
        a.info_hash.len() == 20,
    ensures
        apply_all(st, a.info_hash, write_back_cmds(a, in_s, in_l, cache_hit, body, now, duration))
            == after_write_back(st, a, in_s, in_l, body),
{
    let h = a.info_hash;
    let touch = seq![zadd_cmd(torrents_text(), now, h)];
    let m = membership_cmds(a, in_s, in_l, now);
    let hc: Seq<Seq<Seq<u8>>> = if cache_hit {
        seq![incr_cmd(cache_hit_count_text())]
    } else {
        Seq::empty()
    };
    let cc = cache_cmds(h, seed_delta(a, in_s, in_l), leech_delta(a, in_s, in_l), body);
    let tail = seq![incr_cmd(announce_count_text()), incrby_cmd(duration_total_text(), duration)];
    assert(seeders_key(h).len() == 28 && leechers_key(h).len() == 29);
    lemma_apply_append(st, h, touch + m + hc + cc, tail);
    lemma_apply_append(st, h, touch + m + hc, cc);
    lemma_apply_append(st, h, touch + m, hc);
    lemma_apply_append(st, h, touch, m);
    lemma_apply_one(st, h, zadd_cmd(torrents_text(), now, h));
    let s1 = apply_all(st, h, touch);
    assert(s1 == st);
    lemma_membership_effect(st, a, in_s, in_l, now);
    let s2 = apply_all(s1, h, m);
    if cache_hit {
        lemma_apply_one(s2, h, incr_cmd(cache_hit_count_text()));
    }
    assert(apply_all(s2, h, hc) == s2);
    lemma_cache_effect(s2, h, seed_delta(a, in_s, in_l), leech_delta(a, in_s, in_l), body);
    let s4 = apply_all(s2, h, cc);
    lemma_apply_two(s4, h, incr_cmd(announce_count_text()), incrby_cmd(duration_total_text(), duration));
}

/// One announce as the store sees it: the request, whether a cached reply was
/// served, the reply body, the time and the time the request took.
pub struct AnnounceStep {
    pub announce: AnnounceView,
    pub cache_hit: bool,
    pub body: Seq<u8>,
    pub now: int,
    pub duration: int,
}

/// The swarm after one announce, whose first round trip read the peer's
/// presence in `st`.
pub open spec fn step(st: SwarmState, h: Seq<u8>, s: AnnounceStep) -> SwarmState {
    let p = s.announce.ip_port;
    apply_all(
        st,
        h,
        write_back_cmds(
            s.announce,
            st.seeders.contains(p),
            st.leechers.contains(p),
            s.cache_hit,
            s.body,
            s.now,
            s.duration,
        ),
    )
}

/// The swarm after announces one after the other.
pub open spec fn run(st: SwarmState, h: Seq<u8>, steps: Seq<AnnounceStep>) -> SwarmState
    decreases steps.len(),
{
    if steps.len() == 0 {
        st
    } else {
        step(run(st, h, steps.drop_last()), h, last_step(steps))
    }
}

pub open spec fn last_step(steps: Seq<AnnounceStep>) -> AnnounceStep {
    steps[steps.len() - 1]
}

/// The announce moves its peer along the lifecycle: a stop; a seeding peer
/// that was no leecher, or that completes; a leeching peer that was no seeder.
pub open spec fn follows_lifecycle(a: AnnounceView, in_s: bool, in_l: bool) -> bool {
    a.event == Event::Stopped || if a.is_seeding {
        !in_l || a.event == Event::Completed
    } else {
        !in_s
    }
}

/// Peer `p` is in at most one of the two sorted sets.
pub open spec fn in_one_list(st: SwarmState, p: Seq<u8>) -> bool {
    !(st.seeders.contains(p) && st.leechers.contains(p))
}

/// Number of announces with the `completed` event.
pub open spec fn completed_count(steps: Seq<AnnounceStep>) -> int
    decreases steps.len(),
{
    if steps.len() == 0 {
        0
    } else {
        completed_count(steps.drop_last()) + if last_step(steps).announce.event == Event::Completed {
            1int
        } else {
            0int
        }
    }
}

/// After any sequence of announces of one peer that follow its lifecycle,
/// the peer is a seeder or a leecher but never both.
pub proof fn lemma_peer_in_one_list(
    st: SwarmState,
    h: Seq<u8>,
    p: Seq<u8>,
    steps: Seq<AnnounceStep>,
)
    requires
        h.len() == 20,
        in_one_list(st, p),
        forall|i: int|
            0 <= i < steps.len() ==> (#[trigger] steps[i]).announce.info_hash == h
                && steps[i].announce.ip_port == p && follows_lifecycle(
                steps[i].announce,
                run(st, h, steps.take(i)).seeders.contains(p),
                run(st, h, steps.take(i)).leechers.contains(p),
            ),
    ensures
        in_one_list(run(st, h, steps), p),
    decreases steps.len(),
{
    if steps.len() > 0 {
        let prev = steps.drop_last();
        assert forall|i: int| 0 <= i < prev.len() implies (#[trigger] prev[i]).announce.info_hash
            == h && prev[i].announce.ip_port == p && follows_lifecycle(
            prev[i].announce,
            run(st, h, prev.take(i)).seeders.contains(p),
            run(st, h, prev.take(i)).leechers.contains(p),
        ) by {
            assert(prev.take(i) =~= steps.take(i));
            assert(prev[i] == steps[i]);
        }
        lemma_peer_in_one_list(st, h, p, prev);
        let s0 = run(st, h, prev);
        let last = last_step(steps);
        assert(steps.take(steps.len() - 1) =~= prev);
        assert(last == steps[steps.len() - 1]);
        lemma_write_back_effect(
            s0,
            last.announce,
            s0.seeders.contains(p),
            s0.leechers.contains(p),
            last.cache_hit,
            last.body,
            last.now,
            last.duration,
        );
    }
}

/// Where every `completed` announce reports nothing left to download,
/// `downloaded` grows by exactly the number of `completed` announces.
pub proof fn lemma_downloaded_counts_completions(
    st: SwarmState,
    h: Seq<u8>,
    steps: Seq<AnnounceStep>,
)
    requires
        h.len() == 20,
        forall|i: int|
            0 <= i < steps.len() ==> (#[trigger] steps[i]).announce.info_hash == h && (
            steps[i].announce.event == Event::Completed ==> steps[i].announce.is_seeding),
    ensures
        run(st, h, steps).downloaded == st.downloaded + completed_count(steps),
    decreases steps.len(),
{
    if steps.len() > 0 {
        let prev = steps.drop_last();
        assert forall|i: int| 0 <= i < prev.len() implies (#[trigger] prev[i]).announce.info_hash
            == h && (prev[i].announce.event == Event::Completed ==> prev[i].announce.is_seeding) by {
            assert(prev[i] == steps[i]);
        }
        lemma_downloaded_counts_completions(st, h, prev);
        let s0 = run(st, h, prev);
        let last = last_step(steps);
        let p = last.announce.ip_port;
        assert(last == steps[steps.len() - 1]);
        lemma_write_back_effect(
            s0,
            last.announce,
            s0.seeders.contains(p),
            s0.leechers.contains(p),
            last.cache_hit,
            last.body,
            last.now,
            last.duration,
        );
    }
}

/// The swarm after the write-back of an announce whose reply was `body`.
pub open spec fn written_back(
    st: SwarmState,
    a: AnnounceView,
    in_s: bool,
    in_l: bool,
    cache_hit: bool,
    body: Seq<u8>,
    now: int,
    duration: int,
) -> SwarmState {
    apply_all(st, a.info_hash, write_back_cmds(a, in_s, in_l, cache_hit, body, now, duration))
}

/// An announce that changes no count leaves its reply cached, so the same
/// announce right after finds a cache hit and gets the same bytes.
pub proof fn lemma_repeat_hits_cache(
    st: SwarmState,
    a: AnnounceView,
    in_s: bool,
    in_l: bool,
    cached: Seq<u8>,
    live_seeders: Seq<Seq<u8>>,
    live_leechers: Seq<Seq<u8>>,
    cache_hit: bool,
    now: int,
    duration: int,
    next_seeders: Seq<Seq<u8>>,
    next_leechers: Seq<Seq<u8>>,
)
    requires
        a.info_hash.len() == 20,
        seed_delta(a, in_s, in_l) == 0,
        leech_delta(a, in_s, in_l) == 0,
    ensures
        written_back(
            st,
            a,
            in_s,
            in_l,
            cache_hit,
            body_of(a, in_s, in_l, cached, live_seeders, live_leechers),
            now,
            duration,
        ).cache == Some(body_of(a, in_s, in_l, cached, live_seeders, live_leechers)),
        is_cache_hit(body_of(a, in_s, in_l, cached, live_seeders, live_leechers)),
        body_of(
            a,
            in_s,
            in_l,
            body_of(a, in_s, in_l, cached, live_seeders, live_leechers),
            next_seeders,
            next_leechers,
        ) == body_of(a, in_s, in_l, cached, live_seeders, live_leechers),
{
    let body = body_of(a, in_s, in_l, cached, live_seeders, live_leechers);
    lemma_write_back_effect(st, a, in_s, in_l, cache_hit, body, now, duration);
    if !is_cache_hit(cached) {
        let r = reply_bytes(
            live_seeders.len() + seed_delta(a, in_s, in_l),
            live_leechers.len() + leech_delta(a, in_s, in_l),
            flatten(reply_peers(live_seeders, live_leechers)),
        );
        assert(r.len() > 0);
    }
}

/// When an announce changes a count, its write-back leaves no cached reply.
pub proof fn lemma_change_drops_cache(
    st: SwarmState,
    a: AnnounceView,
    in_s: bool,
    in_l: bool,
    cache_hit: bool,
    body: Seq<u8>,
    now: int,
    duration: int,
)
    requires
        a.info_hash.len() == 20,
        seed_delta(a, in_s, in_l) != 0 || leech_delta(a, in_s, in_l) != 0,
    ensures
        written_back(st, a, in_s, in_l, cache_hit, body, now, duration).cache is None,
{
    lemma_write_back_effect(st, a, in_s, in_l, cache_hit, body, now, duration);
}

} // verus!
