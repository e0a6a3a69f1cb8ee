use vstd::prelude::*;

use crate::commands::{
    cache_hit_count_bytes, cache_hit_count_text, cache_key, del, del_cmd, downloaded_bytes,
    downloaded_text, duration_total_bytes, duration_total_text, get, get_cmd, hincrby,
    hincrby_cmd, incr, incr_cmd, incrby, incrby_cmd, leechers_bytes, leechers_key, leechers_text,
    make_redis_keys, nochange_count_bytes, nochange_count_text, announce_count_bytes,
    announce_count_text, seeders_bytes, seeders_key, seeders_text, set_ex, set_ex_cmd,
    torrents_bytes, torrents_text, zadd, zadd_cmd, zrangebyscore, zrangebyscore_cmd, zrem,
    zrem_cmd, zscore, zscore_cmd,
};
use crate::query::{Announce, AnnounceView, Event};
use crate::reply::{announce_reply, flatten, reply_bytes, reply_peers};

verus! {

/// Peers last seen longer ago than this many milliseconds are left out of replies.
pub const THIRTY_ONE_MINUTES: i64 = 1860000;

/// Whether a peer was found in a sorted set of the store.
#[derive(Clone, Copy, Debug, PartialEq, Eq, Structural)]
pub enum Exists {
    Yes,
    No,
}

impl From<&Exists> for bool {
    fn from(item: &Exists) -> (r: bool) {
        match item {
            Exists::Yes => true,
            Exists::No => false,
        }
    }
}

impl vstd::std_specs::convert::FromSpecImpl<&Exists> for bool {
    open spec fn obeys_from_spec() -> bool {
        true
    }

    open spec fn from_spec(item: &Exists) -> bool {
        *item == Exists::Yes
    }
}

/// A store command: its name, then its arguments, each as bytes.
pub type Command = Vec<Vec<u8>>;

/// Change of the seeder count that an announce causes, given whether its
/// peer was already a seeder (`in_s`) or a leecher (`in_l`).
pub open spec fn seed_delta(a: AnnounceView, in_s: bool, in_l: bool) -> int {
    if a.event == Event::Stopped {
        if in_s {
            -1
        } else {
            0
        }
    } else if a.is_seeding {
        if !in_s {
            1
        } else {
            0
        }
    } else {
        0
    }
}

/// Change of the leecher count that an announce causes.
pub open spec fn leech_delta(a: AnnounceView, in_s: bool, in_l: bool) -> int {
    if a.event == Event::Stopped {
        if !in_s && in_l {
            -1
        } else {
            0
        }
    } else if a.is_seeding {
        if a.event == Event::Completed && in_l {
            -1
        } else {
            0
        }
    } else if !in_l {
        1
    } else {
        0
    }
}

/// The sorted-set updates of an announce, and the count of completions.
pub open spec fn membership_cmds(a: AnnounceView, in_s: bool, in_l: bool, now: int) -> Seq<
    Seq<Seq<u8>>,
> {
    let h = a.info_hash;
    let p = a.ip_port;
    if a.event == Event::Stopped {
        if in_s {
            seq![zrem_cmd(seeders_key(h), p)]
        } else if in_l {
            seq![zrem_cmd(leechers_key(h), p)]
        } else {
            Seq::empty()
        }
    } else if a.is_seeding {
        seq![zadd_cmd(seeders_key(h), now, p)] + if a.event == Event::Completed {
            (if in_l {
                seq![zrem_cmd(leechers_key(h), p)]
            } else {
                Seq::empty()
            }) + seq![hincrby_cmd(h, downloaded_text(), 1)]
        } else {
            Seq::empty()
        }
    } else {
        seq![zadd_cmd(leechers_key(h), now, p)]
    }
}

/// Count updates and cache invalidation when the counts change; otherwise
/// the reply `body` is cached.
pub open spec fn cache_cmds(h: Seq<u8>, sd: int, ld: int, body: Seq<u8>) -> Seq<Seq<Seq<u8>>> {
    if sd != 0 || ld != 0 {
        (if sd != 0 {
            seq![hincrby_cmd(h, seeders_text(), sd)]
        } else {
            Seq::empty()
        }) + (if ld != 0 {
            seq![hincrby_cmd(h, leechers_text(), ld)]
        } else {
            Seq::empty()
        }) + seq![del_cmd(cache_key(h))]
    } else {
        seq![incr_cmd(nochange_count_text()), set_ex_cmd(cache_key(h), body)]
    }
}

/// Everything an announce writes back to the store, in order.
pub open spec fn write_back_cmds(
    a: AnnounceView,
    in_s: bool,
    in_l: bool,
    cache_hit: bool,
    body: Seq<u8>,
    now: int,
    duration: int,
) -> Seq<Seq<Seq<u8>>> {
    seq![zadd_cmd(torrents_text(), now, a.info_hash)] + membership_cmds(a, in_s, in_l, now) + (
    if cache_hit {
        seq![incr_cmd(cache_hit_count_text())]
    } else {
        Seq::empty()
    }) + cache_cmds(a.info_hash, seed_delta(a, in_s, in_l), leech_delta(a, in_s, in_l), body)
        + seq![incr_cmd(announce_count_text()), incrby_cmd(duration_total_text(), duration)]
}

/// A cached reply is used when it is not empty.
pub open spec fn is_cache_hit(cached: Seq<u8>) -> bool {
    cached.len() > 0
}

/// The body of the reply to an announce: the cached one on a hit, else one
/// built from the live peers with the counts moved by the announce's deltas.
pub open spec fn body_of(
    a: AnnounceView,
    in_s: bool,
    in_l: bool,
    cached: Seq<u8>,
    live_seeders: Seq<Seq<u8>>,
    live_leechers: Seq<Seq<u8>>,
) -> Seq<u8> {
    if is_cache_hit(cached) {
        cached
    } else {
        reply_bytes(
            live_seeders.len() + seed_delta(a, in_s, in_l),
            live_leechers.len() + leech_delta(a, in_s, in_l),
            flatten(reply_peers(live_seeders, live_leechers)),
        )
    }
}

/// The count changes that an announce causes.
pub struct Plan {
    pub seed_delta: i64,
    pub leech_delta: i64,
}

fn push_cmd(cmds: &mut Vec<Command>, c: Command)
    ensures
        final(cmds).deep_view() == old(cmds).deep_view().push(c.deep_view()),
{
    cmds.push(c);
    proof {
        assert(cmds.deep_view() =~~= old(cmds).deep_view().push(c.deep_view()));
    }
}

/// Reads of the first round trip: presence of the peer among the seeders and
/// among the leechers, and the cached reply.
pub fn read_commands(a: &Announce) -> (r: Vec<Command>)
    ensures
        r.deep_view() == seq![
            zscore_cmd(seeders_key(a@.info_hash), a@.ip_port),
            zscore_cmd(leechers_key(a@.info_hash), a@.ip_port),
            get_cmd(cache_key(a@.info_hash)),
        ],
{
    let (s, l, c) = make_redis_keys(&a.info_hash);
    let r = vec![zscore(&s, &a.ip_port), zscore(&l, &a.ip_port), get(&c)];
    proof {
        assert(r.deep_view() =~~= seq![
            zscore_cmd(seeders_key(a@.info_hash), a@.ip_port),
            zscore_cmd(leechers_key(a@.info_hash), a@.ip_port),
            get_cmd(cache_key(a@.info_hash)),
        ]);
    }
    r
}

/// Reads of the second round trip on a cache miss: up to fifty seeders and
/// fifty leechers seen in the last thirty-one minutes up to `now`.
pub fn range_commands(a: &Announce, now: i64) -> (r: Vec<Command>)
    requires
        now >= i64::MIN + THIRTY_ONE_MINUTES,
    ensures
        r.deep_view() == seq![
            zrangebyscore_cmd(seeders_key(a@.info_hash), now - THIRTY_ONE_MINUTES, now as int),
            zrangebyscore_cmd(leechers_key(a@.info_hash), now - THIRTY_ONE_MINUTES, now as int),
        ],
{
    let (s, l, _c) = make_redis_keys(&a.info_hash);
    let min = now - THIRTY_ONE_MINUTES;
    let r = vec![zrangebyscore(&s, min, now), zrangebyscore(&l, min, now)];
    proof {
        assert(r.deep_view() =~~= seq![
            zrangebyscore_cmd(seeders_key(a@.info_hash), now - THIRTY_ONE_MINUTES, now as int),
            zrangebyscore_cmd(leechers_key(a@.info_hash), now - THIRTY_ONE_MINUTES, now as int),
        ]);
    }
    r
}

/// The count changes of an announce whose peer was or was not found among
/// the seeders and the leechers.
pub fn plan_announce(a: &Announce, in_seeders: &Exists, in_leechers: &Exists) -> (r: Plan)
    ensures
        r.seed_delta == seed_delta(a@, *in_seeders == Exists::Yes, *in_leechers == Exists::Yes),
        r.leech_delta == leech_delta(a@, *in_seeders == Exists::Yes, *in_leechers == Exists::Yes),
{
    let in_s = bool::from(in_seeders);
    let in_l = bool::from(in_leechers);
    let mut seed_count_mod: i64 = 0;
    let mut leech_count_mod: i64 = 0;
    if a.event == Event::Stopped {
        if in_s {
            seed_count_mod = -1;
        } else if in_l {
            leech_count_mod = -1;
        }
    } else if a.is_seeding {
        if !in_s {
            seed_count_mod = 1;
        }
        if a.event == Event::Completed && in_l {
            leech_count_mod = -1;
        }
    } else if !in_l {
        leech_count_mod = 1;
    }
    Plan { seed_delta: seed_count_mod, leech_delta: leech_count_mod }
}

/// Whether a cached reply can be served as it is.
pub fn cache_hit(cached: &Vec<u8>) -> (r: bool)
    ensures
        r == is_cache_hit(cached@),
{
    cached.len() > 0
}

/// The body of the reply: `cached` when it is not empty, else the reply built
/// from the live peers that the second round trip returned.
pub fn response_body(
    a: &Announce,
    in_seeders: &Exists,
    in_leechers: &Exists,
    cached: Vec<u8>,
    live_seeders: &Vec<Vec<u8>>,
    live_leechers: &Vec<Vec<u8>>,
) -> (r: Vec<u8>)
    requires
        live_seeders@.len() < i64::MAX,
        live_leechers@.len() < i64::MAX,
    ensures
        r@ == body_of(
            a@,
            *in_seeders == Exists::Yes,
            *in_leechers == Exists::Yes,
            cached@,
            live_seeders.deep_view(),
            live_leechers.deep_view(),
        ),
{
    if cache_hit(&cached) {
        cached
    } else {
        let plan = plan_announce(a, in_seeders, in_leechers);
        announce_reply(
            live_seeders.len() as i64 + plan.seed_delta,
            live_leechers.len() as i64 + plan.leech_delta,
            live_seeders,
            live_leechers,
        )
    }
}

/// Appends the sorted-set updates of an announce.
fn push_membership(
    cmds: &mut Vec<Command>,
    a: &Announce,
    in_seeders: &Exists,
    in_leechers: &Exists,
    now: i64,
)
    ensures
        final(cmds).deep_view() == old(cmds).deep_view() + membership_cmds(
            a@,
            *in_seeders == Exists::Yes,
            *in_leechers == Exists::Yes,
            now as int,
        ),
{
    let ghost start = cmds.deep_view();
    let (s_key, l_key, _c_key) = make_redis_keys(&a.info_hash);
    if a.event == Event::Stopped {
        if bool::from(in_seeders) {
            push_cmd(cmds, zrem(&s_key, &a.ip_port));
        } else if bool::from(in_leechers) {
            push_cmd(cmds, zrem(&l_key, &a.ip_port));
        }
    } else if a.is_seeding {
        push_cmd(cmds, zadd(&s_key, now, &a.ip_port));
        if a.event == Event::Completed {
            if bool::from(in_leechers) {
                push_cmd(cmds, zrem(&l_key, &a.ip_port));
            }
            push_cmd(cmds, hincrby(&a.info_hash, downloaded_bytes(), 1));
        }
    } else {
        push_cmd(cmds, zadd(&l_key, now, &a.ip_port));
    }
    proof {
        assert(cmds.deep_view() =~~= start + membership_cmds(
            a@,
            *in_seeders == Exists::Yes,
            *in_leechers == Exists::Yes,
            now as int,
        ));
    }
}

/// Appends the count updates and the cache invalidation, or the caching of
/// `body` when the counts stay.
fn push_cache(cmds: &mut Vec<Command>, h: &Vec<u8>, plan: &Plan, body: &Vec<u8>)
    ensures
        final(cmds).deep_view() == old(cmds).deep_view() + cache_cmds(
            h@,
            plan.seed_delta as int,
            plan.leech_delta as int,
            body@,
        ),
{
    let ghost start = cmds.deep_view();
    let (_s_key, _l_key, c_key) = make_redis_keys(h);
    if plan.seed_delta != 0 || plan.leech_delta != 0 {
        if plan.seed_delta != 0 {
            push_cmd(cmds, hincrby(h, seeders_bytes(), plan.seed_delta));
        }
        if plan.leech_delta != 0 {
            push_cmd(cmds, hincrby(h, leechers_bytes(), plan.leech_delta));
        }
        push_cmd(cmds, del(&c_key));
    } else {
        push_cmd(cmds, incr(nochange_count_bytes()));
        push_cmd(cmds, set_ex(&c_key, body));
    }
    proof {
        assert(cmds.deep_view() =~~= start + cache_cmds(
            h@,
            plan.seed_delta as int,
            plan.leech_delta as int,
            body@,
        ));
    }
}

/// Everything the announce writes back to the store once its reply `body`
/// is known: the torrent's timestamp, the peer's sorted-set entry, the counts
/// and the cache, and the global counters.
pub fn write_back(
    a: &Announce,
    in_seeders: &Exists,
    in_leechers: &Exists,
    cache_hit: bool,
    body: &Vec<u8>,
    now: i64,
    duration: i64,
) -> (r: Vec<Command>)
    ensures
        r.deep_view() == write_back_cmds(
            a@,
            *in_seeders == Exists::Yes,
            *in_leechers == Exists::Yes,
            cache_hit,
            body@,
            now as int,
            duration as int,
        ),
{
    let ghost in_s = *in_seeders == Exists::Yes;
    let ghost in_l = *in_leechers == Exists::Yes;
    let plan = plan_announce(a, in_seeders, in_leechers);
    let mut cmds: Vec<Command> = Vec::new();
    push_cmd(&mut cmds, zadd(&torrents_bytes(), now, &a.info_hash));
    let ghost part1 = cmds.deep_view();
    push_membership(&mut cmds, a, in_seeders, in_leechers, now);
    let ghost part2 = cmds.deep_view();
    if cache_hit {
        push_cmd(&mut cmds, incr(cache_hit_count_bytes()));
    }
    let ghost part3 = cmds.deep_view();
    push_cache(&mut cmds, &a.info_hash, &plan, body);
    let ghost part4 = cmds.deep_view();
    push_cmd(&mut cmds, incr(announce_count_bytes()));
    push_cmd(&mut cmds, incrby(duration_total_bytes(), duration));
    proof {
        let m = membership_cmds(a@, in_s, in_l, now as int);
        let hc: Seq<Seq<Seq<u8>>> = if cache_hit {
            seq![incr_cmd(cache_hit_count_text())]
        } else {
            Seq::empty()
        };
        let cc = cache_cmds(a@.info_hash, seed_delta(a@, in_s, in_l), leech_delta(a@, in_s, in_l), body@);
        assert(part3 =~~= part2 + hc);
        assert(cmds.deep_view() =~~= part1 + m + hc + cc + seq![
            incr_cmd(announce_count_text()),
            incrby_cmd(duration_total_text(), duration as int),
        ]);
    }
    cmds
}

} // verus!
