use vstd::prelude::*;

use crate::codec::append_bytes;
use crate::decimal::{int_text, int_to_text};

verus! {

/// Store key of the seeders sorted set of info-hash `h`.
pub open spec fn seeders_key(h: Seq<u8>) -> Seq<u8> {
    h + seeders_suffix_text()
}

/// Store key of the leechers sorted set of info-hash `h`.
pub open spec fn leechers_key(h: Seq<u8>) -> Seq<u8> {
    h + leechers_suffix_text()
}

/// Store key of the cached reply of info-hash `h`.
pub open spec fn cache_key(h: Seq<u8>) -> Seq<u8> {
    h + cache_suffix_text()
}

pub open spec fn zscore_cmd(key: Seq<u8>, member: Seq<u8>) -> Seq<Seq<u8>> {
    seq![zscore_text(), key, member]
}

pub open spec fn get_cmd(key: Seq<u8>) -> Seq<Seq<u8>> {
    seq![get_text(), key]
}

pub open spec fn zadd_cmd(key: Seq<u8>, score: int, member: Seq<u8>) -> Seq<Seq<u8>> {
    seq![zadd_text(), key, int_text(score), member]
}

pub open spec fn zrem_cmd(key: Seq<u8>, member: Seq<u8>) -> Seq<Seq<u8>> {
    seq![zrem_text(), key, member]
}

pub open spec fn hincrby_cmd(key: Seq<u8>, field: Seq<u8>, by: int) -> Seq<Seq<u8>> {
    seq![hincrby_text(), key, field, int_text(by)]
}

pub open spec fn del_cmd(key: Seq<u8>) -> Seq<Seq<u8>> {
    seq![del_text(), key]
}

/// `SET key value EX 1800`: the value expires after thirty minutes.
pub open spec fn set_ex_cmd(key: Seq<u8>, value: Seq<u8>) -> Seq<Seq<u8>> {
    seq![set_text(), key, value, ex_text(), ttl_text()]
}

pub open spec fn incr_cmd(key: Seq<u8>) -> Seq<Seq<u8>> {
    seq![incr_text(), key]
}

pub open spec fn incrby_cmd(key: Seq<u8>, by: int) -> Seq<Seq<u8>> {
    seq![incrby_text(), key, int_text(by)]
}

/// Members of `key` scored in `[min, max]`, at most fifty of them.
pub open spec fn zrangebyscore_cmd(key: Seq<u8>, min: int, max: int) -> Seq<Seq<u8>> {
    seq![zrangebyscore_text(), key, int_text(min), int_text(max), limit_text(), zero_text(), fifty_text()]
}

/// `ZSCORE`
pub open spec fn zscore_text() -> Seq<u8> {
    seq![90, 83, 67, 79, 82, 69]
}

pub fn zscore_bytes() -> (r: Vec<u8>)
    ensures
        r@ == zscore_text(),
{
    vec![90, 83, 67, 79, 82, 69]
}

/// `GET`
pub open spec fn get_text() -> Seq<u8> {
    seq![71, 69, 84]
}

pub fn get_bytes() -> (r: Vec<u8>)
    ensures
        r@ == get_text(),
{
    vec![71, 69, 84]
}

/// `ZADD`
pub open spec fn zadd_text() -> Seq<u8> {
    seq![90, 65, 68, 68]
}

pub fn zadd_bytes() -> (r: Vec<u8>)
    ensures
        r@ == zadd_text(),
{
    vec![90, 65, 68, 68]
}

/// `ZREM`
pub open spec fn zrem_text() -> Seq<u8> {
    seq![90, 82, 69, 77]
}

pub fn zrem_bytes() -> (r: Vec<u8>)
    ensures
        r@ == zrem_text(),
{
    vec![90, 82, 69, 77]
}

/// `HINCRBY`
pub open spec fn hincrby_text() -> Seq<u8> {
    seq![72, 73, 78, 67, 82, 66, 89]
}

pub fn hincrby_bytes() -> (r: Vec<u8>)
    ensures
        r@ == hincrby_text(),
{
    vec![72, 73, 78, 67, 82, 66, 89]
}

/// `DEL`
pub open spec fn del_text() -> Seq<u8> {
    seq![68, 69, 76]
}

pub fn del_bytes() -> (r: Vec<u8>)
    ensures
        r@ == del_text(),
{
    vec![68, 69, 76]
}

/// `SET`
pub open spec fn set_text() -> Seq<u8> {
    seq![83, 69, 84]
}

pub fn set_bytes() -> (r: Vec<u8>)
    ensures
        r@ == set_text(),
{
    vec![83, 69, 84]
}

/// `EX`
pub open spec fn ex_text() -> Seq<u8> {
    seq![69, 88]
}

pub fn ex_bytes() -> (r: Vec<u8>)
    ensures
        r@ == ex_text(),
{
    vec![69, 88]
}

/// `1800`
pub open spec fn ttl_text() -> Seq<u8> {
    seq![49, 56, 48, 48]
}

pub fn ttl_bytes() -> (r: Vec<u8>)
    ensures
        r@ == ttl_text(),
{
    vec![49, 56, 48, 48]
}

/// `INCR`
pub open spec fn incr_text() -> Seq<u8> {
    seq![73, 78, 67, 82]
}

pub fn incr_bytes() -> (r: Vec<u8>)
    ensures
        r@ == incr_text(),
{
    vec![73, 78, 67, 82]
}

/// `INCRBY`
pub open spec fn incrby_text() -> Seq<u8> {
    seq![73, 78, 67, 82, 66, 89]
}

pub fn incrby_bytes() -> (r: Vec<u8>)
    ensures
        r@ == incrby_text(),
{
    vec![73, 78, 67, 82, 66, 89]
}

/// `ZRANGEBYSCORE`
pub open spec fn zrangebyscore_text() -> Seq<u8> {
    seq![90, 82, 65, 78, 71, 69, 66, 89, 83, 67, 79, 82, 69]
}

pub fn zrangebyscore_bytes() -> (r: Vec<u8>)
    ensures
        r@ == zrangebyscore_text(),
{
    vec![90, 82, 65, 78, 71, 69, 66, 89, 83, 67, 79, 82, 69]
}

/// `LIMIT`
pub open spec fn limit_text() -> Seq<u8> {
    seq![76, 73, 77, 73, 84]
}

pub fn limit_bytes() -> (r: Vec<u8>)
    ensures
        r@ == limit_text(),
{
    vec![76, 73, 77, 73, 84]
}

/// `0`
pub open spec fn zero_text() -> Seq<u8> {
    seq![48]
}

pub fn zero_bytes() -> (r: Vec<u8>)
    ensures
        r@ == zero_text(),
{
    vec![48]
}

/// `50`
pub open spec fn fifty_text() -> Seq<u8> {
    seq![53, 48]
}

pub fn fifty_bytes() -> (r: Vec<u8>)
    ensures
        r@ == fifty_text(),
{
    vec![53, 48]
}

/// `downloaded`
pub open spec fn downloaded_text() -> Seq<u8> {
    seq![100, 111, 119, 110, 108, 111, 97, 100, 101, 100]
}

pub fn downloaded_bytes() -> (r: Vec<u8>)
    ensures
        r@ == downloaded_text(),
{
    vec![100, 111, 119, 110, 108, 111, 97, 100, 101, 100]
}

/// `seeders`
pub open spec fn seeders_text() -> Seq<u8> {
    seq![115, 101, 101, 100, 101, 114, 115]
}

pub fn seeders_bytes() -> (r: Vec<u8>)
    ensures
        r@ == seeders_text(),
{
    vec![115, 101, 101, 100, 101, 114, 115]
}

/// `leechers`
pub open spec fn leechers_text() -> Seq<u8> {
    seq![108, 101, 101, 99, 104, 101, 114, 115]
}

pub fn leechers_bytes() -> (r: Vec<u8>)
    ensures
        r@ == leechers_text(),
{
    vec![108, 101, 101, 99, 104, 101, 114, 115]
}

/// `TORRENTS`
pub open spec fn torrents_text() -> Seq<u8> {
    seq![84, 79, 82, 82, 69, 78, 84, 83]
}

pub fn torrents_bytes() -> (r: Vec<u8>)
    ensures
        r@ == torrents_text(),
{
    vec![84, 79, 82, 82, 69, 78, 84, 83]
}

/// `ANNOUNCE_COUNT`
pub open spec fn announce_count_text() -> Seq<u8> {
    seq![65, 78, 78, 79, 85, 78, 67, 69, 95, 67, 79, 85, 78, 84]
}

pub fn announce_count_bytes() -> (r: Vec<u8>)
    ensures
        r@ == announce_count_text(),
{
    vec![65, 78, 78, 79, 85, 78, 67, 69, 95, 67, 79, 85, 78, 84]
}

/// `CACHE_HIT_ANNOUNCE_COUNT`
pub open spec fn cache_hit_count_text() -> Seq<u8> {
    seq![67, 65, 67, 72, 69, 95, 72, 73, 84, 95, 65, 78, 78, 79, 85, 78, 67, 69, 95, 67, 79, 85, 78, 84]
}

pub fn cache_hit_count_bytes() -> (r: Vec<u8>)
    ensures
        r@ == cache_hit_count_text(),
{
    vec![67, 65, 67, 72, 69, 95, 72, 73, 84, 95, 65, 78, 78, 79, 85, 78, 67, 69, 95, 67, 79, 85, 78, 84]
}

/// `NOCHANGE_ANNOUNCE_COUNT`
pub open spec fn nochange_count_text() -> Seq<u8> {
    seq![78, 79, 67, 72, 65, 78, 71, 69, 95, 65, 78, 78, 79, 85, 78, 67, 69, 95, 67, 79, 85, 78, 84]
}

pub fn nochange_count_bytes() -> (r: Vec<u8>)
    ensures
        r@ == nochange_count_text(),
{
    vec![78, 79, 67, 72, 65, 78, 71, 69, 95, 65, 78, 78, 79, 85, 78, 67, 69, 95, 67, 79, 85, 78, 84]
}

/// `REQ_DURATION_TOTAL_MS`
pub open spec fn duration_total_text() -> Seq<u8> {
    seq![82, 69, 81, 95, 68, 85, 82, 65, 84, 73, 79, 78, 95, 84, 79, 84, 65, 76, 95, 77, 83]
}

pub fn duration_total_bytes() -> (r: Vec<u8>)
    ensures
        r@ == duration_total_text(),
{
    vec![82, 69, 81, 95, 68, 85, 82, 65, 84, 73, 79, 78, 95, 84, 79, 84, 65, 76, 95, 77, 83]
}

/// `_seeders`
pub open spec fn seeders_suffix_text() -> Seq<u8> {
    seq![95, 115, 101, 101, 100, 101, 114, 115]
}

pub fn seeders_suffix_bytes() -> (r: Vec<u8>)
    ensures
        r@ == seeders_suffix_text(),
{
    vec![95, 115, 101, 101, 100, 101, 114, 115]
}

/// `_leechers`
pub open spec fn leechers_suffix_text() -> Seq<u8> {
    seq![95, 108, 101, 101, 99, 104, 101, 114, 115]
}

pub fn leechers_suffix_bytes() -> (r: Vec<u8>)
    ensures
        r@ == leechers_suffix_text(),
{
    vec![95, 108, 101, 101, 99, 104, 101, 114, 115]
}

/// `_cache`
pub open spec fn cache_suffix_text() -> Seq<u8> {
    seq![95, 99, 97, 99, 104, 101]
}

pub fn cache_suffix_bytes() -> (r: Vec<u8>)
    ensures
        r@ == cache_suffix_text(),
{
    vec![95, 99, 97, 99, 104, 101]
}

/// A copy of `v`.
pub fn copy_bytes(v: &Vec<u8>) -> (r: Vec<u8>)
    ensures
        r@ == v@,
{
    let mut r: Vec<u8> = Vec::new();
    append_bytes(&mut r, v);
    proof {
        assert(Seq::<u8>::empty() + v@ =~= v@);
    }
    r
}

/// The three store keys of a swarm: seeders, leechers and cached reply.
pub fn make_redis_keys(h: &Vec<u8>) -> (r: (Vec<u8>, Vec<u8>, Vec<u8>))
    ensures
        r.0@ == seeders_key(h@),
        r.1@ == leechers_key(h@),
        r.2@ == cache_key(h@),
{
    let mut s = copy_bytes(h);
    append_bytes(&mut s, &seeders_suffix_bytes());
    let mut l = copy_bytes(h);
    append_bytes(&mut l, &leechers_suffix_bytes());
    let mut c = copy_bytes(h);
    append_bytes(&mut c, &cache_suffix_bytes());
    (s, l, c)
}

pub fn zscore(key: &Vec<u8>, member: &Vec<u8>) -> (r: Vec<Vec<u8>>)
    ensures
        r.deep_view() == zscore_cmd(key@, member@),
{
    let r = vec![zscore_bytes(), copy_bytes(key), copy_bytes(member)];
    proof {
        assert(r.deep_view() =~~= zscore_cmd(key@, member@));
    }
    r
}

pub fn get(key: &Vec<u8>) -> (r: Vec<Vec<u8>>)
    ensures
        r.deep_view() == get_cmd(key@),
{
    let r = vec![get_bytes(), copy_bytes(key)];
    proof {
        assert(r.deep_view() =~~= get_cmd(key@));
    }
    r
}

pub fn zadd(key: &Vec<u8>, score: i64, member: &Vec<u8>) -> (r: Vec<Vec<u8>>)
    ensures
        r.deep_view() == zadd_cmd(key@, score as int, member@),
{
    let r = vec![zadd_bytes(), copy_bytes(key), int_to_text(score), copy_bytes(member)];
    proof {
        assert(r.deep_view() =~~= zadd_cmd(key@, score as int, member@));
    }
    r
}

pub fn zrem(key: &Vec<u8>, member: &Vec<u8>) -> (r: Vec<Vec<u8>>)
    ensures
        r.deep_view() == zrem_cmd(key@, member@),
{
    let r = vec![zrem_bytes(), copy_bytes(key), copy_bytes(member)];
    proof {
        assert(r.deep_view() =~~= zrem_cmd(key@, member@));
    }
    r
}

pub fn hincrby(key: &Vec<u8>, field: Vec<u8>, by: i64) -> (r: Vec<Vec<u8>>)
    ensures
        r.deep_view() == hincrby_cmd(key@, field@, by as int),
{
    let r = vec![hincrby_bytes(), copy_bytes(key), field, int_to_text(by)];
    proof {
        assert(r.deep_view() =~~= hincrby_cmd(key@, field@, by as int));
    }
    r
}

pub fn del(key: &Vec<u8>) -> (r: Vec<Vec<u8>>)
    ensures
        r.deep_view() == del_cmd(key@),
{
    let r = vec![del_bytes(), copy_bytes(key)];
    proof {
        assert(r.deep_view() =~~= del_cmd(key@));
    }
    r
}

pub fn set_ex(key: &Vec<u8>, value: &Vec<u8>) -> (r: Vec<Vec<u8>>)
    ensures
        r.deep_view() == set_ex_cmd(key@, value@),
{
    let r = vec![set_bytes(), copy_bytes(key), copy_bytes(value), ex_bytes(), ttl_bytes()];
    proof {
        assert(r.deep_view() =~~= set_ex_cmd(key@, value@));
    }
    r
}

pub fn incr(key: Vec<u8>) -> (r: Vec<Vec<u8>>)
    ensures
        r.deep_view() == incr_cmd(key@),
{
    let r = vec![incr_bytes(), key];
    proof {
        assert(r.deep_view() =~~= incr_cmd(key@));
    }
    r
}

pub fn incrby(key: Vec<u8>, by: i64) -> (r: Vec<Vec<u8>>)
    ensures
        r.deep_view() == incrby_cmd(key@, by as int),
{
    let r = vec![incrby_bytes(), key, int_to_text(by)];
    proof {
        assert(r.deep_view() =~~= incrby_cmd(key@, by as int));
    }
    r
}

pub fn zrangebyscore(key: &Vec<u8>, min: i64, max: i64) -> (r: Vec<Vec<u8>>)
    ensures
        r.deep_view() == zrangebyscore_cmd(key@, min as int, max as int),
{
    let r = vec![
        zrangebyscore_bytes(),
        copy_bytes(key),
        int_to_text(min),
        int_to_text(max),
        limit_bytes(),
        zero_bytes(),
        fifty_bytes(),
    ];
    proof {
        assert(r.deep_view() =~~= zrangebyscore_cmd(key@, min as int, max as int));
    }
    r
}

} // verus!
