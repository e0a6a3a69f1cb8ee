use vstd::prelude::*;

use crate::codec::{percent_decode, percent_decoded};
use crate::decimal::{all_digits, decimal_value, digits_value, parse_decimal};

verus! {

/// The `event` a peer reports with its announce.
#[derive(Clone, Copy, Debug, PartialEq, Eq, Structural)]
pub enum Event {
    Empty,
    Started,
    Completed,
    Stopped,
}

/// Why an announce query was refused.
#[derive(Clone, Copy, Debug, PartialEq, Eq, Structural)]
pub enum QueryError {
    ParseFailure,
    InvalidInfohash,
}

/// A parsed announce request.
#[derive(Clone, Debug)]
pub struct Announce {
    pub info_hash: Vec<u8>,
    pub peer_id: Vec<u8>,
    pub ip_port: Vec<u8>,
    pub event: Event,
    pub is_seeding: bool,
}

/// The mathematical value of an [`Announce`].
pub struct AnnounceView {
    pub info_hash: Seq<u8>,
    pub peer_id: Seq<u8>,
    pub ip_port: Seq<u8>,
    pub event: Event,
    pub is_seeding: bool,
}

impl View for Announce {
    type V = AnnounceView;

    open spec fn view(&self) -> AnnounceView {
        AnnounceView {
            info_hash: self.info_hash@,
            peer_id: self.peer_id@,
            ip_port: self.ip_port@,
            event: self.event,
            is_seeding: self.is_seeding,
        }
    }
}

/// Compact peer identity: the four address bytes, then the port big-endian.
pub open spec fn peer_bytes(ip: Seq<u8>, port: u16) -> Seq<u8> {
    ip + seq![(port / 256) as u8, (port % 256) as u8]
}

/// Index of the first `b` in `s`, or `s.len()` when there is none.
pub open spec fn first_index(s: Seq<u8>, b: u8) -> nat
    decreases s.len(),
{
    if s.len() == 0 {
        0
    } else if s[0] == b {
        0
    } else {
        1 + first_index(s.skip(1), b)
    }
}

/// Key and value of one `key=value` segment, split at the first `=`.
pub open spec fn split_pair(seg: Seq<u8>) -> (Seq<u8>, Seq<u8>) {
    let j = first_index(seg, 61);
    if j < seg.len() {
        (seg.take(j as int), seg.skip((j + 1) as int))
    } else {
        (seg, Seq::<u8>::empty())
    }
}

/// One segment with key and value percent-decoded.
pub open spec fn decoded_pair(seg: Seq<u8>) -> Option<(Seq<u8>, Seq<u8>)> {
    match (percent_decoded(split_pair(seg).0), percent_decoded(split_pair(seg).1)) {
        (Some(k), Some(v)) => Some((k, v)),
        _ => None,
    }
}

/// The decoded pairs of a query string split on `&`, in order; `None` when
/// some segment does not decode.
pub open spec fn query_pairs(q: Seq<u8>) -> Option<Seq<(Seq<u8>, Seq<u8>)>>
    decreases q.len(),
{
    let i = first_index(q, 38);
    match decoded_pair(q.take(i as int)) {
        None => None,
        Some(p) => if i >= q.len() {
            Some(seq![p])
        } else {
            match query_pairs(q.skip((i + 1) as int)) {
                Some(rest) => Some(seq![p] + rest),
                None => None,
            }
        },
    }
}

/// The value of the last pair whose key is `k`.
pub open spec fn last_value(ps: Seq<(Seq<u8>, Seq<u8>)>, k: Seq<u8>) -> Option<Seq<u8>>
    decreases ps.len(),
{
    if ps.len() == 0 {
        None
    } else if ps.last().0 == k {
        Some(ps.last().1)
    } else {
        last_value(ps.drop_last(), k)
    }
}

/// One dotted-quad component: one to three digits, no leading zero, at most 255.
pub open spec fn octet_value(s: Seq<u8>) -> Option<u8> {
    if 1 <= s.len() <= 3 && all_digits(s) && !(s.len() > 1 && s[0] == 48) && digits_value(s)
        <= 255 {
        Some(digits_value(s) as u8)
    } else {
        None
    }
}

/// `n` octets separated by dots.
pub open spec fn octets(s: Seq<u8>, n: nat) -> Option<Seq<u8>>
    decreases n,
{
    if n <= 1 {
        match octet_value(s) {
            Some(o) => Some(seq![o]),
            None => None,
        }
    } else {
        let i = first_index(s, 46);
        if i >= s.len() {
            None
        } else {
            match (octet_value(s.take(i as int)), octets(s.skip((i + 1) as int), (n - 1) as nat)) {
                (Some(o), Some(r)) => Some(seq![o] + r),
                _ => None,
            }
        }
    }
}

/// The four bytes of an IPv4 address written `a.b.c.d`.
pub open spec fn ipv4_of(s: Seq<u8>) -> Option<Seq<u8>> {
    octets(s, 4)
}

pub open spec fn event_of(v: Option<Seq<u8>>) -> Event {
    match v {
        Some(e) => if e == started_text() {
            Event::Started
        } else if e == completed_text() {
            Event::Completed
        } else if e == stopped_text() {
            Event::Stopped
        } else {
            Event::Empty
        },
        None => Event::Empty,
    }
}

/// The announce that the decoded pairs `ps` describe for a peer at `client_ip`.
pub open spec fn announce_of_pairs(client_ip: Seq<u8>, ps: Seq<(Seq<u8>, Seq<u8>)>) -> Result<
    AnnounceView,
    QueryError,
> {
    let ih = last_value(ps, info_hash_text());
    let port = last_value(ps, port_text());
    let left = last_value(ps, left_text());
    let ip = match last_value(ps, ip_text()) {
        Some(v) => match ipv4_of(v) {
            Some(a) => a,
            None => client_ip,
        },
        None => client_ip,
    };
    if !(ih is Some && ih.unwrap().len() == 20) {
        Err(QueryError::InvalidInfohash)
    } else if !(port is Some && decimal_value(port.unwrap()) is Some && decimal_value(
        port.unwrap(),
    ).unwrap() <= 65535) {
        Err(QueryError::ParseFailure)
    } else if left is Some && !(decimal_value(left.unwrap()) is Some && decimal_value(
        left.unwrap(),
    ).unwrap() <= u64::MAX) {
        Err(QueryError::ParseFailure)
    } else {
        Ok(
            AnnounceView {
                info_hash: ih.unwrap(),
                peer_id: match last_value(ps, peer_id_text()) {
                    Some(v) => v,
                    None => Seq::<u8>::empty(),
                },
                ip_port: peer_bytes(ip, decimal_value(port.unwrap()).unwrap() as u16),
                event: event_of(last_value(ps, event_text())),
                is_seeding: left is Some && decimal_value(left.unwrap()).unwrap() == 0,
            },
        )
    }
}

/// The announce that query `q` describes for a peer at `client_ip`.
pub open spec fn announce_of(client_ip: Seq<u8>, q: Seq<u8>) -> Result<AnnounceView, QueryError> {
    match query_pairs(q) {
        None => Err(QueryError::ParseFailure),
        Some(ps) => announce_of_pairs(client_ip, ps),
    }
}

/// `info_hash`
pub open spec fn info_hash_text() -> Seq<u8> {
    seq![105, 110, 102, 111, 95, 104, 97, 115, 104]
}

fn info_hash_bytes() -> (r: Vec<u8>)
    ensures
        r@ == info_hash_text(),
{
    vec![105, 110, 102, 111, 95, 104, 97, 115, 104]
}

/// `peer_id`
pub open spec fn peer_id_text() -> Seq<u8> {
    seq![112, 101, 101, 114, 95, 105, 100]
}

fn peer_id_bytes() -> (r: Vec<u8>)
    ensures
        r@ == peer_id_text(),
{
    vec![112, 101, 101, 114, 95, 105, 100]
}

/// `port`
pub open spec fn port_text() -> Seq<u8> {
    seq![112, 111, 114, 116]
}

fn port_bytes() -> (r: Vec<u8>)
    ensures
        r@ == port_text(),
{
    vec![112, 111, 114, 116]
}

/// `left`
pub open spec fn left_text() -> Seq<u8> {
    seq![108, 101, 102, 116]
}

fn left_bytes() -> (r: Vec<u8>)
    ensures
        r@ == left_text(),
{
    vec![108, 101, 102, 116]
}

/// `event`
pub open spec fn event_text() -> Seq<u8> {
    seq![101, 118, 101, 110, 116]
}

fn event_bytes() -> (r: Vec<u8>)
    ensures
        r@ == event_text(),
{
    vec![101, 118, 101, 110, 116]
}

/// `ip`
pub open spec fn ip_text() -> Seq<u8> {
    seq![105, 112]
}

fn ip_bytes() -> (r: Vec<u8>)
    ensures
        r@ == ip_text(),
{
    vec![105, 112]
}

/// `started`
pub open spec fn started_text() -> Seq<u8> {
    seq![115, 116, 97, 114, 116, 101, 100]
}

fn started_bytes() -> (r: Vec<u8>)
    ensures
        r@ == started_text(),
{
    vec![115, 116, 97, 114, 116, 101, 100]
}

/// `completed`
pub open spec fn completed_text() -> Seq<u8> {
    seq![99, 111, 109, 112, 108, 101, 116, 101, 100]
}

fn completed_bytes() -> (r: Vec<u8>)
    ensures
        r@ == completed_text(),
{
    vec![99, 111, 109, 112, 108, 101, 116, 101, 100]
}

/// `stopped`
pub open spec fn stopped_text() -> Seq<u8> {
    seq![115, 116, 111, 112, 112, 101, 100]
}

fn stopped_bytes() -> (r: Vec<u8>)
    ensures
        r@ == stopped_text(),
{
    vec![115, 116, 111, 112, 112, 101, 100]
}

pub proof fn lemma_first_index(s: Seq<u8>, b: u8, i: int)
    requires
        0 <= i <= s.len(),
        forall|j: int| 0 <= j < i ==> s[j] != b,
        i < s.len() ==> s[i] == b,
    ensures
        first_index(s, b) == i,
    decreases i,
{
    if i > 0 {
        let t = s.skip(1);
        assert forall|j: int| 0 <= j < i - 1 implies t[j] != b by {
            assert(t[j] == s[j + 1]);
        }
        lemma_first_index(t, b, i - 1);
    }
}

/// Position of the first `b` in `s[lo..hi]`, or `hi` when there is none.
fn find_byte(s: &[u8], lo: usize, hi: usize, b: u8) -> (r: usize)
    requires
        lo <= hi <= s@.len(),
    ensures
        lo <= r <= hi,
        first_index(s@.subrange(lo as int, hi as int), b) == r - lo,
{
    let mut i: usize = lo;
    while i < hi && s[i] != b
        invariant
            lo <= i <= hi <= s@.len(),
            forall|j: int| lo <= j < i ==> s@[j] != b,
        decreases hi - i,
    {
        i = i + 1;
    }
    proof {
        lemma_first_index(s@.subrange(lo as int, hi as int), b, i - lo);
    }
    i
}

/// Whether `a` and `b` hold the same bytes.
fn same_bytes(a: &Vec<u8>, b: &Vec<u8>) -> (r: bool)
    ensures
        r == (a@ == b@),
{
    if a.len() != b.len() {
        return false;
    }
    let mut i: usize = 0;
    while i < a.len()
        invariant
            a@.len() == b@.len(),
            i <= a@.len(),
            forall|j: int| 0 <= j < i ==> a@[j] == b@[j],
        decreases a@.len() - i,
    {
        if a[i] != b[i] {
            return false;
        }
        i = i + 1;
    }
    proof {
        assert(a@ =~= b@);
    }
    true
}

/// One dotted-quad component in `s[lo..hi]`.
fn parse_octet(s: &[u8], lo: usize, hi: usize) -> (r: Option<u8>)
    requires
        lo <= hi <= s@.len(),
    ensures
        r == octet_value(s@.subrange(lo as int, hi as int)),
{
    let ghost t = s@.subrange(lo as int, hi as int);
    if hi - lo < 1 || hi - lo > 3 {
        return None;
    }
    if hi - lo > 1 && s[lo] == 48 {
        assert(t[0] == 48);
        return None;
    }
    match parse_decimal(s, lo, hi, 255) {
        Some(n) => Some(n as u8),
        None => None,
    }
}

/// The four bytes of the IPv4 address written in `s`, if it is one.
pub fn parse_ipv4(s: &[u8]) -> (r: Option<Vec<u8>>)
    ensures
        match r {
            Some(v) => ipv4_of(s@) == Some(v@),
            None => ipv4_of(s@) is None,
        },
{
    let mut out: Vec<u8> = Vec::new();
    let mut lo: usize = 0;
    let mut k: usize = 0;
    proof {
        assert(s@.subrange(0, s@.len() as int) =~= s@);
        match octets(s@, 4) {
            Some(r) => {
                assert(out@ + r =~= r);
            },
            None => {},
        }
    }
    while k < 3
        invariant
            k <= 3,
            lo <= s@.len(),
            out@.len() == k,
            ipv4_of(s@) == match octets(s@.subrange(lo as int, s@.len() as int), (4 - k) as nat) {
                Some(r) => Some(out@ + r),
                None => None,
            },
        decreases 3 - k,
    {
        let ghost t = s@.subrange(lo as int, s@.len() as int);
        let i = find_byte(s, lo, s.len(), 46);
        if i >= s.len() {
            return None;
        }
        proof {
            assert(t.take(i - lo) =~= s@.subrange(lo as int, i as int));
            assert(t.skip(i - lo + 1) =~= s@.subrange(i + 1, s@.len() as int));
        }
        match parse_octet(s, lo, i) {
            Some(o) => {
                let ghost before = out@;
                out.push(o);
                lo = i + 1;
                k = k + 1;
                proof {
                    match octets(s@.subrange(lo as int, s@.len() as int), (4 - k) as nat) {
                        Some(r) => {
                            assert(before + (seq![o] + r) =~= out@ + r);
                        },
                        None => {},
                    }
                }
            },
            None => {
                return None;
            },
        }
    }
    match parse_octet(s, lo, s.len()) {
        Some(o) => {
            let ghost before = out@;
            out.push(o);
            proof {
                assert(before + seq![o] =~= out@);
            }
            Some(out)
        },
        None => None,
    }
}

/// A value that may be absent, as bytes.
pub open spec fn opt_view(o: Option<Vec<u8>>) -> Option<Seq<u8>> {
    match o {
        Some(v) => Some(v@),
        None => None,
    }
}

proof fn lemma_last_value_push(ps: Seq<(Seq<u8>, Seq<u8>)>, p: (Seq<u8>, Seq<u8>), k: Seq<u8>)
    ensures
        last_value(ps.push(p), k) == if p.0 == k {
            Some(p.1)
        } else {
            last_value(ps, k)
        },
{
    assert(ps.push(p).drop_last() =~= ps);
}

fn event_from(v: &Option<Vec<u8>>) -> (r: Event)
    ensures
        r == event_of(opt_view(*v)),
{
    match v {
        Some(e) => {
            if same_bytes(e, &started_bytes()) {
                Event::Started
            } else if same_bytes(e, &completed_bytes()) {
                Event::Completed
            } else if same_bytes(e, &stopped_bytes()) {
                Event::Stopped
            } else {
                Event::Empty
            }
        },
        None => Event::Empty,
    }
}

/// Compact peer identity of an IPv4 address (four bytes) and a port.
pub fn ip_port(ip: &Vec<u8>, port: u16) -> (r: Vec<u8>)
    ensures
        r@ == peer_bytes(ip@, port),
{
    let mut r: Vec<u8> = Vec::new();
    let mut i: usize = 0;
    while i < ip.len()
        invariant
            i <= ip@.len(),
            r@ == ip@.take(i as int),
        decreases ip@.len() - i,
    {
        r.push(ip[i]);
        i = i + 1;
        proof {
            assert(ip@.take(i as int) =~= ip@.take(i - 1).push(ip@[i - 1]));
        }
    }
    r.push((port / 256) as u8);
    r.push((port % 256) as u8);
    proof {
        assert(ip@.take(i as int) =~= ip@);
        assert(r@ =~= peer_bytes(ip@, port));
    }
    r
}

/// Parses the query string of an announce sent from the IPv4 address
/// `client_ip` (four bytes): pairs split on `&` and on the first `=`,
/// percent-decoded, the last of equal keys winning.
pub fn parse_announce(client_ip: &Vec<u8>, query: &[u8]) -> (r: Result<Announce, QueryError>)
    ensures
        match r {
            Ok(a) => announce_of(client_ip@, query@) == Ok::<AnnounceView, QueryError>(a@),
            Err(e) => announce_of(client_ip@, query@) == Err::<AnnounceView, QueryError>(e),
        },
{
    let n = query.len();
    let mut start: usize = 0;
    let mut info_hash: Option<Vec<u8>> = None;
    let mut peer_id: Option<Vec<u8>> = None;
    let mut port: Option<Vec<u8>> = None;
    let mut left: Option<Vec<u8>> = None;
    let mut event: Option<Vec<u8>> = None;
    let mut ip: Option<Vec<u8>> = None;
    let ghost mut ps: Seq<(Seq<u8>, Seq<u8>)> = Seq::empty();
    let k_info_hash = info_hash_bytes();
    let k_peer_id = peer_id_bytes();
    let k_port = port_bytes();
    let k_left = left_bytes();
    let k_event = event_bytes();
    let k_ip = ip_bytes();
    proof {
        assert(query@.subrange(0, n as int) =~= query@);
        match query_pairs(query@) {
            Some(rest) => {
                assert(ps + rest =~= rest);
            },
            None => {},
        }
    }
    loop
        invariant_except_break
            query_pairs(query@) == match query_pairs(query@.subrange(start as int, n as int)) {
                Some(rest) => Some(ps + rest),
                None => None,
            },
        invariant
            n == query@.len(),
            start <= n,
            k_info_hash@ == info_hash_text(),
            k_peer_id@ == peer_id_text(),
            k_port@ == port_text(),
            k_left@ == left_text(),
            k_event@ == event_text(),
            k_ip@ == ip_text(),
            opt_view(info_hash) == last_value(ps, info_hash_text()),
            opt_view(peer_id) == last_value(ps, peer_id_text()),
            opt_view(port) == last_value(ps, port_text()),
            opt_view(left) == last_value(ps, left_text()),
            opt_view(event) == last_value(ps, event_text()),
            opt_view(ip) == last_value(ps, ip_text()),
        ensures
            query_pairs(query@) == Some(ps),
        decreases n - start,
    {
        let ghost t = query@.subrange(start as int, n as int);
        let i = find_byte(query, start, n, 38);
        let j = find_byte(query, start, i, 61);
        let vlo: usize = if j < i {
            j + 1
        } else {
            i
        };
        proof {
            let seg = t.take(i - start);
            assert(seg =~= query@.subrange(start as int, i as int));
            if j < i {
                assert(seg.take(j - start) =~= query@.subrange(start as int, j as int));
                assert(seg.skip(j - start + 1) =~= query@.subrange(vlo as int, i as int));
            } else {
                assert(seg =~= query@.subrange(start as int, j as int));
                assert(query@.subrange(vlo as int, i as int) =~= Seq::<u8>::empty());
            }
        }
        let key = match percent_decode(query, start, j) {
            Some(x) => x,
            None => {
                return Err(QueryError::ParseFailure);
            },
        };
        let value = match percent_decode(query, vlo, i) {
            Some(x) => x,
            None => {
                return Err(QueryError::ParseFailure);
            },
        };
        let ghost p = (key@, value@);
        proof {
            lemma_last_value_push(ps, p, info_hash_text());
            lemma_last_value_push(ps, p, peer_id_text());
            lemma_last_value_push(ps, p, port_text());
            lemma_last_value_push(ps, p, left_text());
            lemma_last_value_push(ps, p, event_text());
            lemma_last_value_push(ps, p, ip_text());
            if i < n {
                assert(t.skip(i - start + 1) =~= query@.subrange(i + 1, n as int));
                match query_pairs(query@.subrange(i + 1, n as int)) {
                    Some(rest) => {
                        assert(ps + (seq![p] + rest) =~= ps.push(p) + rest);
                    },
                    None => {},
                }
            } else {
                assert(ps + seq![p] =~= ps.push(p));
            }
            ps = ps.push(p);
        }
        if same_bytes(&key, &k_info_hash) {
            info_hash = Some(value);
        } else if same_bytes(&key, &k_peer_id) {
            peer_id = Some(value);
        } else if same_bytes(&key, &k_port) {
            port = Some(value);
        } else if same_bytes(&key, &k_left) {
            left = Some(value);
        } else if same_bytes(&key, &k_event) {
            event = Some(value);
        } else if same_bytes(&key, &k_ip) {
            ip = Some(value);
        }
        if i >= n {
            break;
        }
        start = i + 1;
    }
    assert(query_pairs(query@) == Some(ps));
    let info_hash = match info_hash {
        Some(h) => {
            if h.len() != 20 {
                return Err(QueryError::InvalidInfohash);
            }
            h
        },
        None => {
            return Err(QueryError::InvalidInfohash);
        },
    };
    let port_number: u16 = match port {
        Some(p) => match parse_decimal(p.as_slice(), 0, p.len(), 65535) {
            Some(x) => {
                proof {
                    assert(p@.subrange(0, p@.len() as int) =~= p@);
                }
                x as u16
            },
            None => {
                proof {
                    assert(p@.subrange(0, p@.len() as int) =~= p@);
                }
                return Err(QueryError::ParseFailure);
            },
        },
        None => {
            return Err(QueryError::ParseFailure);
        },
    };
    let is_seeding = match left {
        Some(l) => match parse_decimal(l.as_slice(), 0, l.len(), u64::MAX) {
            Some(x) => {
                proof {
                    assert(l@.subrange(0, l@.len() as int) =~= l@);
                }
                x == 0
            },
            None => {
                proof {
                    assert(l@.subrange(0, l@.len() as int) =~= l@);
                }
                return Err(QueryError::ParseFailure);
            },
        },
        None => false,
    };
    let address = match ip {
        Some(v) => match parse_ipv4(v.as_slice()) {
            Some(a) => a,
            None => client_ip.clone(),
        },
        None => client_ip.clone(),
    };
    let peer = match peer_id {
        Some(v) => v,
        None => Vec::new(),
    };
    let ev = event_from(&event);
    let ip_port = ip_port(&address, port_number);
    let r = Announce { info_hash, peer_id: peer, ip_port, event: ev, is_seeding };
    proof {
        assert(r@ == announce_of_pairs(client_ip@, ps).unwrap());
    }
    Ok(r)
}

/// An info-hash of any length but twenty bytes is refused as such.
pub proof fn lemma_info_hash_length(client_ip: Seq<u8>, ps: Seq<(Seq<u8>, Seq<u8>)>, v: Seq<u8>)
    requires
        last_value(ps, info_hash_text()) == Some(v),
        v.len() != 20,
    ensures
        announce_of_pairs(client_ip, ps) == Err::<AnnounceView, QueryError>(
            QueryError::InvalidInfohash,
        ),
{
}

/// With a valid info-hash and `left`, a port above 65535 fails to parse, and every port
/// up to 65535 is taken and written big-endian after the address.
pub proof fn lemma_port_range(client_ip: Seq<u8>, ps: Seq<(Seq<u8>, Seq<u8>)>, v: Seq<u8>, n: nat)
    requires
        last_value(ps, info_hash_text()) is Some,
        last_value(ps, info_hash_text()).unwrap().len() == 20,
        last_value(ps, port_text()) == Some(v),
        decimal_value(v) == Some(n),
        last_value(ps, left_text()) is None || (decimal_value(last_value(ps, left_text()).unwrap())
            is Some && decimal_value(last_value(ps, left_text()).unwrap()).unwrap() <= u64::MAX),
    ensures
        n > 65535 ==> announce_of_pairs(client_ip, ps) == Err::<AnnounceView, QueryError>(
            QueryError::ParseFailure,
        ),
        n <= 65535 ==> announce_of_pairs(client_ip, ps) is Ok && announce_of_pairs(
            client_ip,
            ps,
        ).unwrap().ip_port.subrange(
            announce_of_pairs(client_ip, ps).unwrap().ip_port.len() - 2,
            announce_of_pairs(client_ip, ps).unwrap().ip_port.len() as int,
        ) == seq![(n / 256) as u8, (n % 256) as u8],
{
    if n <= 65535 {
        let a = announce_of_pairs(client_ip, ps).unwrap();
        assert(a.ip_port.subrange(a.ip_port.len() - 2, a.ip_port.len() as int) =~= seq![
            (n / 256) as u8,
            (n % 256) as u8,
        ]);
    }
}

/// An announce without `left` is a leecher's.
pub proof fn lemma_left_absent_leeches(client_ip: Seq<u8>, ps: Seq<(Seq<u8>, Seq<u8>)>)
    requires
        last_value(ps, left_text()) is None,
        announce_of_pairs(client_ip, ps) is Ok,
    ensures
        !announce_of_pairs(client_ip, ps).unwrap().is_seeding,
{
}

/// An `event` other than `started`, `completed` and `stopped` counts as none.
pub proof fn lemma_unknown_event(client_ip: Seq<u8>, ps: Seq<(Seq<u8>, Seq<u8>)>, e: Seq<u8>)
    requires
        last_value(ps, event_text()) == Some(e),
        e != started_text(),
        e != completed_text(),
        e != stopped_text(),
        announce_of_pairs(client_ip, ps) is Ok,
    ensures
        announce_of_pairs(client_ip, ps).unwrap().event == Event::Empty,
{
}

} // verus!
