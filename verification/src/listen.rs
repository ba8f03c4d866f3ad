//! What the listener does with requests: answering from the cache, framing on
//! streams, and how many connections stay open.

use crate::bytes::{append, be32, from_be32, get_be32, lemma_be32_round_trip, put_be32};
use crate::error::Error;
use crate::lookaside::{checked, finished, law_reply_is_resent, Check, Lookaside, ENTRY_OVERHEAD};
use crate::num::{decimal, push_decimal};
use crate::text::concat;
use vstd::prelude::*;
use vstd::string::*;

verus! {

/// What is said of an error in a datagram.
pub const WHILE_DISPATCHING_UDP: &'static str = "while dispatching (udp)";

/// What is said of an error on a stream.
pub const WHILE_DISPATCHING_TCP: &'static str = "while dispatching (tcp)";

/// Streams that are served at a time.
pub const MAX_TCP_WORKERS: usize = 45;

/// The longest request on a stream: four octets less than a mebibyte.
pub const MAX_TCP_REQUEST: usize = 1_048_572;

/// The longest reply in a datagram.
pub const MAX_DGRAM_REPLY: usize = 65_536;

/// What the listener may use.
#[derive(Clone, Copy, Debug, PartialEq, Eq, Structural)]
pub struct ListenLimits {
    /// Streams that are served at a time.
    pub max_tcp_workers: usize,
    /// The longest request on a stream.
    pub max_tcp_request: usize,
    /// The longest reply in a datagram.
    pub max_dgram_reply_size: usize,
    /// Milliseconds that an exchange on a stream may take.
    pub io_timeout: u64,
    /// Milliseconds between two looks at the shutdown flag.
    pub shutdown_poll: u64,
}

impl Default for ListenLimits {
    fn default() -> (r: ListenLimits)
        ensures
            r == (ListenLimits {
                max_tcp_workers: MAX_TCP_WORKERS,
                max_tcp_request: MAX_TCP_REQUEST,
                max_dgram_reply_size: MAX_DGRAM_REPLY,
                io_timeout: 5_000,
                shutdown_poll: 250,
            }),
    {
        ListenLimits {
            max_tcp_workers: MAX_TCP_WORKERS,
            max_tcp_request: MAX_TCP_REQUEST,
            max_dgram_reply_size: MAX_DGRAM_REPLY,
            io_timeout: 5_000,
            shutdown_poll: 250,
        }
    }
}

/// What is done with a request that comes in.
#[derive(Clone, Debug, PartialEq, Eq)]
pub enum Arrival {
    /// The reply is sent again.
    Resend(Vec<u8>),
    /// The request is dropped: it is being processed.
    Drop,
    /// The request is processed.
    Process,
}

/// Looks up a request that comes in at time `now`.
pub fn arrive(cache: &mut Lookaside, req: &[u8], now: u64) -> (r: Arrival)
    requires
        old(cache).wf(),
        old(cache).next_gen < u64::MAX,
        ENTRY_OVERHEAD + req@.len() <= usize::MAX,
    ensures
        final(cache).wf(),
        match r {
            Arrival::Resend(b) => exists|v: Vec<u8>|
                v@ == b@ && #[trigger] checked(
                    *old(cache),
                    *final(cache),
                    req@,
                    now,
                    Check::Hit(v),
                ),
            Arrival::Drop => checked(*old(cache), *final(cache), req@, now, Check::InProgress),
            Arrival::Process => checked(*old(cache), *final(cache), req@, now, Check::Fresh),
        },
{
    match cache.check_or_mark_at(req, now) {
        Check::Hit(reply) => Arrival::Resend(reply),
        Check::InProgress => Arrival::Drop,
        Check::Fresh => Arrival::Process,
    }
}

/// How processing a request ended.
#[derive(Clone, Debug, PartialEq, Eq)]
pub enum Outcome {
    /// With a reply, which is empty where there is none.
    Reply(Vec<u8>),
    /// With an error.
    Failed(Error),
    /// With a panic.
    Panicked,
}

/// What is done when a request was processed.
#[derive(Clone, Debug, PartialEq, Eq)]
pub enum Dispatch {
    /// These octets are sent, where there are any.
    Send(Vec<u8>),
    /// Nothing: the request is a duplicate.
    Drop,
    /// The error is logged.
    Error(Error),
    /// The panic is logged.
    Panic,
}

/// The reply that the cache keeps.
pub open spec fn kept_reply(o: Outcome) -> Option<Seq<u8>> {
    match o {
        Outcome::Reply(v) => if v@.len() > 0 {
            Some(v@)
        } else {
            None
        },
        _ => None,
    }
}

/// Ends the processing of a request at time `now`: only a reply that is not
/// empty is kept.
pub fn depart(cache: &mut Lookaside, req: &[u8], outcome: Outcome, now: u64) -> (r: Dispatch)
    requires
        old(cache).wf(),
        old(cache).next_gen < u64::MAX,
        ENTRY_OVERHEAD + req@.len() + (match kept_reply(outcome) {
            Some(b) => b.len(),
            None => 0,
        }) <= usize::MAX,
    ensures
        final(cache).wf(),
        finished(*old(cache), *final(cache), req@, kept_reply(outcome), now),
        r == (match outcome {
            Outcome::Reply(v) => Dispatch::Send(v),
            Outcome::Failed(e) => Dispatch::Error(e),
            Outcome::Panicked => Dispatch::Panic,
        }),
{
    match outcome {
        Outcome::Reply(v) => {
            if v.len() > 0 {
                cache.finish_at(req, Some(v.as_slice()), now);
            } else {
                cache.finish_at(req, None, now);
            }
            Dispatch::Send(v)
        },
        Outcome::Failed(e) => {
            cache.finish_at(req, None, now);
            Dispatch::Error(e)
        },
        Outcome::Panicked => {
            cache.finish_at(req, None, now);
            Dispatch::Panic
        },
    }
}

/// A request that was answered is answered in the same way when it comes
/// again.
pub proof fn law_retransmit_gets_the_reply(
    before: Lookaside,
    mid: Lookaside,
    after: Lookaside,
    req: Seq<u8>,
    reply: Vec<u8>,
    t1: u64,
    t2: u64,
    r: Check,
)
    requires
        mid.wf(),
        reply@.len() > 0,
        finished(before, mid, req, kept_reply(Outcome::Reply(reply)), t1),
        checked(mid, after, req, t2, r),
    ensures
        r matches Check::Hit(v) && v@ == reply@,
{
    law_reply_is_resent(before, mid, after, req, reply@, t1, t2, r);
}

/// What goes out as a datagram: nothing where there is no reply, and `too_big`
/// in place of a reply that is longer than the limit.
pub open spec fn spec_udp_answer(reply: Vec<u8>, limit: usize, too_big: Vec<u8>) -> Option<
    Vec<u8>,
> {
    if reply@.len() == 0 {
        None
    } else if reply@.len() > limit {
        Some(too_big)
    } else {
        Some(reply)
    }
}

/// A reply that a datagram can hold goes out as it is, up to the limit and no
/// further; without a reply nothing goes out.
pub proof fn law_datagram_holds_the_limit(reply: Vec<u8>, limit: usize, too_big: Vec<u8>)
    ensures
        0 < reply@.len() <= limit ==> spec_udp_answer(reply, limit, too_big) == Some(reply),
        reply@.len() > limit ==> spec_udp_answer(reply, limit, too_big) == Some(too_big),
        spec_udp_answer(reply, limit, too_big) is None <==> reply@.len() == 0,
        spec_udp_answer(reply, limit, too_big) matches Some(v) ==> v@.len() <= limit || v
            == too_big,
{
}

/// What goes out as a datagram.
pub fn udp_answer(reply: Vec<u8>, limit: usize, too_big: Vec<u8>) -> (r: Option<Vec<u8>>)
    ensures
        r == spec_udp_answer(reply, limit, too_big),
{
    if reply.len() == 0 {
        None
    } else if reply.len() > limit {
        Some(too_big)
    } else {
        Some(reply)
    }
}

/// What the length in front of a request on a stream says.
#[derive(Clone, Copy, Debug, PartialEq, Eq, Structural)]
pub enum StreamLength {
    /// There is no request; the stream is closed.
    Close,
    /// The request is too long; an error is sent.
    TooLong(u32),
    /// The request has this length.
    Read(u32),
}

/// What a length says.
pub open spec fn judged_length(n: u32, max_body: usize) -> StreamLength {
    if n == 0 {
        StreamLength::Close
    } else if n > max_body {
        StreamLength::TooLong(n)
    } else {
        StreamLength::Read(n)
    }
}

/// Judges the length in front of a request.
pub fn judge_length(header: &[u8], max_body: usize) -> (r: StreamLength)
    requires
        header@.len() == 4,
    ensures
        r == judged_length(from_be32(header@, 0), max_body),
{
    let n: u32 = get_be32(header, 0);
    if n == 0 {
        StreamLength::Close
    } else if n as u64 > max_body as u64 {
        StreamLength::TooLong(n)
    } else {
        StreamLength::Read(n)
    }
}

/// What is said of a request that is too long.
pub fn too_long_message(n: u32) -> (r: String)
    ensures
        r@ == "error constructing KRB_ERR_FIELD_TOOLONG error! length "@ + decimal(n as nat),
{
    let mut out = concat("error constructing KRB_ERR_FIELD_TOOLONG error! length ", "");
    proof {
        reveal_strlit("");
        assert(out@ =~= "error constructing KRB_ERR_FIELD_TOOLONG error! length "@);
    }
    push_decimal(&mut out, n as u64);
    out
}

/// A reply on a stream: its length, then its octets. There is none for an
/// empty reply.
pub open spec fn stream_frame(reply: Seq<u8>) -> Option<Seq<u8>> {
    if reply.len() == 0 {
        None
    } else {
        Some(be32(reply.len() as u32) + reply)
    }
}

/// A reply on a stream; an error where its length does not fit.
pub fn frame_reply(reply: &[u8]) -> (r: Result<Option<Vec<u8>>, &'static str>)
    ensures
        match r {
            Ok(Some(v)) => reply@.len() <= u32::MAX && stream_frame(reply@) == Some(v@),
            Ok(None) => reply@.len() == 0,
            Err(m) => reply@.len() > u32::MAX && m@ == "reply too large"@,
        },
{
    if reply.len() == 0 {
        return Ok(None);
    }
    if reply.len() as u64 > 0xffff_ffff {
        return Err("reply too large");
    }
    let mut out: Vec<u8> = Vec::new();
    put_be32(&mut out, reply.len() as u32);
    append(&mut out, reply);
    proof {
        assert(out@ =~= be32(reply@.len() as u32) + reply@);
    }
    Ok(Some(out))
}

/// The length in front of a reply is the length of the reply.
pub proof fn law_frame_tells_length(reply: Seq<u8>, max_body: usize)
    requires
        0 < reply.len() <= u32::MAX,
        reply.len() <= max_body,
    ensures
        stream_frame(reply) matches Some(f) && judged_length(from_be32(f, 0), max_body)
            == StreamLength::Read(reply.len() as u32) && f.skip(4) == reply,
{
    let n = reply.len() as u32;
    let f = be32(n) + reply;
    lemma_be32_round_trip(n);
    assert(f[0] == be32(n)[0] && f[1] == be32(n)[1] && f[2] == be32(n)[2] && f[3] == be32(n)[3]);
    assert(from_be32(f, 0) == from_be32(be32(n), 0));
    assert(f.skip(4) =~= reply);
}

/// The streams that are open, by the numbers that they were given.
pub struct ConnRegistry {
    /// Streams that may be open at a time.
    pub cap: usize,
    /// Number of the next stream.
    pub next_seq: u64,
    /// Numbers of the streams that are open, oldest first.
    pub live: Vec<u64>,
}

impl ConnRegistry {
    /// Numbers ascend, and one stream may be open at least.
    pub open spec fn wf(&self) -> bool {
        &&& self.cap >= 1
        &&& forall|i: int, j: int|
            0 <= i < j < self.live@.len() ==> #[trigger] self.live@[i] < #[trigger] self.live@[j]
        &&& forall|i: int| 0 <= i < self.live@.len() ==> #[trigger] self.live@[i] < self.next_seq
    }

    /// A registry for `cap` streams, or for one where that is zero.
    pub fn new(cap: usize) -> (r: ConnRegistry)
        ensures
            r.wf(),
            r.cap == (if cap == 0 {
                1
            } else {
                cap
            }),
            r.live@.len() == 0,
            r.next_seq == 0,
    {
        ConnRegistry {
            cap: if cap == 0 {
                1
            } else {
                cap
            },
            next_seq: 0,
            live: Vec::new(),
        }
    }

    /// Registers a stream and gives its number. Where that makes too many, the
    /// oldest are closed: their numbers come back.
    pub fn register(&mut self) -> (r: (u64, Vec<u64>))
        requires
            old(self).wf(),
            old(self).next_seq < u64::MAX,
        ensures
            final(self).wf(),
            r.0 == old(self).next_seq,
            final(self).next_seq == old(self).next_seq + 1,
            final(self).cap == old(self).cap,
            ({
                let all = old(self).live@.push(r.0);
                let gone = if all.len() > old(self).cap {
                    all.len() - old(self).cap
                } else {
                    0
                };
                r.1@ == all.take(gone) && final(self).live@ == all.skip(gone)
            }),
            final(self).live@.len() <= final(self).cap,
            final(self).live@.last() == r.0,
    {
        let seq: u64 = self.next_seq;
        self.next_seq = self.next_seq + 1;
        self.live.push(seq);
        let ghost all = self.live@;
        let mut gone: Vec<u64> = Vec::new();
        proof {
            assert(all == old(self).live@.push(seq));
            assert(all.take(0) =~= Seq::<u64>::empty());
            assert(all.skip(0) =~= all);
        }
        while self.live.len() > self.cap
            invariant
                self.cap == old(self).cap,
                self.cap >= 1,
                self.next_seq == old(self).next_seq + 1,
                gone@.len() + self.live@.len() == all.len(),
                gone@.len() > 0 ==> self.live@.len() >= self.cap,
                gone@ == all.take(gone@.len() as int),
                self.live@ == all.skip(gone@.len() as int),
            decreases self.live@.len(),
        {
            let ghost k = gone@.len() as int;
            let first: u64 = self.live.remove(0);
            gone.push(first);
            proof {
                assert(gone@ =~= all.take(k + 1));
                assert(self.live@ =~= all.skip(k + 1));
            }
        }
        proof {
            let k = gone@.len() as int;
            assert forall|i: int, j: int| 0 <= i < j < self.live@.len() implies #[trigger] self.live@[i]
                < #[trigger] self.live@[j] by {
                assert(self.live@[i] == all[i + k]);
                assert(self.live@[j] == all[j + k]);
            }
            assert forall|i: int| 0 <= i < self.live@.len() implies #[trigger] self.live@[i]
                < self.next_seq by {
                assert(self.live@[i] == all[i + k]);
            }
            assert(self.live@.last() == all.last());
        }
        (seq, gone)
    }

    /// Takes a stream out that has ended; one that is not there changes
    /// nothing.
    pub fn deregister(&mut self, seq: u64)
        requires
            old(self).wf(),
        ensures
            final(self).wf(),
            final(self).cap == old(self).cap,
            final(self).next_seq == old(self).next_seq,
            !final(self).live@.contains(seq),
            if old(self).live@.contains(seq) {
                exists|i: int|
                    0 <= i < old(self).live@.len() && #[trigger] old(self).live@[i] == seq && final(
                        self).live@ == old(self).live@.remove(i)
            } else {
                final(self).live@ == old(self).live@
            },
    {
        let mut i: usize = 0;
        while i < self.live.len()
            invariant
                i <= self.live@.len(),
                *self == *old(self),
                self.wf(),
                forall|k: int| 0 <= k < i ==> self.live@[k] != seq,
            decreases self.live@.len() - i,
        {
            if self.live[i] == seq {
                let ghost before = self.live@;
                let gone: u64 = self.live.remove(i);
                proof {
                    assert(before[i as int] == seq);
                    assert(before.contains(seq));
                    assert forall|k: int| 0 <= k < self.live@.len() implies self.live@[k] != seq by {
                        if k < i {
                            assert(self.live@[k] == before[k]);
                        } else {
                            assert(self.live@[k] == before[k + 1]);
                            assert(before[i as int] < before[k + 1]);
                        }
                    }
                    assert forall|a: int, b: int| 0 <= a < b < self.live@.len() implies #[trigger] self.live@[a]
                        < #[trigger] self.live@[b] by {
                        let x = if a < i {
                            a
                        } else {
                            a + 1
                        };
                        let y = if b < i {
                            b
                        } else {
                            b + 1
                        };
                        assert(self.live@[a] == before[x]);
                        assert(self.live@[b] == before[y]);
                    }
                }
                return ;
            }
            i = i + 1;
        }
    }
}

/// The user that the service runs as once its ports are bound.
pub open spec fn spec_kdc_user(configured: Option<Seq<char>>) -> Seq<char> {
    match configured {
        Some(s) => if s.len() > 0 {
            s
        } else {
            "nobody"@
        },
        None => "nobody"@,
    }
}

/// The service runs as the user that is configured, and as nobody where none is;
/// an empty name is none.
pub proof fn law_configured_user_is_taken(s: Seq<char>)
    ensures
        s.len() > 0 ==> spec_kdc_user(Some(s)) == s,
        s.len() == 0 ==> spec_kdc_user(Some(s)) == spec_kdc_user(None),
        spec_kdc_user(None) == "nobody"@,
{
}

/// The user that the service runs as once its ports are bound.
pub fn kdc_user(configured: Option<&str>) -> (r: &str)
    ensures
        r@ == spec_kdc_user(
            match configured {
                Some(s) => Some(s@),
                None => None,
            },
        ),
{
    match configured {
        Some(s) => if s.is_empty() {
            "nobody"
        } else {
            s
        },
        None => "nobody",
    }
}

/// A length of zero ends a stream, and every other is read exactly up to the
/// limit, that one counted.
pub proof fn law_length_is_judged(n: u32, max_body: usize)
    ensures
        judged_length(n, max_body) == StreamLength::Close <==> n == 0,
        judged_length(n, max_body) == StreamLength::Read(n) <==> 1 <= n <= max_body,
        judged_length(n, max_body) == StreamLength::TooLong(n) <==> n != 0 && n > max_body,
{
}

/// The cache keeps the octets of a reply that has any, and nothing of a failure,
/// a panic or an empty reply.
pub proof fn law_only_replies_are_kept(v: Vec<u8>, e: Error)
    ensures
        v@ != Seq::<u8>::empty() ==> kept_reply(Outcome::Reply(v)) == Some(v@),
        v@ == Seq::<u8>::empty() ==> kept_reply(Outcome::Reply(v)) is None,
        kept_reply(Outcome::Failed(e)) is None,
        kept_reply(Outcome::Panicked) is None,
{
    if v@.len() == 0 {
        assert(v@ =~= Seq::<u8>::empty());
    }
}

} // verus!
