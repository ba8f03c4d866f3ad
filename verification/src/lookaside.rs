//! A cache of replies: a request that comes again, octet for octet, is
//! answered from it.

use crate::bytes::{copy, slice_eq};
use crate::outside::{clock_start, nanos_since, share};
use std::collections::VecDeque;
use std::sync::Arc;
use std::time::Instant;
use vstd::prelude::*;

verus! {

/// Nanoseconds after which an entry is stale: two minutes.
pub const STALE_TIME: u64 = 120_000_000_000;

/// Octets that the cache may hold.
pub const MAX_SIZE: usize = 10_485_760;

/// Octets that an entry counts for besides request and reply.
pub const ENTRY_OVERHEAD: usize = 64;

/// A request that was seen.
pub struct Entry {
    /// The request.
    pub request: Arc<Vec<u8>>,
    /// When it came.
    pub timein: u64,
    /// Its reply; none while it is being processed.
    pub reply: Option<Vec<u8>>,
    /// Number of the insertion.
    pub generation: u64,
    /// Octets that the entry counts for.
    pub size: usize,
}

/// What an entry says.
#[verifier::ext_equal]
pub struct EntryView {
    /// The request.
    pub request: Seq<u8>,
    /// When it came.
    pub timein: u64,
    /// Its reply; none while it is being processed.
    pub reply: Option<Seq<u8>>,
}

/// The octets of an optional reply.
pub open spec fn reply_view(r: Option<Vec<u8>>) -> Option<Seq<u8>> {
    match r {
        Some(v) => Some(v@),
        None => None,
    }
}

impl View for Entry {
    type V = EntryView;

    open spec fn view(&self) -> EntryView {
        EntryView { request: (*self.request)@, timein: self.timein, reply: reply_view(self.reply) }
    }
}

/// The octets that an entry counts for.
pub open spec fn entry_size(e: EntryView) -> nat {
    (ENTRY_OVERHEAD + e.request.len() + (match e.reply {
        Some(r) => r.len(),
        None => 0,
    })) as nat
}

/// The octets that entries count for together.
pub open spec fn total_size(q: Seq<EntryView>) -> nat
    decreases q.len(),
{
    if q.len() == 0 {
        0
    } else {
        entry_size(q[0]) + total_size(q.drop_first())
    }
}

/// The outcome of looking up a request.
#[derive(Clone, Debug, PartialEq, Eq)]
pub enum Check {
    /// A reply is there; send it again.
    Hit(Vec<u8>),
    /// The request is being processed; drop this one.
    InProgress,
    /// The request was not seen; process it, then call [`Lookaside::finish`].
    Fresh,
}

/// A bounded cache. The octets of a request are held once, shared by the
/// entries and the order in which they came.
pub struct Lookaside {
    /// The entries, oldest first.
    pub map: Vec<Entry>,
    /// Requests with the numbers of their insertions, oldest first; pairs of
    /// entries that are gone are dropped when their turn comes.
    pub order: VecDeque<(Arc<Vec<u8>>, u64)>,
    /// Octets that the entries count for.
    pub total: usize,
    /// Number of the next insertion.
    pub next_gen: u64,
    /// Octets that the cache may hold.
    pub max_size: usize,
    /// Nanoseconds after which an entry is stale.
    pub stale: u64,
    /// An entry that was not stale had to go.
    pub full_logged: bool,
    /// When the cache was made; times are counted from it.
    pub start: Instant,
}

/// What entries say.
pub open spec fn entry_views(v: Seq<Entry>) -> Seq<EntryView> {
    v.map_values(|e: Entry| e@)
}

/// The entry is stale at time `now`.
pub open spec fn is_stale(e: EntryView, now: u64, stale: u64) -> bool {
    now - e.timein > stale
}

/// The entries after those had to go that are stale, or that stand in the way
/// of `incoming` octets: from the oldest on, until one may stay.
pub open spec fn after_eviction(
    q: Seq<EntryView>,
    incoming: nat,
    now: u64,
    max_size: usize,
    stale: u64,
) -> Seq<EntryView>
    decreases q.len(),
{
    if q.len() == 0 || (!is_stale(q[0], now, stale) && total_size(q) + incoming <= max_size) {
        q
    } else {
        after_eviction(q.drop_first(), incoming, now, max_size, stale)
    }
}

/// Some entry had to go that was not stale.
pub open spec fn evicts_fresh(
    q: Seq<EntryView>,
    incoming: nat,
    now: u64,
    max_size: usize,
    stale: u64,
) -> bool
    decreases q.len(),
{
    if q.len() == 0 || (!is_stale(q[0], now, stale) && total_size(q) + incoming <= max_size) {
        false
    } else {
        !is_stale(q[0], now, stale) || evicts_fresh(q.drop_first(), incoming, now, max_size, stale)
    }
}

/// The entry for a request is at `i`.
pub open spec fn is_entry(q: Seq<EntryView>, req: Seq<u8>, i: int) -> bool {
    0 <= i < q.len() && q[i].request == req
}

/// There is an entry for a request.
pub open spec fn has_entry(q: Seq<EntryView>, req: Seq<u8>) -> bool {
    exists|i: int| is_entry(q, req, i)
}

/// The entries but that of a request.
pub open spec fn without(q: Seq<EntryView>, req: Seq<u8>) -> Seq<EntryView> {
    if has_entry(q, req) {
        q.remove(choose|i: int| is_entry(q, req, i))
    } else {
        q
    }
}

impl Lookaside {
    /// The entries, oldest first.
    pub open spec fn queue(&self) -> Seq<EntryView> {
        entry_views(self.map@)
    }

    /// No request has two entries; the entries stand in the order of their
    /// insertions, and the pairs of all of them are in the order; the count
    /// of octets is right.
    pub open spec fn wf(&self) -> bool {
        &&& forall|i: int, j: int|
            0 <= i < j < self.map@.len() ==> (*(#[trigger] self.map@[i]).request)@ != (*(
            #[trigger] self.map@[j]).request)@
        &&& forall|i: int, j: int|
            0 <= i < j < self.map@.len() ==> (#[trigger] self.map@[i]).generation < (
            #[trigger] self.map@[j]).generation
        &&& forall|i: int, j: int|
            0 <= i < j < self.order@.len() ==> (#[trigger] self.order@[i]).1 < (
            #[trigger] self.order@[j]).1
        &&& forall|i: int|
            0 <= i < self.order@.len() ==> (#[trigger] self.order@[i]).1 < self.next_gen
        &&& forall|i: int|
            0 <= i < self.map@.len() ==> in_order(self.order@, #[trigger] self.map@[i])
        &&& forall|i: int|
            0 <= i < self.map@.len() ==> (#[trigger] self.map@[i]).size == entry_size(
                self.map@[i]@,
            )
        &&& self.total == total_size(self.queue())
    }

    /// Everything but the entries is as before.
    pub open spec fn same_limits(&self, other: &Lookaside) -> bool {
        self.max_size == other.max_size && self.stale == other.stale
    }
}

/// The pair of an entry is in the order.
pub open spec fn in_order(order: Seq<(Arc<Vec<u8>>, u64)>, e: Entry) -> bool {
    exists|k: int|
        0 <= k < order.len() && (#[trigger] order[k]).1 == e.generation && (*order[k].0)@ == (
        *e.request)@
}

/// Entries in front count for no more than all.
proof fn lemma_total_push(q: Seq<EntryView>, e: EntryView)
    ensures
        total_size(q.push(e)) == total_size(q) + entry_size(e),
    decreases q.len(),
{
    if q.len() == 0 {
        assert(q.push(e).drop_first() =~= Seq::<EntryView>::empty());
        assert(total_size(Seq::<EntryView>::empty()) == 0);
    } else {
        lemma_total_push(q.drop_first(), e);
        assert(q.push(e).drop_first() =~= q.drop_first().push(e));
    }
}

/// An entry that is gone no longer counts.
proof fn lemma_total_remove(q: Seq<EntryView>, i: int)
    requires
        0 <= i < q.len(),
    ensures
        total_size(q) == total_size(q.remove(i)) + entry_size(q[i]),
    decreases q.len(),
{
    if i == 0 {
        assert(q.remove(0) =~= q.drop_first());
    } else {
        lemma_total_remove(q.drop_first(), i - 1);
        assert(q.remove(i).drop_first() =~= q.drop_first().remove(i - 1));
    }
}

impl Default for Lookaside {
    fn default() -> (r: Lookaside)
        ensures
            r.wf(),
            r.queue().len() == 0,
            r.max_size == MAX_SIZE,
            r.stale == STALE_TIME,
            !r.full_logged,
    {
        Lookaside::with_limits(MAX_SIZE, STALE_TIME)
    }
}

impl Lookaside {
    /// A cache with the usual limits.
    pub fn new() -> (r: Lookaside)
        ensures
            r.wf(),
            r.queue().len() == 0,
            r.max_size == MAX_SIZE,
            r.stale == STALE_TIME,
            !r.full_logged,
            r.next_gen == 0,
    {
        Lookaside::with_limits(MAX_SIZE, STALE_TIME)
    }

    /// A cache with these limits.
    pub fn with_limits(max_size: usize, stale: u64) -> (r: Lookaside)
        ensures
            r.wf(),
            r.queue().len() == 0,
            r.max_size == max_size,
            r.stale == stale,
            !r.full_logged,
            r.next_gen == 0,
    {
        Lookaside {
            map: Vec::new(),
            order: VecDeque::new(),
            total: 0,
            next_gen: 0,
            max_size,
            stale,
            full_logged: false,
            start: clock_start(),
        }
    }

    /// Where the entry of a request is.
    fn position(&self, req: &[u8]) -> (r: Option<usize>)
        ensures
            match r {
                Some(i) => i < self.map@.len() && is_entry(self.queue(), req@, i as int),
                None => !has_entry(self.queue(), req@),
            },
    {
        let mut i: usize = 0;
        while i < self.map.len()
            invariant
                i <= self.map.len(),
                forall|k: int| 0 <= k < i ==> (#[trigger] self.queue()[k]).request != req@,
            decreases self.map.len() - i,
        {
            proof {
                assert(self.queue()[i as int] == self.map@[i as int]@);
            }
            if slice_eq(self.map[i].request.as_slice(), req) {
                proof {
                    assert(is_entry(self.queue(), req@, i as int));
                }
                return Some(i);
            }
            i = i + 1;
        }
        None
    }

    /// Drops the oldest entries that are stale or stand in the way.
    fn evict(&mut self, incoming: usize, now: u64)
        requires
            old(self).wf(),
        ensures
            final(self).wf(),
            final(self).queue() == after_eviction(
                old(self).queue(),
                incoming as nat,
                now,
                old(self).max_size,
                old(self).stale,
            ),
            final(self).full_logged == (old(self).full_logged || evicts_fresh(
                old(self).queue(),
                incoming as nat,
                now,
                old(self).max_size,
                old(self).stale,
            )),
            final(self).same_limits(old(self)),
            final(self).next_gen == old(self).next_gen,
            final(self).queue().len() == 0 || final(self).total + incoming <= final(self).max_size,
    {
        let ghost q0 = self.queue();
        let ghost logged0 = self.full_logged;
        while self.order.len() > 0
            invariant_except_break
                self.wf(),
            invariant
                self.wf(),
                self.same_limits(old(self)),
                self.next_gen == old(self).next_gen,
                q0 == old(self).queue(),
                logged0 == old(self).full_logged,
                after_eviction(q0, incoming as nat, now, self.max_size, self.stale)
                    == after_eviction(
                    self.queue(),
                    incoming as nat,
                    now,
                    self.max_size,
                    self.stale,
                ),
                (logged0 || evicts_fresh(q0, incoming as nat, now, self.max_size, self.stale)) == (
                self.full_logged || evicts_fresh(
                    self.queue(),
                    incoming as nat,
                    now,
                    self.max_size,
                    self.stale,
                )),
            ensures
                self.queue().len() == 0 || (!is_stale(self.queue()[0], now, self.stale)
                    && total_size(self.queue()) + incoming <= self.max_size),
            decreases self.order@.len(),
        {
            let ghost map0 = self.map@;
            let ghost order0 = self.order@;
            let generation: u64 = self.order[0].1;
            let live: bool = self.map.len() > 0 && self.map[0].generation == generation;
            proof {
                if self.map@.len() > 0 && !live {
                    let e = self.map@[0];
                    let k = choose|k: int|
                        0 <= k < order0.len() && (#[trigger] order0[k]).1 == e.generation && (
                        *order0[k].0)@ == (*e.request)@;
                    assert(k != 0);
                    assert(order0[0].1 < order0[k].1);
                }
            }
            if !live {
                let gone = self.order.pop_front();
                proof {
                    assert(self.order@ =~= order0.drop_first());
                    assert forall|i: int| 0 <= i < self.map@.len() implies in_order(
                        self.order@,
                        #[trigger] self.map@[i],
                    ) by {
                        let e = self.map@[i];
                        assert(in_order(order0, e));
                        let k = choose|k: int|
                            0 <= k < order0.len() && (#[trigger] order0[k]).1 == e.generation && (
                            *order0[k].0)@ == (*e.request)@;
                        if i > 0 {
                            assert(self.map@[0].generation < e.generation);
                        }
                        assert(k > 0) by {
                            if k == 0 {
                                let f = self.map@[0];
                                assert(in_order(order0, f));
                                let m = choose|m: int|
                                    0 <= m < order0.len() && (#[trigger] order0[m]).1
                                        == f.generation && (*order0[m].0)@ == (*f.request)@;
                                assert(m != 0);
                                assert(order0[0].1 < order0[m].1);
                            }
                        }
                        assert(self.order@[k - 1] == order0[k]);
                    }
                    assert forall|i: int, j: int| 0 <= i < j < self.order@.len() implies (
                    #[trigger] self.order@[i]).1 < (#[trigger] self.order@[j]).1 by {
                        assert(order0[i + 1].1 < order0[j + 1].1);
                    }
                    assert forall|i: int| 0 <= i < self.order@.len() implies (
                    #[trigger] self.order@[i]).1 < self.next_gen by {
                        assert(order0[i + 1].1 < self.next_gen);
                    }
                    assert(self.queue() =~= entry_views(map0));
                }
            } else {
                let ghost q = self.queue();
                proof {
                    assert(q[0] == self.map@[0]@);
                }
                let stale: bool = now > self.map[0].timein && now - self.map[0].timein > self.stale;
                if !stale && incoming <= self.max_size && self.total <= self.max_size - incoming {
                    break ;
                }
                let size: usize = self.map[0].size;
                proof {
                    assert(q.remove(0) =~= q.drop_first());
                    lemma_total_remove(q, 0);
                }
                let gone = self.map.remove(0);
                let pair = self.order.pop_front();
                self.total = self.total - size;
                if !stale {
                    self.full_logged = true;
                }
                proof {
                    assert(self.map@ =~= map0.drop_first());
                    assert(self.order@ =~= order0.drop_first());
                    assert(self.queue() =~= q.drop_first());
                    assert forall|i: int| 0 <= i < self.map@.len() implies in_order(
                        self.order@,
                        #[trigger] self.map@[i],
                    ) by {
                        let e = self.map@[i];
                        assert(e == map0[i + 1]);
                        assert(in_order(order0, e));
                        assert(map0[0].generation < e.generation);
                        let k = choose|k: int|
                            0 <= k < order0.len() && (#[trigger] order0[k]).1 == e.generation && (
                            *order0[k].0)@ == (*e.request)@;
                        assert(k > 0);
                        assert(self.order@[k - 1] == order0[k]);
                    }
                    assert forall|i: int, j: int| 0 <= i < j < self.map@.len() implies (*(
                    #[trigger] self.map@[i]).request)@ != (*(#[trigger] self.map@[j]).request)@ by {
                        assert((*map0[i + 1].request)@ != (*map0[j + 1].request)@);
                    }
                    assert forall|i: int, j: int| 0 <= i < j < self.map@.len() implies (
                    #[trigger] self.map@[i]).generation < (#[trigger] self.map@[j]).generation by {
                        assert(map0[i + 1].generation < map0[j + 1].generation);
                    }
                    assert forall|i: int| 0 <= i < self.map@.len() implies (
                    #[trigger] self.map@[i]).size == entry_size(self.map@[i]@) by {
                        assert(map0[i + 1].size == entry_size(map0[i + 1]@));
                    }
                    assert forall|i: int, j: int| 0 <= i < j < self.order@.len() implies (
                    #[trigger] self.order@[i]).1 < (#[trigger] self.order@[j]).1 by {
                        assert(order0[i + 1].1 < order0[j + 1].1);
                    }
                    assert forall|i: int| 0 <= i < self.order@.len() implies (
                    #[trigger] self.order@[i]).1 < self.next_gen by {
                        assert(order0[i + 1].1 < self.next_gen);
                    }
                }
            }
        }
        proof {
            if self.order@.len() == 0 && self.map@.len() > 0 {
                assert(in_order(self.order@, self.map@[0]));
            }
        }
    }

    /// Puts in a request that has no entry.
    fn insert(&mut self, req: &[u8], reply: Option<&[u8]>, now: u64)
        requires
            old(self).wf(),
            !has_entry(old(self).queue(), req@),
            old(self).next_gen < u64::MAX,
            ENTRY_OVERHEAD + req@.len() + (match reply {
                Some(b) => b@.len(),
                None => 0,
            }) <= usize::MAX,
        ensures
            final(self).wf(),
            inserted(*old(self), *final(self), req@, slice_reply(reply), now),
    {
        let size: usize = ENTRY_OVERHEAD + req.len() + (match reply {
            Some(b) => b.len(),
            None => 0,
        });
        self.evict(size, now);
        let ghost map0 = self.map@;
        let ghost order0 = self.order@;
        let ghost q0 = self.queue();
        proof {
            lemma_eviction_keeps(
                old(self).queue(),
                size as nat,
                now,
                old(self).max_size,
                old(self).stale,
                req@,
            );
        }
        let generation: u64 = self.next_gen;
        self.next_gen = self.next_gen + 1;
        let key: Arc<Vec<u8>> = Arc::new(copy(req));
        self.order.push_back((share(&key), generation));
        proof {
            if self.queue().len() == 0 {
                assert(total_size(q0) == 0);
            }
        }
        self.total = self.total + size;
        let entry = Entry {
            request: key,
            timein: now,
            reply: match reply {
                Some(b) => Some(copy(b)),
                None => None,
            },
            generation,
            size,
        };
        proof {
            lemma_total_push(q0, entry@);
        }
        self.map.push(entry);
        proof {
            assert(self.queue() =~= q0.push(entry@));
            assert forall|i: int| 0 <= i < self.map@.len() implies in_order(
                self.order@,
                #[trigger] self.map@[i],
            ) by {
                let e = self.map@[i];
                if i < map0.len() {
                    assert(in_order(order0, map0[i]));
                    let k = choose|k: int|
                        0 <= k < order0.len() && (#[trigger] order0[k]).1 == e.generation && (
                        *order0[k].0)@ == (*e.request)@;
                    assert(self.order@[k] == order0[k]);
                } else {
                    assert(self.order@[order0.len() as int].1 == generation);
                }
            }
            assert forall|i: int, j: int| 0 <= i < j < self.map@.len() implies (*(
            #[trigger] self.map@[i]).request)@ != (*(#[trigger] self.map@[j]).request)@ by {
                if j == map0.len() {
                    assert(q0[i] == map0[i]@);
                    if (*map0[i].request)@ == req@ {
                        assert(is_entry(q0, req@, i));
                    }
                }
            }
            assert forall|i: int, j: int| 0 <= i < j < self.map@.len() implies (
            #[trigger] self.map@[i]).generation < (#[trigger] self.map@[j]).generation by {
                if j == map0.len() {
                    assert(in_order(order0, map0[i]));
                }
            }
        }
    }

    /// Looks a request up at time `now`: one that has an entry leaves the
    /// cache as it is, any other gets an entry without a reply.
    pub fn check_or_mark_at(&mut self, req: &[u8], now: u64) -> (r: Check)
        requires
            old(self).wf(),
            old(self).next_gen < u64::MAX,
            ENTRY_OVERHEAD + req@.len() <= usize::MAX,
        ensures
            final(self).wf(),
            checked(*old(self), *final(self), req@, now, r),
    {
        match self.position(req) {
            Some(i) => {
                proof {
                    assert(self.queue()[i as int] == self.map@[i as int]@);
                }
                match &self.map[i].reply {
                    Some(reply) => Check::Hit(copy(reply.as_slice())),
                    None => Check::InProgress,
                }
            },
            None => {
                self.insert(req, None, now);
                Check::Fresh
            },
        }
    }

    /// Takes the entry of a request out and puts its reply in, where it has
    /// one that is not empty, at time `now`.
    pub fn finish_at(&mut self, req: &[u8], reply: Option<&[u8]>, now: u64)
        requires
            old(self).wf(),
            old(self).next_gen < u64::MAX,
            ENTRY_OVERHEAD + req@.len() + (match reply {
                Some(b) => b@.len(),
                None => 0,
            }) <= usize::MAX,
        ensures
            final(self).wf(),
            finished(*old(self), *final(self), req@, slice_reply(reply), now),
    {
        let ghost q0 = self.queue();
        let ghost map0 = self.map@;
        match self.position(req) {
            Some(i) => {
                proof {
                    let c = choose|c: int| is_entry(q0, req@, c);
                    assert(is_entry(q0, req@, c));
                    assert(q0[c] == map0[c]@);
                    assert(q0[i as int] == map0[i as int]@);
                    if c < i {
                        assert((*map0[c].request)@ != (*map0[i as int].request)@);
                    }
                    if i < c {
                        assert((*map0[i as int].request)@ != (*map0[c].request)@);
                    }
                    lemma_total_remove(q0, i as int);
                }
                let size: usize = self.map[i].size;
                let gone = self.map.remove(i);
                self.total = self.total - size;
                proof {
                    assert(self.map@ =~= map0.remove(i as int));
                    assert(self.queue() =~= q0.remove(i as int));
                    assert forall|a: int| 0 <= a < self.map@.len() implies self.map@[a] == (if a
                        < i {
                        map0[a]
                    } else {
                        map0[a + 1]
                    }) by {}
                    if has_entry(self.queue(), req@) {
                        let a = choose|a: int| is_entry(self.queue(), req@, a);
                        let b = if a < i {
                            a
                        } else {
                            a + 1
                        };
                        assert(q0[b] == map0[b]@);
                        if b < i {
                            assert((*map0[b].request)@ != (*map0[i as int].request)@);
                        } else {
                            assert((*map0[i as int].request)@ != (*map0[b].request)@);
                        }
                    }
                    assert(self.wf());
                }
            },
            None => {},
        }
        match reply {
            Some(b) => {
                if b.len() > 0 {
                    self.insert(req, reply, now);
                }
            },
            None => {},
        }
    }

    /// Looks a request up now.
    pub fn check_or_mark(&mut self, req: &[u8]) -> (r: Check)
        requires
            old(self).wf(),
            old(self).next_gen < u64::MAX,
            ENTRY_OVERHEAD + req@.len() <= usize::MAX,
        ensures
            final(self).wf(),
            exists|now: u64| checked(*old(self), *final(self), req@, now, r),
    {
        let now: u64 = nanos_since(&self.start);
        self.check_or_mark_at(req, now)
    }

    /// Ends the processing of a request now.
    pub fn finish(&mut self, req: &[u8], reply: Option<&[u8]>)
        requires
            old(self).wf(),
            old(self).next_gen < u64::MAX,
            ENTRY_OVERHEAD + req@.len() + (match reply {
                Some(b) => b@.len(),
                None => 0,
            }) <= usize::MAX,
        ensures
            final(self).wf(),
            exists|now: u64| finished(*old(self), *final(self), req@, slice_reply(reply), now),
    {
        let now: u64 = nanos_since(&self.start);
        self.finish_at(req, reply, now)
    }
}

/// The octets of an optional reply.
pub open spec fn slice_reply(r: Option<&[u8]>) -> Option<Seq<u8>> {
    match r {
        Some(b) => Some(b@),
        None => None,
    }
}

/// `after` is `before` with a new entry for a request, put in at time `now`.
pub open spec fn inserted(
    before: Lookaside,
    after: Lookaside,
    req: Seq<u8>,
    reply: Option<Seq<u8>>,
    now: u64,
) -> bool {
    let e = EntryView { request: req, timein: now, reply };
    let n = entry_size(e);
    &&& after.queue() == after_eviction(before.queue(), n, now, before.max_size, before.stale).push(
        e,
    )
    &&& after.full_logged == (before.full_logged || evicts_fresh(
        before.queue(),
        n,
        now,
        before.max_size,
        before.stale,
    ))
    &&& after.same_limits(&before)
    &&& after.next_gen == before.next_gen + 1
}

/// What looking up a request at time `now` comes to.
pub open spec fn checked(
    before: Lookaside,
    after: Lookaside,
    req: Seq<u8>,
    now: u64,
    r: Check,
) -> bool {
    if has_entry(before.queue(), req) {
        &&& after == before
        &&& exists|i: int| #[trigger]
            is_entry(before.queue(), req, i) && (match before.queue()[i].reply {
                Some(b) => r matches Check::Hit(v) && v@ == b,
                None => r == Check::InProgress,
            })
    } else {
        r == Check::Fresh && inserted(before, after, req, None, now)
    }
}

/// What ending the processing of a request at time `now` does.
pub open spec fn finished(
    before: Lookaside,
    after: Lookaside,
    req: Seq<u8>,
    reply: Option<Seq<u8>>,
    now: u64,
) -> bool {
    let rest = without(before.queue(), req);
    if reply matches Some(b) && b.len() > 0 {
        let e = EntryView { request: req, timein: now, reply };
        let n = entry_size(e);
        &&& after.queue() == after_eviction(rest, n, now, before.max_size, before.stale).push(e)
        &&& after.full_logged == (before.full_logged || evicts_fresh(
            rest,
            n,
            now,
            before.max_size,
            before.stale,
        ))
        &&& after.same_limits(&before)
        &&& after.next_gen == before.next_gen + 1
    } else {
        &&& after.queue() == rest
        &&& after.full_logged == before.full_logged
        &&& after.same_limits(&before)
        &&& after.next_gen == before.next_gen
    }
}

/// Eviction brings no entry that was not there.
proof fn lemma_eviction_keeps(
    q: Seq<EntryView>,
    incoming: nat,
    now: u64,
    max_size: usize,
    stale: u64,
    req: Seq<u8>,
)
    ensures
        has_entry(after_eviction(q, incoming, now, max_size, stale), req) ==> has_entry(q, req),
    decreases q.len(),
{
    if !(q.len() == 0 || (!is_stale(q[0], now, stale) && total_size(q) + incoming <= max_size)) {
        lemma_eviction_keeps(q.drop_first(), incoming, now, max_size, stale, req);
        if has_entry(q.drop_first(), req) {
            let i = choose|i: int| is_entry(q.drop_first(), req, i);
            assert(is_entry(q, req, i + 1));
        }
    }
}

/// A request whose processing ended with a reply is answered with that reply
/// when it comes again at once.
pub proof fn law_reply_is_resent(
    before: Lookaside,
    mid: Lookaside,
    after: Lookaside,
    req: Seq<u8>,
    reply: Seq<u8>,
    t1: u64,
    t2: u64,
    r: Check,
)
    requires
        mid.wf(),
        reply.len() > 0,
        finished(before, mid, req, Some(reply), t1),
        checked(mid, after, req, t2, r),
    ensures
        r matches Check::Hit(v) && v@ == reply,
        after == mid,
{
    let last = mid.queue().len() - 1;
    assert(is_entry(mid.queue(), req, last));
    let i = choose|i: int| #[trigger]
        is_entry(mid.queue(), req, i) && (match mid.queue()[i].reply {
            Some(b) => r matches Check::Hit(v) && v@ == b,
            None => r == Check::InProgress,
        });
    assert(mid.queue()[i] == mid.map@[i]@);
    assert(mid.queue()[last] == mid.map@[last]@);
    if i < last {
        assert((*mid.map@[i].request)@ != (*mid.map@[last].request)@);
    }
}

/// A request that comes again while it is being processed is dropped.
pub proof fn law_duplicate_is_dropped(
    before: Lookaside,
    mid: Lookaside,
    after: Lookaside,
    req: Seq<u8>,
    t1: u64,
    t2: u64,
    r: Check,
)
    requires
        mid.wf(),
        checked(before, mid, req, t1, Check::Fresh),
        checked(mid, after, req, t2, r),
    ensures
        r == Check::InProgress,
{
    let last = mid.queue().len() - 1;
    assert(is_entry(mid.queue(), req, last));
    let i = choose|i: int| #[trigger]
        is_entry(mid.queue(), req, i) && (match mid.queue()[i].reply {
            Some(b) => r matches Check::Hit(v) && v@ == b,
            None => r == Check::InProgress,
        });
    assert(mid.queue()[i] == mid.map@[i]@);
    assert(mid.queue()[last] == mid.map@[last]@);
    if i < last {
        assert((*mid.map@[i].request)@ != (*mid.map@[last].request)@);
    }
}

/// A request whose processing ended without a reply is processed anew when it
/// comes again, and every other entry is there as it was.
pub proof fn law_unanswered_request_is_forgotten(
    before: Lookaside,
    mid: Lookaside,
    after: Lookaside,
    req: Seq<u8>,
    reply: Option<Seq<u8>>,
    t1: u64,
    t2: u64,
    r: Check,
)
    requires
        before.wf(),
        reply matches Some(b) ==> b.len() == 0,
        finished(before, mid, req, reply, t1),
        checked(mid, after, req, t2, r),
    ensures
        r == Check::Fresh,
        forall|e: EntryView|
            e.request != req ==> (#[trigger] mid.queue().contains(e) <==> before.queue().contains(
                e,
            )),
{
    let q = before.queue();
    let w = mid.queue();
    if has_entry(q, req) {
        let i = choose|i: int| is_entry(q, req, i);
        assert(w == q.remove(i));
        if has_entry(w, req) {
            let j = choose|j: int| is_entry(w, req, j);
            let k = if j < i {
                j
            } else {
                j + 1
            };
            assert(q[k] == w[j]);
            assert(q[k] == before.map@[k]@);
            assert(q[i] == before.map@[i]@);
            assert((*before.map@[k].request)@ == (*before.map@[i].request)@);
        }
        assert forall|e: EntryView| e.request != req implies (#[trigger] w.contains(e)
            <==> q.contains(e)) by {
            if w.contains(e) {
                let j = choose|j: int| 0 <= j < w.len() && w[j] == e;
                assert(q[if j < i {
                    j
                } else {
                    j + 1
                }] == e);
            }
            if q.contains(e) {
                let k = choose|k: int| 0 <= k < q.len() && q[k] == e;
                assert(w[if k < i {
                    k
                } else {
                    k - 1
                }] == e);
            }
        }
    }
}

/// Every request put in leaves the cache within its limit, or alone in it.
pub proof fn law_cache_is_bounded(
    before: Lookaside,
    after: Lookaside,
    req: Seq<u8>,
    reply: Option<Seq<u8>>,
    now: u64,
)
    requires
        inserted(before, after, req, reply, now),
    ensures
        total_size(after.queue()) <= before.max_size || after.queue().len() == 1,
{
    let e = EntryView { request: req, timein: now, reply };
    let n = entry_size(e);
    let q = after_eviction(before.queue(), n, now, before.max_size, before.stale);
    lemma_after_eviction_fits(before.queue(), n, now, before.max_size, before.stale);
    lemma_total_push(q, e);
}

/// After an eviction what comes in fits, or the cache is empty.
proof fn lemma_after_eviction_fits(
    q: Seq<EntryView>,
    incoming: nat,
    now: u64,
    max_size: usize,
    stale: u64,
)
    ensures
        ({
            let a = after_eviction(q, incoming, now, max_size, stale);
            a.len() == 0 || (total_size(a) + incoming <= max_size && !is_stale(a[0], now, stale))
        }),
    decreases q.len(),
{
    if !(q.len() == 0 || (!is_stale(q[0], now, stale) && total_size(q) + incoming <= max_size)) {
        lemma_after_eviction_fits(q.drop_first(), incoming, now, max_size, stale);
    }
}

/// The entry at `j` may stay, with those behind it, beside `incoming` octets.
pub open spec fn may_stay(
    q: Seq<EntryView>,
    j: int,
    incoming: nat,
    now: u64,
    max_size: usize,
    stale: u64,
) -> bool {
    !is_stale(q[j], now, stale) && total_size(q.skip(j)) + incoming <= max_size
}

/// What goes to make room are the oldest entries, and no more of them than
/// must: `k` of them, none of which may stay, while the next one may.
pub proof fn law_oldest_entries_go(
    q: Seq<EntryView>,
    incoming: nat,
    now: u64,
    max_size: usize,
    stale: u64,
) -> (k: int)
    ensures
        0 <= k <= q.len(),
        after_eviction(q, incoming, now, max_size, stale) == q.skip(k),
        forall|j: int| 0 <= j < k ==> !#[trigger] may_stay(q, j, incoming, now, max_size, stale),
        k < q.len() ==> may_stay(q, k, incoming, now, max_size, stale),
    decreases q.len(),
{
    assert(q.skip(0) =~= q);
    if q.len() == 0 || may_stay(q, 0, incoming, now, max_size, stale) {
        0
    } else {
        let rest = q.drop_first();
        let n = law_oldest_entries_go(rest, incoming, now, max_size, stale);
        assert(rest.skip(n) =~= q.skip(n + 1));
        assert forall|j: int| 0 <= j < n + 1 implies !#[trigger] may_stay(
            q,
            j,
            incoming,
            now,
            max_size,
            stale,
        ) by {
            if j > 0 {
                assert(rest.skip(j - 1) =~= q.skip(j));
                assert(!may_stay(rest, j - 1, incoming, now, max_size, stale));
            }
        }
        n + 1
    }
}

/// An entry counts for the octets of its request and its reply and for 64 more,
/// and entries count for what each does.
pub proof fn law_entries_are_counted(q: Seq<EntryView>, e: EntryView)
    ensures
        e.reply is None ==> entry_size(e) == 64 + e.request.len(),
        e.reply matches Some(r) ==> entry_size(e) == 64 + e.request.len() + r.len(),
        total_size(Seq::empty()) == 0,
        total_size(q.push(e)) == total_size(q) + entry_size(e),
{
    lemma_total_push(q, e);
}

/// Nothing goes that has its time left and leaves room: where no entry is older
/// than the limit and all fit with what comes in, all stay.
pub proof fn law_room_keeps_all(
    q: Seq<EntryView>,
    incoming: nat,
    now: u64,
    max_size: usize,
    stale: u64,
)
    requires
        forall|i: int| 0 <= i < q.len() ==> now <= (#[trigger] q[i]).timein + stale,
        total_size(q) + incoming <= max_size,
    ensures
        after_eviction(q, incoming, now, max_size, stale) == q,
        !evicts_fresh(q, incoming, now, max_size, stale),
{
    if q.len() > 0 {
        assert(now <= q[0].timein + stale);
    }
}

/// The oldest entry goes where it is older than the limit, and where not all fit
/// with what comes in; that the cache was full is noticed exactly where an entry
/// goes that was not too old.
pub proof fn law_full_cache_is_noticed(
    q: Seq<EntryView>,
    incoming: nat,
    now: u64,
    max_size: usize,
    stale: u64,
)
    requires
        q.len() > 0,
    ensures
        now > q[0].timein + stale || total_size(q) + incoming > max_size ==> after_eviction(
            q,
            incoming,
            now,
            max_size,
            stale,
        ).len() < q.len(),
        evicts_fresh(q, incoming, now, max_size, stale) <==> exists|i: int|
            0 <= i < q.len() - after_eviction(q, incoming, now, max_size, stale).len() && now
                <= (#[trigger] q[i]).timein + stale,
    decreases q.len(),
{
    let rest = q.drop_first();
    let k = law_oldest_entries_go(q, incoming, now, max_size, stale);
    let n = q.len() - after_eviction(q, incoming, now, max_size, stale).len();
    if !(!is_stale(q[0], now, stale) && total_size(q) + incoming <= max_size) {
        let m = law_oldest_entries_go(rest, incoming, now, max_size, stale);
        if rest.len() > 0 {
            law_full_cache_is_noticed(rest, incoming, now, max_size, stale);
        }
        let a = after_eviction(rest, incoming, now, max_size, stale);
        assert(a == rest.skip(m));
        assert(a.len() <= rest.len());
        if !is_stale(q[0], now, stale) {
            assert(0 < n && now <= q[0].timein + stale);
        }
        if rest.len() == 0 {
            assert(!evicts_fresh(rest, incoming, now, max_size, stale));
        }
        if exists|i: int| 0 <= i < rest.len() - a.len() && now <= (#[trigger] rest[i]).timein
            + stale {
            let i = choose|i: int|
                0 <= i < rest.len() - a.len() && now <= (#[trigger] rest[i]).timein + stale;
            assert(q[i + 1] == rest[i]);
            assert(now <= q[i + 1].timein + stale);
        }
        if exists|i: int| 0 <= i < n && now <= (#[trigger] q[i]).timein + stale {
            let i = choose|i: int| 0 <= i < n && now <= (#[trigger] q[i]).timein + stale;
            if i > 0 {
                assert(rest[i - 1] == q[i]);
            }
        }
    }
}

/// A request that no entry is for is processed, and is the newest entry from then
/// on, without a reply.
pub proof fn law_unseen_request_is_processed(
    before: Lookaside,
    after: Lookaside,
    req: Seq<u8>,
    now: u64,
    r: Check,
)
    requires
        forall|i: int|
            0 <= i < before.queue().len() ==> (#[trigger] before.queue()[i]).request != req,
        checked(before, after, req, now, r),
    ensures
        r == Check::Fresh,
        after.queue().len() > 0,
        after.queue().last().request == req,
        after.queue().last().timein == now,
        after.queue().last().reply is None,
{
    if has_entry(before.queue(), req) {
        let i = choose|i: int| is_entry(before.queue(), req, i);
        assert(before.queue()[i].request != req);
    }
}

} // verus!
