//! The client side: publish plans, the in-flight table, and the event
//! loop's decisions.
//!
//! The event loop itself suspends on broker I/O and so runs outside the
//! library; every choice it makes — what to publish, which caller a
//! reply belongs to, what a timed-out or orphaned id means — is a
//! function here, with its contract.

use vstd::prelude::*;
use vstd::string::StringExecFns;

use crate::json::Json;
use crate::rpc::{decode_response_bytes, enc_request, ErrView, Request, RespView, Response};

verus! {

broadcast use {vstd::seq::group_seq_axioms, vstd::std_specs::vec::group_vec_axioms};

/// One message to hand to the broker: plain values only.
pub struct Publish {
    pub routing_key: String,
    pub payload: Vec<u8>,
    pub content_type: String,
    pub reply_to: Option<String>,
    pub correlation_id: Option<String>,
}

/// Queue declaration attributes.
#[derive(Clone, Copy, Debug, PartialEq, Eq, Structural)]
pub struct QueueOptions {
    pub durable: bool,
    pub exclusive: bool,
    pub auto_delete: bool,
}

/// The work queue: durable, non-exclusive, kept when consumers leave.
pub fn work_queue_options() -> (r: QueueOptions)
    ensures
        r.durable && !r.exclusive && !r.auto_delete,
{
    QueueOptions { durable: true, exclusive: false, auto_delete: false }
}

/// A reply queue: transient, non-exclusive, deleted when unused.
pub fn reply_queue_options() -> (r: QueueOptions)
    ensures
        !r.durable && !r.exclusive && r.auto_delete,
{
    QueueOptions { durable: false, exclusive: false, auto_delete: true }
}

/// The reply queue name: `{ident}-{uuid}@{hostname}`.
pub fn reply_queue_name(ident: &str, uuid: &str, host: &str) -> (r: String)
    ensures
        r@ == ident@ + "-"@ + uuid@ + "@"@ + host@,
{
    let mut s = String::new();
    s.append(ident);
    s.append("-");
    s.append(uuid);
    s.append("@");
    s.append(host);
    s
}

/// A fresh reply queue name for this process: the identity prefix, a
/// new 36-character random identifier, and the machine's host name.
pub fn fresh_reply_queue_name(ident: &str) -> (r: String)
    ensures
        exists|u: Seq<char>, h: Seq<char>|
            u.len() == 36 && r@ == ident@ + "-"@ + u + "@"@ + h,
{
    let uuid = crate::ext::fresh_uuid();
    let host = crate::ext::host_name();
    let r = reply_queue_name(ident, uuid.as_str(), host.as_str());
    proof {
        assert(uuid@.len() == 36 && r@ == ident@ + "-"@ + uuid@ + "@"@ + host@);
    }
    r
}

/// A request with a freshly generated 36-character id.
pub fn new_request(method: String, params: Option<Json>) -> (r: Request)
    ensures
        r@.method == method@,
        r@.params == match params {
            Some(p) => Some(p.jval()),
            None => None::<crate::json::JVal>,
        },
        r@.id.len() == 36,
{
    let id = crate::ext::fresh_uuid();
    Request::new(id, method, params)
}

/// The id a response answers.
pub open spec fn resp_id(r: RespView) -> Seq<char> {
    match r {
        RespView::Result { id, .. } => id,
        RespView::Error { id, .. } => id,
    }
}

/// Association of a pending id with the ticket of its caller's
/// reply sink.
pub closed spec fn map_of(entries: Seq<(String, u64)>) -> Map<Seq<char>, u64>
    decreases entries.len(),
{
    if entries.len() == 0 {
        Map::empty()
    } else {
        map_of(entries.drop_last()).insert(entries.last().0@, entries.last().1)
    }
}

spec fn keys_unique(entries: Seq<(String, u64)>) -> bool {
    forall|i: int, j: int|
        0 <= i < j < entries.len() ==> (#[trigger] entries[i]).0@ != (#[trigger] entries[j]).0@
}

proof fn lemma_map_of_props(entries: Seq<(String, u64)>)
    ensures
        forall|k: Seq<char>|
            #[trigger] map_of(entries).contains_key(k) <==> exists|i: int|
                0 <= i < entries.len() && (#[trigger] entries[i]).0@ == k,
        keys_unique(entries) ==> forall|i: int|
            0 <= i < entries.len() ==> map_of(entries).contains_key((#[trigger] entries[i]).0@)
                && map_of(entries)[entries[i].0@] == entries[i].1,
    decreases entries.len(),
{
    if entries.len() > 0 {
        lemma_map_of_props(entries.drop_last());
        let pre = entries.drop_last();
        assert forall|k: Seq<char>| #[trigger]
            map_of(entries).contains_key(k) implies exists|i: int|
            0 <= i < entries.len() && (#[trigger] entries[i]).0@ == k by {
            if k == entries.last().0@ {
                assert(entries[entries.len() - 1].0@ == k);
            } else {
                assert(map_of(pre).contains_key(k));
                let i = choose|i: int| 0 <= i < pre.len() && (#[trigger] pre[i]).0@ == k;
                assert(pre[i] == entries[i]);
                assert(entries[i].0@ == k);
            }
        }
        assert forall|k: Seq<char>|
            (exists|i: int| 0 <= i < entries.len() && (#[trigger] entries[i]).0@ == k) implies
            #[trigger] map_of(entries).contains_key(k) by {
            let i = choose|i: int| 0 <= i < entries.len() && (#[trigger] entries[i]).0@ == k;
            assert(entries[i].0@ == k);
            if i < entries.len() - 1 {
                assert(pre[i] == entries[i]);
                assert(pre[i].0@ == k);
                assert(map_of(pre).contains_key(k));
            }
        }
        if keys_unique(entries) {
            assert(keys_unique(pre));
            assert forall|i: int| 0 <= i < entries.len() implies map_of(entries).contains_key(
                (#[trigger] entries[i]).0@,
            ) && map_of(entries)[entries[i].0@] == entries[i].1 by {
                if i < entries.len() - 1 {
                    assert(pre[i] == entries[i]);
                    assert(entries[i].0@ != entries.last().0@);
                }
            }
        }
    }
}

proof fn lemma_map_of_len(entries: Seq<(String, u64)>)
    requires
        keys_unique(entries),
    ensures
        map_of(entries).dom().len() == entries.len(),
        map_of(entries).dom().finite(),
    decreases entries.len(),
{
    if entries.len() > 0 {
        let pre = entries.drop_last();
        assert(keys_unique(pre));
        lemma_map_of_len(pre);
        lemma_map_of_props(pre);
        assert forall|i: int| 0 <= i < pre.len() implies (#[trigger] pre[i]).0@ != entries.last().0@
        by {
            assert(pre[i] == entries[i]);
        }
        assert(!map_of(pre).contains_key(entries.last().0@));
        assert(map_of(entries).dom() =~= map_of(pre).dom().insert(entries.last().0@));
        vstd::set::axiom_set_insert_len(map_of(pre).dom(), entries.last().0@);
    } else {
        assert(map_of(entries).dom() =~= Set::<Seq<char>>::empty());
    }
}

proof fn lemma_map_of_remove(entries: Seq<(String, u64)>, i: int)
    requires
        keys_unique(entries),
        0 <= i < entries.len(),
    ensures
        map_of(entries.remove(i)) =~= map_of(entries).remove(entries[i].0@),
        keys_unique(entries.remove(i)),
    decreases entries.len(),
{
    lemma_map_of_props(entries);
    lemma_map_of_props(entries.drop_last());
    let k = entries[i].0@;
    if i == entries.len() - 1 {
        assert(entries.remove(i) =~= entries.drop_last());
        assert(!map_of(entries.drop_last()).contains_key(k));
        assert(map_of(entries.drop_last()) =~= map_of(entries).remove(k));
    } else {
        let pre = entries.drop_last();
        assert(keys_unique(pre));
        lemma_map_of_remove(pre, i);
        assert(entries.remove(i).drop_last() =~= pre.remove(i));
        assert(entries.remove(i).last() == entries.last());
        assert(map_of(entries.remove(i)) == map_of(pre.remove(i)).insert(
            entries.last().0@,
            entries.last().1,
        ));
        assert(entries.last().0@ != k);
        assert(map_of(pre.remove(i)).insert(entries.last().0@, entries.last().1) =~= map_of(
            entries,
        ).remove(k));
    }
    assert forall|a: int, b: int|
        0 <= a < b < entries.remove(i).len() implies (#[trigger] entries.remove(i)[a]).0@ != (
    #[trigger] entries.remove(i)[b]).0@ by {
        let ra = if a < i {
            a
        } else {
            a + 1
        };
        let rb = if b < i {
            b
        } else {
            b + 1
        };
        assert(entries.remove(i)[a] == entries[ra]);
        assert(entries.remove(i)[b] == entries[rb]);
    }
}

/// The in-flight table: each pending request id, mapped to the ticket
/// of the reply sink that will wake its caller.
pub struct Inflight {
    entries: Vec<(String, u64)>,
}

impl View for Inflight {
    type V = Map<Seq<char>, u64>;

    closed spec fn view(&self) -> Map<Seq<char>, u64> {
        map_of(self.entries@)
    }
}

impl Inflight {
    /// No id is pending twice.
    pub closed spec fn wf(&self) -> bool {
        keys_unique(self.entries@)
    }

    /// An empty table.
    pub fn new() -> (r: Inflight)
        ensures
            r@ == Map::<Seq<char>, u64>::empty(),
            r.wf(),
    {
        Inflight { entries: Vec::new() }
    }

    /// The ticket pending under `id`, if any.
    pub fn lookup(&self, id: &String) -> (r: Option<u64>)
        requires
            self.wf(),
        ensures
            match r {
                Some(t) => self@.contains_key(id@) && self@[id@] == t,
                None => !self@.contains_key(id@),
            },
    {
        proof {
            lemma_map_of_props(self.entries@);
        }
        let mut i: usize = 0;
        while i < self.entries.len()
            invariant
                i <= self.entries@.len(),
                forall|t: int| 0 <= t < i ==> (#[trigger] self.entries@[t]).0@ != id@,
                keys_unique(self.entries@),
                forall|k: Seq<char>|
                    #[trigger] map_of(self.entries@).contains_key(k) <==> exists|t: int|
                        0 <= t < self.entries@.len() && (#[trigger] self.entries@[t]).0@ == k,
                forall|t: int|
                    0 <= t < self.entries@.len() ==> map_of(self.entries@).contains_key(
                        (#[trigger] self.entries@[t]).0@,
                    ) && map_of(self.entries@)[self.entries@[t].0@] == self.entries@[t].1,
            decreases self.entries@.len() - i,
        {
            if self.entries[i].0 == *id {
                return Some(self.entries[i].1);
            }
            i = i + 1;
        }
        None
    }

    /// Records that `id` now awaits a reply at ticket `token`.
    pub fn insert(&mut self, id: String, token: u64)
        requires
            old(self).wf(),
            !old(self)@.contains_key(id@),
        ensures
            final(self)@ == old(self)@.insert(id@, token),
            final(self).wf(),
    {
        proof {
            lemma_map_of_props(self.entries@);
        }
        let ghost pre = self.entries@;
        self.entries.push((id, token));
        proof {
            assert(self.entries@.drop_last() =~= pre);
            assert forall|a: int, b: int|
                0 <= a < b < self.entries@.len() implies (#[trigger] self.entries@[a]).0@ != (
            #[trigger] self.entries@[b]).0@ by {
                if b == self.entries@.len() - 1 {
                    assert(pre[a].0@ != id@);
                }
            }
        }
    }

    /// Removes `id`, handing back its ticket if it was pending.
    pub fn remove(&mut self, id: &String) -> (r: Option<u64>)
        requires
            old(self).wf(),
        ensures
            final(self).wf(),
            match r {
                Some(t) => old(self)@.contains_key(id@) && old(self)@[id@] == t && final(self)@
                    == old(self)@.remove(id@),
                None => !old(self)@.contains_key(id@) && final(self)@ == old(self)@,
            },
    {
        proof {
            lemma_map_of_props(self.entries@);
        }
        let mut i: usize = 0;
        while i < self.entries.len()
            invariant
                i <= self.entries@.len(),
                forall|t: int| 0 <= t < i ==> (#[trigger] self.entries@[t]).0@ != id@,
                keys_unique(self.entries@),
                self.entries@ == old(self).entries@,
            decreases self.entries@.len() - i,
        {
            if self.entries[i].0 == *id {
                proof {
                    lemma_map_of_props(self.entries@);
                    assert(self.entries@[i as int].0@ == id@);
                    assert(map_of(self.entries@).contains_key(self.entries@[i as int].0@)
                        && map_of(self.entries@)[self.entries@[i as int].0@]
                        == self.entries@[i as int].1);
                    lemma_map_of_remove(self.entries@, i as int);
                }
                let pair = self.entries.remove(i);
                return Some(pair.1);
            }
            i = i + 1;
        }
        None
    }

    /// Empties the table, handing back every pending ticket.
    pub fn drain(&mut self) -> (r: Vec<u64>)
        requires
            old(self).wf(),
        ensures
            final(self).wf(),
            final(self)@ == Map::<Seq<char>, u64>::empty(),
            r@.len() == old(self)@.dom().len(),
            forall|k: Seq<char>|
                old(self)@.contains_key(k) ==> r@.contains(old(self)@[k]),
    {
        proof {
            lemma_map_of_props(self.entries@);
            lemma_map_of_len(self.entries@);
        }
        let mut out: Vec<u64> = Vec::new();
        let mut i: usize = 0;
        while i < self.entries.len()
            invariant
                i <= self.entries@.len(),
                self.entries@ == old(self).entries@,
                out@.len() == i,
                forall|t: int| 0 <= t < i ==> out@[t] == (#[trigger] self.entries@[t]).1,
            decreases self.entries@.len() - i,
        {
            let tok = self.entries[i].1;
            out.push(tok);
            i = i + 1;
        }
        let ghost pre = self.entries@;
        self.entries = Vec::new();
        proof {
            assert forall|k: Seq<char>| old(self)@.contains_key(k) implies out@.contains(
                old(self)@[k],
            ) by {
                let w = choose|w: int| 0 <= w < pre.len() && (#[trigger] pre[w]).0@ == k;
                assert(out@[w] == pre[w].1);
            }
        }
        out
    }
}

/// What the event loop does with one reply delivery.
pub enum DeliveryOutcome {
    /// A pending caller gets this response through its ticket.
    Reply { token: u64, response: Response },
    /// A decodable reply whose id nobody awaits: discarded.
    Orphan,
    /// Bytes that do not decode: discarded.
    Malformed,
}

/// The client's decision state: its queues and the in-flight table.
pub struct Client {
    queue_name: String,
    reply_queue: String,
    inflight: Inflight,
}

impl Client {
    /// A client for the given work queue, answering on `reply_queue`.
    pub fn new(queue_name: String, reply_queue: String) -> (r: Client)
        ensures
            r.wf(),
            r.pending() == Map::<Seq<char>, u64>::empty(),
            r.queue_view() == queue_name@,
            r.reply_view() == reply_queue@,
    {
        Client { queue_name, reply_queue, inflight: Inflight::new() }
    }

    /// The pending calls: request id to reply-sink ticket.
    pub closed spec fn pending(&self) -> Map<Seq<char>, u64> {
        self.inflight@
    }

    /// The table holds each pending id once.
    pub closed spec fn wf(&self) -> bool {
        self.inflight.wf()
    }

    pub closed spec fn queue_view(&self) -> Seq<char> {
        self.queue_name@
    }

    pub closed spec fn reply_view(&self) -> Seq<char> {
        self.reply_queue@
    }

    pub fn queue(&self) -> (r: &String)
        ensures
            r@ == self.queue_view(),
    {
        &self.queue_name
    }

    pub fn reply(&self) -> (r: &String)
        ensures
            r@ == self.reply_view(),
    {
        &self.reply_queue
    }

    /// The publish for a submission: the encoded request to the work
    /// queue, with `reply-to` set to this client's reply queue and the
    /// request id as correlation id.
    pub fn submission_publish(&self, req: &Request) -> (p: Publish)
        ensures
            p.routing_key@ == self.queue_view(),
            p.payload@ == vstd::utf8::encode_utf8(enc_request(req@)),
            p.content_type@ == "application/json"@,
            match p.reply_to {
                Some(q) => q@ == self.reply_view(),
                None => false,
            },
            match p.correlation_id {
                Some(c) => c@ == req@.id,
                None => false,
            },
    {
        Publish {
            routing_key: self.queue_name.clone(),
            payload: req.encode_bytes(),
            content_type: String::from_str("application/json"),
            reply_to: Some(self.reply_queue.clone()),
            correlation_id: Some(req.id().clone()),
        }
    }

    /// The fire-and-forget publish: no `reply-to`, so no reply comes
    /// and no pending entry is made.
    pub fn inject_publish(&self, req: &Request) -> (p: Publish)
        ensures
            p.routing_key@ == self.queue_view(),
            p.payload@ == vstd::utf8::encode_utf8(enc_request(req@)),
            p.content_type@ == "application/json"@,
            p.reply_to is None,
            match p.correlation_id {
                Some(c) => c@ == req@.id,
                None => false,
            },
    {
        Publish {
            routing_key: self.queue_name.clone(),
            payload: req.encode_bytes(),
            content_type: String::from_str("application/json"),
            reply_to: None,
            correlation_id: Some(req.id().clone()),
        }
    }

    /// Whether a call is already pending under `id`.
    pub fn is_pending(&self, id: &String) -> (r: bool)
        requires
            self.wf(),
        ensures
            r == self.pending().contains_key(id@),
    {
        match self.inflight.lookup(id) {
            Some(_) => true,
            None => false,
        }
    }

    /// After a successful publish the caller waits under its id.
    pub fn on_publish_ok(&mut self, req: &Request, token: u64)
        requires
            old(self).wf(),
            !old(self).pending().contains_key(req@.id),
        ensures
            final(self).wf(),
            final(self).pending() == old(self).pending().insert(req@.id, token),
            final(self).queue_view() == old(self).queue_view(),
            final(self).reply_view() == old(self).reply_view(),
    {
        self.inflight.insert(req.id().clone(), token);
    }

    /// A failed publish never creates a pending entry: the caller is
    /// answered at once with a transport error response whose message
    /// carries the broker's own words.
    pub fn on_publish_failed(&self, req: &Request, err: &str) -> (r: Response)
        ensures
            r@ == (RespView::Error {
                id: req@.id,
                error: ErrView {
                    code: -32603,
                    message: "Could not send request: "@ + err@,
                    data: None,
                },
            }),
    {
        let mut message = String::from_str("Could not send request: ");
        message.append(err);
        Response::error_for(req, -32603i32, message, None)
    }

    /// One reply delivery: decode, correlate by id, and either hand the
    /// response to exactly the waiting caller, or discard it.
    pub fn on_delivery(&mut self, body: &[u8]) -> (r: DeliveryOutcome)
        requires
            old(self).wf(),
        ensures
            final(self).wf(),
            final(self).queue_view() == old(self).queue_view(),
            final(self).reply_view() == old(self).reply_view(),
            match decode_response_bytes(body@) {
                Ok(rv) => {
                    if old(self).pending().contains_key(resp_id(rv)) {
                        r matches DeliveryOutcome::Reply { token, response } && token == old(
                            self,
                        ).pending()[resp_id(rv)] && response@ == rv && final(self).pending() == old(
                            self,
                        ).pending().remove(resp_id(rv))
                    } else {
                        r is Orphan && final(self).pending() == old(self).pending()
                    }
                },
                Err(_) => r is Malformed && final(self).pending() == old(self).pending(),
            },
    {
        match Response::decode(body) {
            Err(_) => DeliveryOutcome::Malformed,
            Ok(response) => {
                let id = response.id().clone();
                match self.inflight.remove(&id) {
                    Some(token) => DeliveryOutcome::Reply { token, response },
                    None => DeliveryOutcome::Orphan,
                }
            },
        }
    }

    /// A caller's deadline passed: its entry leaves the table, so a
    /// late reply will be an orphan.
    pub fn on_timeout(&mut self, id: &String) -> (removed: Option<u64>)
        requires
            old(self).wf(),
        ensures
            final(self).wf(),
            final(self).queue_view() == old(self).queue_view(),
            final(self).reply_view() == old(self).reply_view(),
            match removed {
                Some(t) => old(self).pending().contains_key(id@) && t == old(self).pending()[id@]
                    && final(self).pending() == old(self).pending().remove(id@),
                None => !old(self).pending().contains_key(id@) && final(self).pending() == old(
                    self,
                ).pending(),
            },
    {
        self.inflight.remove(id)
    }

    /// Shutdown: every still-pending ticket comes back, to be fulfilled
    /// with `ClientClosed`; nothing stays pending.
    pub fn on_close(&mut self) -> (r: Vec<u64>)
        requires
            old(self).wf(),
        ensures
            final(self).wf(),
            final(self).pending() == Map::<Seq<char>, u64>::empty(),
            r@.len() == old(self).pending().dom().len(),
            forall|k: Seq<char>|
                old(self).pending().contains_key(k) ==> r@.contains(old(self).pending()[k]),
    {
        self.inflight.drain()
    }
}

/// Correlation: while a reply for one id is matched and removed, every
/// other pending caller keeps exactly its own ticket, in whatever order
/// replies arrive; an orphan id touches nothing.
pub proof fn lemma_correlation(m: Map<Seq<char>, u64>, answered: Seq<char>, other: Seq<char>)
    requires
        m.contains_key(answered),
        m.contains_key(other),
        other != answered,
    ensures
        m.remove(answered).contains_key(other),
        m.remove(answered)[other] == m[other],
        !m.remove(answered).contains_key(answered),
{
}

/// Timeout isolation: removing a timed-out id leaves every other
/// pending caller untouched, and the id is no longer pending, so a
/// late reply for it finds no caller; a fresh id can then be pended
/// again as if the timeout had never happened.
pub proof fn lemma_timeout_isolation(m: Map<Seq<char>, u64>, timed_out: Seq<char>, other: Seq<char>, fresh: Seq<char>, t: u64)
    requires
        m.contains_key(timed_out),
        m.contains_key(other),
        other != timed_out,
        !m.contains_key(fresh),
    ensures
        !m.remove(timed_out).contains_key(timed_out),
        m.remove(timed_out).contains_key(other) && m.remove(timed_out)[other] == m[other],
        m.remove(timed_out).insert(fresh, t)[fresh] == t,
        fresh != other ==> m.remove(timed_out).insert(fresh, t)[other] == m[other],
{
}

} // verus!
