//! Gathering what the servers answer to one query.
//!
//! A query goes to every server at once. Whatever comes back, and in
//! whatever order, the responses are held by the position of the server
//! that gave them; a server that gives nothing counts as timed out.

use vstd::prelude::*;
use vstd::std_specs::cmp::PartialEqSpecImpl;
use crate::database::answersdb::{
    all_encodable, encode_replies, lemma_encode_push, push_data, push_timeout, read_back,
};
use crate::{DnsReply, DnsReplyView, QKey, ResponseView, ServerResponse};

verus! {

/// What came back from a server, as it came. Two responses are equal if
/// both are timeouts or both hold the same octets, whatever their delays.
#[derive(Debug, Clone)]
pub enum RawResponse {
    /// Nothing came back in time.
    Timeout,
    /// A datagram came back after `delay` microseconds.
    Data { delay: u64, wire: Vec<u8> },
}

impl View for RawResponse {
    type V = ResponseView;

    open spec fn view(&self) -> ResponseView {
        match self {
            RawResponse::Timeout => ResponseView::Timeout,
            RawResponse::Data { delay, wire } => ResponseView::Data(
                DnsReplyView { delay: *delay, wire: wire@ },
            ),
        }
    }
}

impl PartialEq for RawResponse {
    fn eq(&self, other: &RawResponse) -> (r: bool) {
        match (self, other) {
            (RawResponse::Timeout, RawResponse::Timeout) => true,
            (RawResponse::Data { wire: w1, .. }, RawResponse::Data { wire: w2, .. }) => same_octets(
                w1,
                w2,
            ),
            _ => false,
        }
    }
}

impl PartialEqSpecImpl for RawResponse {
    open spec fn obeys_eq_spec() -> bool {
        true
    }

    open spec fn eq_spec(&self, other: &RawResponse) -> bool {
        match (self, other) {
            (RawResponse::Timeout, RawResponse::Timeout) => true,
            (RawResponse::Data { wire: w1, .. }, RawResponse::Data { wire: w2, .. }) => w1@ == w2@,
            _ => false,
        }
    }
}

impl Eq for RawResponse {

}

/// Whether two buffers hold the same octets.
fn same_octets(a: &Vec<u8>, b: &Vec<u8>) -> (r: bool)
    ensures
        r == (a@ == b@),
{
    if a.len() != b.len() {
        return false;
    }
    let mut i: usize = 0;
    while i < a.len()
        invariant
            i <= a.len(),
            a.len() == b.len(),
            forall|k: int| 0 <= k < i ==> a@[k] == b@[k],
        decreases a.len() - i,
    {
        if a[i] != b[i] {
            return false;
        }
        i += 1;
    }
    assert(a@ =~= b@);
    true
}

/// What each response of a list stands for.
pub open spec fn raw_views(replies: Seq<RawResponse>) -> Seq<ResponseView> {
    replies.map_values(|r: RawResponse| r@)
}

impl RawResponse {
    /// The response as the comparison reads it: data that cannot be a DNS
    /// message is malformed.
    pub fn parse(self) -> (r: ServerResponse)
        ensures
            r@ == read_back(self@),
    {
        match self {
            RawResponse::Timeout => ServerResponse::Timeout,
            RawResponse::Data { delay, wire } => match DnsReply::new(delay, wire) {
                Some(reply) => ServerResponse::Data(reply),
                None => ServerResponse::Malformed,
            },
        }
    }
}

/// The responses to one query while they are gathered.
#[derive(Debug)]
pub struct FanOut {
    key: QKey,
    replies: Vec<RawResponse>,
}

impl FanOut {
    /// The key of the query.
    pub closed spec fn key(&self) -> QKey {
        self.key
    }

    /// The responses by the position of the server.
    pub closed spec fn replies(&self) -> Seq<ResponseView> {
        raw_views(self.replies@)
    }

    /// Starts gathering the responses of `servers` servers to the query
    /// stored under `key`: so far each of them has timed out.
    pub fn new(key: QKey, servers: usize) -> (r: FanOut)
        ensures
            r.key() == key,
            r.replies().len() == servers,
            forall|i: int| 0 <= i < servers ==> r.replies()[i] == ResponseView::Timeout,
    {
        let mut replies: Vec<RawResponse> = Vec::new();
        let mut i: usize = 0;
        while i < servers
            invariant
                i <= servers,
                replies@.len() == i,
                forall|k: int| 0 <= k < i ==> replies@[k]@ == ResponseView::Timeout,
            decreases servers - i,
        {
            replies.push(RawResponse::Timeout);
            i += 1;
        }
        FanOut { key, replies }
    }

    /// Notes what the server at `position` gave. A position that no server
    /// has changes nothing.
    pub fn settle(&mut self, position: usize, reply: RawResponse)
        ensures
            final(self).key() == old(self).key(),
            final(self).replies() == if position < old(self).replies().len() {
                old(self).replies().update(position as int, reply@)
            } else {
                old(self).replies()
            },
    {
        if position < self.replies.len() {
            self.replies.set(position, reply);
        }
    }

    /// Ends the gathering: the key of the query and the responses in the
    /// declared order of the servers.
    pub fn finish(self) -> (r: (QKey, Vec<RawResponse>))
        ensures
            r.0 == self.key(),
            raw_views(r.1@) == self.replies(),
    {
        (self.key, self.replies)
    }
}

/// The value that stores the responses to one query, if each of them fits
/// a record.
pub fn encode_raw(replies: &Vec<RawResponse>) -> (r: Option<Vec<u8>>)
    ensures
        r is Some <==> all_encodable(raw_views(replies@)),
        r matches Some(value) ==> value@ == encode_replies(raw_views(replies@)),
{
    let ghost all = raw_views(replies@);
    let mut value: Vec<u8> = Vec::new();
    let mut i: usize = 0;
    while i < replies.len()
        invariant
            i <= replies.len(),
            all == raw_views(replies@),
            all_encodable(all.take(i as int)),
            value@ == encode_replies(all.take(i as int)),
        decreases replies.len() - i,
    {
        proof {
            lemma_encode_push(all.take(i as int), all[i as int]);
            assert(all.take(i + 1) =~= all.take(i as int).push(all[i as int]));
        }
        match &replies[i] {
            RawResponse::Timeout => {
                push_timeout(&mut value);
            },
            RawResponse::Data { delay, wire } => {
                if !push_data(&mut value, *delay, wire) {
                    return None;
                }
            },
        }
        i += 1;
    }
    assert(all.take(i as int) =~= all);
    Some(value)
}

/// The pause between two queries that keeps to `qps` queries per second,
/// in nanoseconds.
pub fn pacing_nanos(qps: u32) -> (r: u64)
    requires
        qps > 0,
    ensures
        r == 1_000_000_000int / (qps as int),
{
    1_000_000_000u64 / (qps as u64)
}

} // verus!
