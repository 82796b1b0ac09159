//! Differential testing of DNS resolvers: the stored response format, the
//! comparison of two responses field by field, and the audit that tells the
//! queries on which one target server alone disagrees from those on which
//! the reference servers already disagree among themselves.

use vstd::prelude::*;
use std::collections::BTreeSet;

pub mod config;
pub mod database;
pub mod dataformat;
pub mod diff_answers;
pub mod error;
pub mod matcher;
pub mod question;
pub mod sets;
pub mod transceive;
pub mod wire;

verus! {

// -------- Types ---------

/// 32 bit integer under which a query, and its responses, are stored.
pub type QKey = u32;

/// DNS message reply from a server.
///
/// The content is only guaranteed to have a DNS header; the rest of the
/// message may still fail to parse.
#[derive(Debug, PartialEq, Eq)]
pub struct DnsReply {
    delay: u64,
    wire: Vec<u8>,
}

/// What a [`DnsReply`] stands for: its delay and the octets of its message.
pub struct DnsReplyView {
    /// Microseconds between sending the query and the reply's arrival.
    pub delay: u64,
    /// The octets of the message.
    pub wire: Seq<u8>,
}

/// Response from a server.
#[derive(Debug, PartialEq, Eq)]
pub enum ServerResponse {
    /// No response was received from the server in time.
    Timeout,
    /// Response was received, but it isn't a DNS message.
    Malformed,
    /// Response was received and it seems to be a DNS message.
    Data(DnsReply),
}

/// What a [`ServerResponse`] stands for.
pub enum ResponseView {
    Timeout,
    Malformed,
    Data(DnsReplyView),
}

/// A set of responses from all servers for a particular query.
#[derive(Debug, PartialEq, Eq)]
pub struct ServerResponseList {
    /// Query identifier.
    pub key: QKey,
    /// Responses, one per server, in the order in which the servers are declared.
    pub replies: Vec<ServerResponse>,
}

/// What a [`ServerResponseList`] stands for.
pub struct ResponseListView {
    pub key: QKey,
    pub replies: Seq<ResponseView>,
}

/// Criteria used to compare answers.
#[derive(Clone, Copy, Debug, PartialEq, Eq, Structural)]
pub enum DiffCriteria {
    Opcode,
    Rcode,
    Flags,
    Question,
    AnswerTypes,
    AnswerRrsigs,
}

// ----- Views --------

impl View for DnsReply {
    type V = DnsReplyView;

    closed spec fn view(&self) -> DnsReplyView {
        DnsReplyView { delay: self.delay, wire: self.wire@ }
    }
}

impl View for ServerResponse {
    type V = ResponseView;

    open spec fn view(&self) -> ResponseView {
        match self {
            ServerResponse::Timeout => ResponseView::Timeout,
            ServerResponse::Malformed => ResponseView::Malformed,
            ServerResponse::Data(reply) => ResponseView::Data(reply@),
        }
    }
}

impl View for ServerResponseList {
    type V = ResponseListView;

    open spec fn view(&self) -> ResponseListView {
        ResponseListView { key: self.key, replies: self.replies@.map_values(|r: ServerResponse| r@) }
    }
}

impl DnsReplyView {
    /// A reply holds at least a DNS header.
    pub open spec fn wf(self) -> bool {
        self.wire.len() >= wire::HEADER_LEN
    }
}

impl ResponseView {
    /// The reply of a `Data` response holds at least a DNS header.
    pub open spec fn wf(self) -> bool {
        self matches ResponseView::Data(reply) ==> reply.wf()
    }
}

// ----- Sections of the answer --------

/// Whether no step of a walk over a section failed.
pub open spec fn all_present<T>(items: Seq<Option<T>>) -> bool {
    forall|i: int| 0 <= i < items.len() ==> (#[trigger] items[i]) is Some
}

/// The record types other than RRSIG among the records of an answer
/// section, or `None` if the section did not parse to its end.
pub open spec fn rtypes_of(items: Option<Seq<Option<u16>>>) -> Option<Set<u16>> {
    match items {
        Some(s) => if all_present(s) {
            Some(Set::new(|t: u16| t != wire::RTYPE_RRSIG && s.contains(Some(t))))
        } else {
            None
        },
        None => None,
    }
}

/// The types covered by the RRSIG records of an answer section, or `None`
/// if the section, or one of its signatures, did not parse.
pub open spec fn covered_of(items: Option<Seq<Option<Option<u16>>>>) -> Option<Set<u16>> {
    match items {
        Some(s) => if all_present(s) {
            Some(Set::new(|t: u16| s.contains(Some(Some(t)))))
        } else {
            None
        },
        None => None,
    }
}

/// Collects the record types other than RRSIG from the walk over an answer
/// section; fails if the walk did.
pub fn rtypes_from_records(items: &Option<Vec<Option<u16>>>) -> (r: Result<
    BTreeSet<u16>,
    wire::ParseError,
>)
    ensures
        match rtypes_of(items.deep_view()) {
            Some(set) => r matches Ok(found) && found@ == set,
            None => r is Err,
        },
{
    match items {
        None => Err(wire::ParseError),
        Some(records) => {
            let ghost s = records.deep_view();
            let mut rtypes: BTreeSet<u16> = BTreeSet::new();
            let mut i: usize = 0;
            while i < records.len()
                invariant
                    i <= records.len(),
                    s == records.deep_view(),
                    items.deep_view() == Some(s),
                    all_present(s.take(i as int)),
                    rtypes@ == Set::new(
                        |t: u16| t != wire::RTYPE_RRSIG && s.take(i as int).contains(Some(t)),
                    ),
                decreases records.len() - i,
            {
                match records[i] {
                    None => {
                        assert(s[i as int] is None);
                        return Err(wire::ParseError);
                    },
                    Some(rtype) => {
                        if rtype != wire::RTYPE_RRSIG {
                            sets::insert_u16(&mut rtypes, rtype);
                        }
                        proof {
                            let before = s.take(i as int);
                            let after = s.take(i + 1);
                            assert(forall|t: u16|
                                after.contains(Some(t)) <==> before.contains(Some(t)) || t == rtype) by {
                                assert(after[i as int] == Some(rtype));
                            }
                        }
                    },
                }
                i += 1;
            }
            assert(s.take(i as int) == s);
            Ok(rtypes)
        },
    }
}

/// Collects the types that the signatures of an answer section cover from
/// the walk over it; fails if the walk did.
pub fn covered_from_records(items: &Option<Vec<Option<Option<u16>>>>) -> (r: Result<
    BTreeSet<u16>,
    wire::ParseError,
>)
    ensures
        match covered_of(items.deep_view()) {
            Some(set) => r matches Ok(found) && found@ == set,
            None => r is Err,
        },
{
    match items {
        None => Err(wire::ParseError),
        Some(records) => {
            let ghost s = records.deep_view();
            let mut covered: BTreeSet<u16> = BTreeSet::new();
            let mut i: usize = 0;
            while i < records.len()
                invariant
                    i <= records.len(),
                    s == records.deep_view(),
                    items.deep_view() == Some(s),
                    all_present(s.take(i as int)),
                    covered@ == Set::new(|t: u16| s.take(i as int).contains(Some(Some(t)))),
                decreases records.len() - i,
            {
                match records[i] {
                    None => {
                        assert(s[i as int] is None);
                        return Err(wire::ParseError);
                    },
                    Some(sig) => {
                        if let Some(rtype) = sig {
                            sets::insert_u16(&mut covered, rtype);
                        }
                        proof {
                            let before = s.take(i as int);
                            let after = s.take(i + 1);
                            assert(forall|t: u16|
                                after.contains(Some(Some(t))) <==> before.contains(Some(Some(t)))
                                    || sig == Some(t)) by {
                                assert(after[i as int] == Some(sig));
                            }
                        }
                    },
                }
                i += 1;
            }
            assert(s.take(i as int) == s);
            Ok(covered)
        },
    }
}

// ----- DnsReply --------

impl DnsReply {
    #[verifier::type_invariant]
    spec fn has_header(&self) -> bool {
        self.wire@.len() >= wire::HEADER_LEN
    }

    /// Makes a reply of a delay in microseconds and the octets received, if
    /// these can hold a DNS header.
    pub fn new(delay: u64, wire: Vec<u8>) -> (r: Option<DnsReply>)
        ensures
            r is Some <==> wire@.len() >= wire::HEADER_LEN,
            r matches Some(reply) ==> reply@ == (DnsReplyView { delay, wire: wire@ }),
    {
        if wire::is_message(&wire) {
            Some(DnsReply { delay, wire })
        } else {
            None
        }
    }

    /// A copy of the reply.
    pub fn duplicate(&self) -> (r: DnsReply)
        ensures
            r@ == self@,
    {
        proof {
            use_type_invariant(self);
        }
        DnsReply { delay: self.delay, wire: self.wire.clone() }
    }

    /// The time it took for the reply to arrive after sending the query, in microseconds.
    pub fn delay(&self) -> (r: u64)
        ensures
            r == self@.delay,
    {
        self.delay
    }

    /// The octets of the DNS message received in the reply.
    pub fn wire(&self) -> (r: &Vec<u8>)
        ensures
            r@ == self@.wire,
            self@.wf(),
    {
        proof {
            use_type_invariant(self);
        }
        &self.wire
    }

    /// Return the set of non-RRSIG record types present in answer.
    pub fn answer_rtypes(&self) -> (r: Result<BTreeSet<u16>, wire::ParseError>)
        ensures
            match rtypes_of(wire::answer_types(self@.wire)) {
                Some(set) => r matches Ok(found) && found@ == set,
                None => r is Err,
            },
    {
        let records = wire::answer_record_types(self.wire());
        rtypes_from_records(&records)
    }

    /// Return the set of types that are covered by any RRSIG in answer.
    pub fn answer_rrsig_covered(&self) -> (r: Result<BTreeSet<u16>, wire::ParseError>)
        ensures
            match covered_of(wire::answer_covered(self@.wire)) {
                Some(set) => r matches Ok(found) && found@ == set,
                None => r is Err,
            },
    {
        let records = wire::answer_covered_types(self.wire());
        covered_from_records(&records)
    }
}

impl Clone for ServerResponse {
    fn clone(&self) -> (r: Self)
        ensures
            r@ == self@,
    {
        match self {
            ServerResponse::Timeout => ServerResponse::Timeout,
            ServerResponse::Malformed => ServerResponse::Malformed,
            ServerResponse::Data(reply) => ServerResponse::Data(reply.duplicate()),
        }
    }
}

impl Clone for ServerResponseList {
    fn clone(&self) -> (r: Self)
        ensures
            r@ == self@,
    {
        let mut replies: Vec<ServerResponse> = Vec::new();
        let mut i: usize = 0;
        while i < self.replies.len()
            invariant
                i <= self.replies.len(),
                replies@.len() == i,
                forall|k: int| 0 <= k < i ==> replies@[k]@ == self.replies@[k]@,
            decreases self.replies.len() - i,
        {
            replies.push(self.replies[i].clone());
            i += 1;
        }
        let r = ServerResponseList { key: self.key, replies };
        assert(r@.replies =~= self@.replies);
        r
    }
}

impl Clone for DnsReply {
    fn clone(&self) -> (r: Self)
        ensures
            r@ == self@,
    {
        self.duplicate()
    }
}

} // verus!
