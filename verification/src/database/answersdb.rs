//! The `answers` table: one packed list of responses under each query key.
//!
//! A value is a run of records, one per server. A record is the delay in
//! microseconds as four little-endian octets, the length of the payload as
//! two, and the payload; a delay of all ones marks a timeout and has no
//! payload.

use vstd::prelude::*;
use crate::error::DbFormatError;
use crate::wire::{
    le_bytes, le_value, read_u16_le, read_u32_le, write_u16_le, write_u32_le, HEADER_LEN,
};
use crate::{DnsReply, DnsReplyView, ResponseListView, ResponseView, ServerResponse, ServerResponseList};

verus! {

/// Name of the table.
pub const NAME: &'static str = "answers";

/// The delay that stands for a timeout.
pub const TIMEOUT_MARK: u32 = 0xFFFF_FFFF;

/// Octets of a record before its payload.
pub const RECORD_HEAD: usize = 6;

/// The response that a stored payload with its delay stands for: data if
/// the payload can be a DNS message, malformed if not.
pub open spec fn stored_reply(delay: nat, payload: Seq<u8>) -> ResponseView {
    if payload.len() >= HEADER_LEN {
        ResponseView::Data(DnsReplyView { delay: delay as u64, wire: payload })
    } else {
        ResponseView::Malformed
    }
}

/// `head` followed by what `rest` holds, or the error of `rest`.
pub open spec fn prepend(head: Seq<ResponseView>, rest: Result<Seq<ResponseView>, DbFormatError>)
    -> Result<Seq<ResponseView>, DbFormatError> {
    match rest {
        Ok(tail) => Ok(head + tail),
        Err(e) => Err(e),
    }
}

/// The responses that a stored value holds, read record by record from its
/// start, or the first fault met on the way.
pub open spec fn decode_replies(buf: Seq<u8>) -> Result<Seq<ResponseView>, DbFormatError>
    decreases buf.len(),
{
    if buf.len() == 0 {
        Ok(Seq::empty())
    } else if buf.len() < RECORD_HEAD {
        Err(DbFormatError::ReplyMissingData)
    } else {
        let delay = le_value(buf.subrange(0, 4));
        let len = le_value(buf.subrange(4, 6)) as int;
        if delay == TIMEOUT_MARK {
            if len != 0 {
                Err(DbFormatError::ReplyInvalidData)
            } else {
                prepend(seq![ResponseView::Timeout], decode_replies(buf.skip(6)))
            }
        } else if 6 + len > buf.len() {
            Err(DbFormatError::ReplyMissingData)
        } else {
            prepend(
                seq![stored_reply(delay, buf.subrange(6, 6 + len))],
                decode_replies(buf.skip(6 + len)),
            )
        }
    }
}

/// The response list stored under `key` with value `buf`.
pub open spec fn decode(key: Seq<u8>, buf: Seq<u8>) -> Result<ResponseListView, DbFormatError> {
    if key.len() != 4 {
        Err(DbFormatError::ReplyInvalidData)
    } else {
        match decode_replies(buf) {
            Ok(replies) => Ok(ResponseListView { key: le_value(key) as u32, replies }),
            Err(e) => Err(e),
        }
    }
}

/// Whether a response can be stored: a timeout, or data whose delay is
/// below the mark of a timeout and whose length fits two octets. What a
/// malformed response was made of is not kept, so it cannot be stored again.
pub open spec fn encodable(reply: ResponseView) -> bool {
    match reply {
        ResponseView::Timeout => true,
        ResponseView::Malformed => false,
        ResponseView::Data(data) => data.delay < TIMEOUT_MARK && data.wire.len() <= 0xFFFF,
    }
}

/// Whether every response of a list can be stored.
pub open spec fn all_encodable(replies: Seq<ResponseView>) -> bool {
    forall|i: int| 0 <= i < replies.len() ==> encodable(#[trigger] replies[i])
}

/// The record that stores one response.
pub open spec fn encode_reply(reply: ResponseView) -> Seq<u8> {
    match reply {
        ResponseView::Timeout => le_bytes(TIMEOUT_MARK as nat, 4) + le_bytes(0, 2),
        ResponseView::Malformed => Seq::empty(),
        ResponseView::Data(data) => le_bytes(data.delay as nat, 4) + le_bytes(data.wire.len(), 2)
            + data.wire,
    }
}

/// The value that stores a list of responses: their records in order.
pub open spec fn encode_replies(replies: Seq<ResponseView>) -> Seq<u8>
    decreases replies.len(),
{
    if replies.len() == 0 {
        Seq::empty()
    } else {
        encode_reply(replies[0]) + encode_replies(replies.drop_first())
    }
}

/// What a response is read back as once stored: data that cannot be a DNS
/// message comes back malformed.
pub open spec fn read_back(reply: ResponseView) -> ResponseView {
    match reply {
        ResponseView::Data(data) => stored_reply(data.delay as nat, data.wire),
        _ => reply,
    }
}

/// Appends the record of a timeout to a value.
pub fn push_timeout(value: &mut Vec<u8>)
    ensures
        final(value)@ == old(value)@ + encode_reply(ResponseView::Timeout),
{
    let mut delay = write_u32_le(TIMEOUT_MARK);
    let mut len = write_u16_le(0);
    value.append(&mut delay);
    value.append(&mut len);
}

/// Appends the record of a reply that took `delay` microseconds and held
/// `wire`, if the two fit a record; returns whether they did.
pub fn push_data(value: &mut Vec<u8>, delay: u64, wire: &Vec<u8>) -> (r: bool)
    ensures
        r == encodable(ResponseView::Data(DnsReplyView { delay, wire: wire@ })),
        final(value)@ == if r {
            old(value)@ + encode_reply(ResponseView::Data(DnsReplyView { delay, wire: wire@ }))
        } else {
            old(value)@
        },
{
    if delay >= TIMEOUT_MARK as u64 || wire.len() > 0xFFFF {
        return false;
    }
    let mut head = write_u32_le(delay as u32);
    let mut len = write_u16_le(wire.len() as u16);
    let mut payload = wire.clone();
    value.append(&mut head);
    value.append(&mut len);
    value.append(&mut payload);
    true
}

/// The records of the first responses and then the record of the next are
/// the records of all of them.
pub proof fn lemma_encode_push(replies: Seq<ResponseView>, next: ResponseView)
    ensures
        encode_replies(replies.push(next)) == encode_replies(replies) + encode_reply(next),
    decreases replies.len(),
{
    if replies.len() == 0 {
        assert(replies.push(next).drop_first() =~= replies);
    } else {
        assert(replies.push(next).drop_first() =~= replies.drop_first().push(next));
        lemma_encode_push(replies.drop_first(), next);
    }
}

/// Octets written least significant first read back as the number written.
pub proof fn lemma_le_value_of_bytes(value: nat, width: nat)
    ensures
        le_bytes(value, width).len() == width,
        width == 2 && value < 0x1_0000 ==> le_value(le_bytes(value, width)) == value,
        width == 4 && value < 0x1_0000_0000 ==> le_value(le_bytes(value, width)) == value,
{
    reveal_with_fuel(le_bytes, 5);
    reveal_with_fuel(le_value, 5);
    lemma_le_len(value, width);
}

/// A number written with `width` octets takes `width` octets.
proof fn lemma_le_len(value: nat, width: nat)
    ensures
        le_bytes(value, width).len() == width,
    decreases width,
{
    if width > 0 {
        lemma_le_len(value / 256, (width - 1) as nat);
    }
}

/// A value that begins with the record of a response that can be stored
/// reads as that response, as it is read back, and then what the rest reads as.
pub proof fn lemma_decode_record(reply: ResponseView, rest: Seq<u8>)
    requires
        encodable(reply),
    ensures
        decode_replies(encode_reply(reply) + rest) == prepend(
            seq![read_back(reply)],
            decode_replies(rest),
        ),
{
    let buf = encode_reply(reply) + rest;
    match reply {
        ResponseView::Timeout => {
            lemma_le_value_of_bytes(TIMEOUT_MARK as nat, 4);
            lemma_le_value_of_bytes(0, 2);
            assert(buf.subrange(0, 4) =~= le_bytes(TIMEOUT_MARK as nat, 4));
            assert(buf.subrange(4, 6) =~= le_bytes(0, 2));
            assert(buf.skip(6) =~= rest);
        },
        ResponseView::Data(data) => {
            let len = data.wire.len();
            lemma_le_value_of_bytes(data.delay as nat, 4);
            lemma_le_value_of_bytes(len, 2);
            assert(buf.subrange(0, 4) =~= le_bytes(data.delay as nat, 4));
            assert(buf.subrange(4, 6) =~= le_bytes(len, 2));
            assert(buf.subrange(6, 6 + len as int) =~= data.wire);
            assert(buf.skip(6 + len as int) =~= rest);
        },
        ResponseView::Malformed => {},
    }
}

/// Round trip: a list of responses that can be stored reads back from its
/// stored form as itself, but for data that cannot be a DNS message, which
/// reads back as malformed.
pub proof fn lemma_round_trip(replies: Seq<ResponseView>)
    requires
        all_encodable(replies),
    ensures
        decode_replies(encode_replies(replies)) == Ok::<Seq<ResponseView>, DbFormatError>(
            replies.map_values(|r: ResponseView| read_back(r)),
        ),
    decreases replies.len(),
{
    let back = replies.map_values(|r: ResponseView| read_back(r));
    if replies.len() == 0 {
        assert(back =~= Seq::<ResponseView>::empty());
    } else {
        let rest = replies.drop_first();
        lemma_round_trip(rest);
        lemma_decode_record(replies[0], encode_replies(rest));
        assert(back =~= seq![read_back(replies[0])] + rest.map_values(
            |r: ResponseView| read_back(r),
        ));
    }
}

/// Round trip of a whole record of the table: the responses of all
/// servers to one query, stored under the four octets of its key, read
/// back as they were.
pub proof fn lemma_list_round_trip(list: ResponseListView)
    requires
        all_encodable(list.replies),
        forall|i: int| 0 <= i < list.replies.len() ==> (#[trigger] list.replies[i]).wf(),
    ensures
        decode(le_bytes(list.key as nat, 4), encode_replies(list.replies)) == Ok::<
            ResponseListView,
            DbFormatError,
        >(list),
{
    lemma_round_trip(list.replies);
    lemma_le_value_of_bytes(list.key as nat, 4);
    assert(list.replies.map_values(|r: ResponseView| read_back(r)) =~= list.replies) by {
        assert forall|i: int| 0 <= i < list.replies.len() implies read_back(list.replies[i])
            == list.replies[i] by {}
    }
}

impl ServerResponseList {
    /// Parses the responses of all servers to one query from a key of the
    /// `answers` table and its value.
    pub fn try_from(item: (&[u8], &[u8])) -> (r: Result<ServerResponseList, DbFormatError>)
        ensures
            match decode(item.0@, item.1@) {
                Ok(list) => r matches Ok(found) && found@ == list,
                Err(e) => r == Err::<ServerResponseList, DbFormatError>(e),
            },
            r matches Ok(found) ==> forall|i: int|
                0 <= i < found@.replies.len() ==> (#[trigger] found@.replies[i]).wf(),
    {
        let (key, buf) = item;
        if key.len() != 4 {
            return Err(DbFormatError::ReplyInvalidData);
        }
        let mut replies: Vec<ServerResponse> = Vec::new();
        let mut i: usize = 0;
        proof {
            assert(buf@.skip(0) == buf@);
        }
        while i <= buf.len() && buf.len() - i >= RECORD_HEAD
            invariant
                i <= buf.len(),
                key@ == item.0@,
                buf@ == item.1@,
                key@.len() == 4,
                decode_replies(buf@) == prepend(
                    replies@.map_values(|r: ServerResponse| r@),
                    decode_replies(buf@.skip(i as int)),
                ),
                forall|k: int| 0 <= k < replies@.len() ==> (#[trigger] replies@[k]@).wf(),
            decreases buf.len() - i,
        {
            let ghost rest = buf@.skip(i as int);
            let ghost done = replies@.map_values(|r: ServerResponse| r@);
            let delay: u32 = read_u32_le(&buf[i..i + 4]);
            let len16: u16 = read_u16_le(&buf[i + 4..i + 6]);
            let len: usize = len16 as usize;
            proof {
                assert(rest.subrange(0, 4) == buf@.subrange(i as int, i + 4));
                assert(rest.subrange(4, 6) == buf@.subrange(i + 4, i + 6));
            }
            i += RECORD_HEAD;
            if delay == TIMEOUT_MARK {
                if len != 0 {
                    return Err(DbFormatError::ReplyInvalidData);
                }
                replies.push(ServerResponse::Timeout);
                proof {
                    assert(rest.skip(6) == buf@.skip(i as int));
                    assert(replies@.map_values(|r: ServerResponse| r@) == done + seq![
                        ResponseView::Timeout,
                    ]);
                    lemma_prepend_twice(
                        done,
                        seq![ResponseView::Timeout],
                        decode_replies(buf@.skip(i as int)),
                    );
                }
                continue;
            }
            if len > buf.len() - i {
                return Err(DbFormatError::ReplyMissingData);
            }
            let payload: Vec<u8> = vstd::slice::slice_to_vec(&buf[i..i + len]);
            proof {
                assert(rest.subrange(6, 6 + len) == buf@.subrange(i as int, i + len));
                assert(rest.skip(6 + len) == buf@.skip(i + len));
            }
            i += len;
            let reply = match DnsReply::new(delay as u64, payload) {
                Some(reply) => ServerResponse::Data(reply),
                None => ServerResponse::Malformed,
            };
            replies.push(reply);
            proof {
                assert(replies@.map_values(|r: ServerResponse| r@) == done + seq![reply@]);
                lemma_prepend_twice(done, seq![reply@], decode_replies(buf@.skip(i as int)));
            }
        }
        if i == buf.len() {
            Ok(ServerResponseList { key: read_u32_le(key), replies })
        } else {
            Err(DbFormatError::ReplyMissingData)
        }
    }
}

impl ServerResponseList {
    /// The four octets of the key under which the list is stored.
    pub fn key_bytes(&self) -> (r: Vec<u8>)
        ensures
            r@ == le_bytes(self.key as nat, 4),
    {
        write_u32_le(self.key)
    }

    /// The value that stores the responses of the list, if each of them can
    /// be stored.
    pub fn encode(&self) -> (r: Option<Vec<u8>>)
        ensures
            r is Some <==> all_encodable(self@.replies),
            r matches Some(value) ==> value@ == encode_replies(self@.replies),
    {
        let ghost all = self@.replies;
        let mut value: Vec<u8> = Vec::new();
        let mut i: usize = 0;
        while i < self.replies.len()
            invariant
                i <= self.replies.len(),
                all == self@.replies,
                all_encodable(all.take(i as int)),
                value@ == encode_replies(all.take(i as int)),
            decreases self.replies.len() - i,
        {
            proof {
                lemma_encode_push(all.take(i as int), all[i as int]);
                assert(all.take(i + 1) =~= all.take(i as int).push(all[i as int]));
            }
            match &self.replies[i] {
                ServerResponse::Timeout => {
                    push_timeout(&mut value);
                },
                ServerResponse::Malformed => {
                    return None;
                },
                ServerResponse::Data(reply) => {
                    if !push_data(&mut value, reply.delay(), reply.wire()) {
                        return None;
                    }
                },
            }
            i += 1;
        }
        assert(all.take(i as int) =~= all);
        Some(value)
    }
}

/// Putting `a` and then `b` in front is putting `a + b` in front.
proof fn lemma_prepend_twice(
    a: Seq<ResponseView>,
    b: Seq<ResponseView>,
    rest: Result<Seq<ResponseView>, DbFormatError>,
)
    ensures
        prepend(a, prepend(b, rest)) == prepend(a + b, rest),
{
    if let Ok(tail) = rest {
        assert(a + (b + tail) == (a + b) + tail);
    }
}

} // verus!
