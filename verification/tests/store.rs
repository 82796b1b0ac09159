use respdiff::database::answersdb;
use respdiff::database::metadb;
use respdiff::database::queriesdb::{self, Query};
use respdiff::database::BIN_FORMAT_VERSION;
use respdiff::error::{DbFormatError, Error};
use respdiff::transceive::{encode_raw, pacing_nanos, FanOut, RawResponse};
use respdiff::{DnsReply, ServerResponse, ServerResponseList};

const WIRE: [u8; 12] = [
    0x01, 0x02, 0x03, 0x04, 0x05, 0x06, 0x07, 0x08, 0x09, 0x0a, 0x0b, 0x0c,
];

#[test]
fn table_names() {
    assert_eq!(metadb::NAME, "meta");
    assert_eq!(queriesdb::NAME, "queries");
    assert_eq!(answersdb::NAME, "answers");
    assert_eq!(BIN_FORMAT_VERSION, "2018-05-21");
}

#[test]
fn version_is_checked() {
    assert_eq!(metadb::version_value(), b"2018-05-21".to_vec());
    assert_eq!(
        metadb::check_version(&metadb::version_value()),
        Ok("2018-05-21".to_string())
    );
    assert_eq!(
        metadb::check_version(b"2018-05-22"),
        Err(Error::DbFormatError(DbFormatError::Unsupported))
    );
    assert_eq!(
        metadb::check_version(b""),
        Err(Error::DbFormatError(DbFormatError::Unsupported))
    );
    assert_eq!(metadb::check_version(&[0xff, 0xfe]), Err(Error::NonAscii));
}

#[test]
fn times_take_four_octets() {
    assert_eq!(
        metadb::time_value(1628173617),
        Ok(vec![0x31, 0xf5, 0x0b, 0x61])
    );
    assert_eq!(metadb::read_time(&[0x31, 0xf5, 0x0b, 0x61]), 1628173617);
    assert_eq!(metadb::time_value(0xffff_ffff), Ok(vec![0xff; 4]));
    assert_eq!(metadb::time_value(0x1_0000_0000), Err(Error::Time));
    assert_eq!(metadb::read_time(&[1, 0, 0, 0, 9, 9]), 1);
}

#[test]
fn servers_are_counted_and_named() {
    assert_eq!(metadb::servers_value(3), vec![3, 0, 0, 0]);
    assert_eq!(metadb::servers_value(0x0102), vec![2, 1, 0, 0]);
    assert_eq!(metadb::server_name_key(0), b"name0".to_vec());
    assert_eq!(metadb::server_name_key(7), b"name7".to_vec());
    assert_eq!(metadb::server_name_key(10), b"name10".to_vec());
    assert_eq!(metadb::server_name_key(1234), b"name1234".to_vec());
}

#[test]
fn query_from_key_and_value() {
    let key = [0x2a, 0x00, 0x00, 0x00];
    let wire = [0x21, 0x26, 0x01, 0x20];
    let query = Query::from((&key[..], &wire[..]));
    assert_eq!(query.key, 42);
    assert_eq!(query.wire, wire.to_vec());
    let key = [0x00, 0x01, 0x00, 0x00];
    assert_eq!(Query::from((&key[..], &wire[..])).key, 256);
}

#[test]
fn stored_lists_read_back_as_they_were() {
    let list = ServerResponseList {
        key: 0x42,
        replies: vec![
            ServerResponse::Data(DnsReply::new(0, WIRE.to_vec()).unwrap()),
            ServerResponse::Timeout,
            ServerResponse::Data(DnsReply::new(1, WIRE.to_vec()).unwrap()),
        ],
    };
    let key = list.key_bytes();
    assert_eq!(key, vec![0x42, 0x00, 0x00, 0x00]);
    let value = list.encode().unwrap();
    let mut expected = vec![0x00, 0x00, 0x00, 0x00, 0x0c, 0x00];
    expected.extend_from_slice(&WIRE);
    expected.extend_from_slice(&[0xff, 0xff, 0xff, 0xff, 0x00, 0x00]);
    expected.extend_from_slice(&[0x01, 0x00, 0x00, 0x00, 0x0c, 0x00]);
    expected.extend_from_slice(&WIRE);
    assert_eq!(value, expected);
    assert_eq!(
        ServerResponseList::try_from((key.as_slice(), value.as_slice())),
        Ok(list)
    );
}

#[test]
fn what_does_not_fit_a_record_is_not_stored() {
    let malformed = ServerResponseList {
        key: 1,
        replies: vec![ServerResponse::Timeout, ServerResponse::Malformed],
    };
    assert_eq!(malformed.encode(), None);
    let late = ServerResponseList {
        key: 1,
        replies: vec![ServerResponse::Data(
            DnsReply::new(0xffff_ffff, WIRE.to_vec()).unwrap(),
        )],
    };
    assert_eq!(late.encode(), None);
    let long = ServerResponseList {
        key: 1,
        replies: vec![ServerResponse::Data(
            DnsReply::new(0, vec![0u8; 0x1_0000]).unwrap(),
        )],
    };
    assert_eq!(long.encode(), None);
    let longest = ServerResponseList {
        key: 1,
        replies: vec![ServerResponse::Data(
            DnsReply::new(0xffff_fffe, vec![0u8; 0xffff]).unwrap(),
        )],
    };
    let value = longest.encode().unwrap();
    assert_eq!(value.len(), 6 + 0xffff);
    assert_eq!(&value[..6], &[0xfe, 0xff, 0xff, 0xff, 0xff, 0xff]);
    let empty = ServerResponseList {
        key: 1,
        replies: vec![],
    };
    assert_eq!(empty.encode(), Some(vec![]));
}

#[test]
fn replies_and_their_parts() {
    assert!(DnsReply::new(5, vec![0u8; 11]).is_none());
    let reply = DnsReply::new(5, WIRE.to_vec()).unwrap();
    assert_eq!(reply.delay(), 5);
    assert_eq!(reply.wire(), &WIRE.to_vec());
    assert_eq!(reply.duplicate(), reply);
    assert_eq!(reply.clone(), reply);
}

#[test]
fn responses_are_held_by_position() {
    let mut fanout = FanOut::new(42, 3);
    let data = RawResponse::Data {
        delay: 7,
        wire: WIRE.to_vec(),
    };
    let short = RawResponse::Data {
        delay: 9,
        wire: vec![1, 2, 3],
    };
    fanout.settle(2, data.clone());
    fanout.settle(0, short.clone());
    fanout.settle(3, data.clone());
    let (key, replies) = fanout.finish();
    assert_eq!(key, 42);
    assert_eq!(replies, vec![short.clone(), RawResponse::Timeout, data.clone()]);

    let value = encode_raw(&replies).unwrap();
    let list = ServerResponseList::try_from((&[42u8, 0, 0, 0][..], value.as_slice())).unwrap();
    let parsed: Vec<ServerResponse> = replies.into_iter().map(|r| r.parse()).collect();
    assert_eq!(list.replies, parsed);
    assert_eq!(
        parsed,
        vec![
            ServerResponse::Malformed,
            ServerResponse::Timeout,
            ServerResponse::Data(DnsReply::new(7, WIRE.to_vec()).unwrap()),
        ]
    );
}

#[test]
fn no_response_is_a_timeout() {
    let (key, replies) = FanOut::new(1, 2).finish();
    assert_eq!(key, 1);
    assert_eq!(replies, vec![RawResponse::Timeout, RawResponse::Timeout]);
    assert_eq!(
        encode_raw(&replies),
        Some(vec![
            0xff, 0xff, 0xff, 0xff, 0x00, 0x00, 0xff, 0xff, 0xff, 0xff, 0x00, 0x00
        ])
    );
    let late = vec![RawResponse::Data {
        delay: 0x1_0000_0000,
        wire: vec![],
    }];
    assert_eq!(encode_raw(&late), None);
}

#[test]
fn raw_responses_are_equal_by_their_octets() {
    let early = RawResponse::Data {
        delay: 0,
        wire: WIRE.to_vec(),
    };
    let late = RawResponse::Data {
        delay: 10_000,
        wire: WIRE.to_vec(),
    };
    let other = RawResponse::Data {
        delay: 0,
        wire: vec![1, 2, 3],
    };
    assert_eq!(early, late);
    assert_ne!(early, other);
    assert_ne!(early, RawResponse::Timeout);
    assert_eq!(RawResponse::Timeout, RawResponse::Timeout);
    assert_eq!(early.clone().parse(), ServerResponse::Data(DnsReply::new(0, WIRE.to_vec()).unwrap()));
    assert_ne!(late.parse(), early.parse());
    assert_eq!(other.parse(), ServerResponse::Malformed);
    assert_eq!(RawResponse::Timeout.parse(), ServerResponse::Timeout);
}

#[test]
fn pause_between_queries() {
    assert_eq!(pacing_nanos(1), 1_000_000_000);
    assert_eq!(pacing_nanos(800), 1_250_000);
    assert_eq!(pacing_nanos(1500), 666_666);
}
