use respdiff::error::DbFormatError;
use respdiff::{DnsReply, ServerResponse, ServerResponseList};

#[test]
fn parse_serverreplylist() {
    let key = vec![0x42, 0x00, 0x00, 0x00];
    let empty = vec![];
    assert_eq!(
        ServerResponseList::try_from((key.as_slice(), empty.as_slice())),
        Ok(ServerResponseList {
            key: 0x42,
            replies: vec![]
        })
    );

    let timeout = vec![0xff, 0xff, 0xff, 0xff, 0x00, 0x00];
    assert_eq!(
        ServerResponseList::try_from((key.as_slice(), timeout.as_slice())),
        Ok(ServerResponseList {
            key: 0x42,
            replies: vec![ServerResponse::Timeout,],
        })
    );

    let missingdata = vec![0x00, 0x00, 0x00, 0x00, 0x01, 0x00];
    assert_eq!(
        ServerResponseList::try_from((key.as_slice(), missingdata.as_slice())),
        Err(DbFormatError::ReplyMissingData.into())
    );

    let shortdata = vec![0x00, 0x00, 0x00, 0x00, 0x01, 0x00, 0x00];
    assert_eq!(
        ServerResponseList::try_from((key.as_slice(), shortdata.as_slice())),
        Ok(ServerResponseList {
            key: 0x42,
            replies: vec![ServerResponse::Malformed],
        })
    );

    let wire = vec![
        0x01, 0x02, 0x03, 0x04, 0x05, 0x06, 0x07, 0x08, 0x09, 0x0a, 0x0b, 0x0c,
    ];
    let header = vec![0x00, 0x00, 0x00, 0x00, 0x0c, 0x00];
    let mut data = header.to_owned();
    data.append(&mut wire.to_owned());
    let dnsreply = DnsReply::new(0, wire.to_owned()).unwrap();
    assert_eq!(
        ServerResponseList::try_from((key.as_slice(), data.as_slice())),
        Ok(ServerResponseList {
            key: 0x42,
            replies: vec![ServerResponse::Data(dnsreply.to_owned())],
        })
    );

    data.append(&mut timeout.to_owned());
    let header3 = vec![0x01, 0x00, 0x00, 0x00, 0x0c, 0x00];
    data.append(&mut header3.to_owned());
    data.append(&mut wire.to_owned());
    assert_eq!(
        ServerResponseList::try_from((key.as_slice(), data.as_slice())),
        Ok(ServerResponseList {
            key: 0x42,
            replies: vec![
                ServerResponse::Data(dnsreply.to_owned()),
                ServerResponse::Timeout,
                ServerResponse::Data(DnsReply::new(1, wire.to_owned()).unwrap()),
            ],
        })
    );
}

#[test]
fn key_must_have_four_octets() {
    let empty: Vec<u8> = vec![];
    let short = vec![0x42, 0x00, 0x00];
    let long = vec![0x42, 0x00, 0x00, 0x00, 0x00];
    assert_eq!(
        ServerResponseList::try_from((short.as_slice(), empty.as_slice())),
        Err(DbFormatError::ReplyInvalidData)
    );
    assert_eq!(
        ServerResponseList::try_from((long.as_slice(), empty.as_slice())),
        Err(DbFormatError::ReplyInvalidData)
    );
}

#[test]
fn timeout_with_length_is_invalid() {
    let key = vec![0x01, 0x02, 0x03, 0x04];
    let value = vec![0xff, 0xff, 0xff, 0xff, 0x01, 0x00, 0x00];
    assert_eq!(
        ServerResponseList::try_from((key.as_slice(), value.as_slice())),
        Err(DbFormatError::ReplyInvalidData)
    );
}

#[test]
fn trailing_octets_are_missing_data() {
    let key = vec![0x01, 0x02, 0x03, 0x04];
    let value = vec![0xff, 0xff, 0xff, 0xff, 0x00, 0x00, 0x07];
    assert_eq!(
        ServerResponseList::try_from((key.as_slice(), value.as_slice())),
        Err(DbFormatError::ReplyMissingData)
    );
}

#[test]
fn key_and_delay_are_little_endian() {
    let key = vec![0x01, 0x02, 0x03, 0x04];
    let mut value = vec![0x10, 0x20, 0x30, 0x40, 0x0c, 0x00];
    let wire = vec![0u8; 12];
    value.extend_from_slice(&wire);
    let list = ServerResponseList::try_from((key.as_slice(), value.as_slice())).unwrap();
    assert_eq!(list.key, 0x0403_0201);
    assert_eq!(
        list.replies,
        vec![ServerResponse::Data(DnsReply::new(0x4030_2010, wire).unwrap())]
    );
}
