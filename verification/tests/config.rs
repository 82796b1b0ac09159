use respdiff::config::{
    criteria_from_list, field_weights_from_list, servers_from_namelist, split_list, FieldWeight,
    TransportProtocol,
};
use respdiff::error::Error;
use respdiff::DiffCriteria;

#[test]
fn transport_names() {
    assert_eq!(
        TransportProtocol::try_from("udp".to_string()),
        Ok(TransportProtocol::Udp)
    );
    assert_eq!(
        TransportProtocol::try_from("tcp".to_string()),
        Ok(TransportProtocol::Tcp)
    );
    assert_eq!(
        TransportProtocol::try_from("tls".to_string()),
        Ok(TransportProtocol::Tls)
    );
    assert_eq!(
        TransportProtocol::try_from("UDP".to_string()),
        Err(Error::UnknownTransportProtocol("UDP".to_string()))
    );
}

#[test]
fn criteria_names() {
    assert_eq!(DiffCriteria::try_from("opcode"), Ok(DiffCriteria::Opcode));
    assert_eq!(DiffCriteria::try_from("rcode"), Ok(DiffCriteria::Rcode));
    assert_eq!(DiffCriteria::try_from("flags"), Ok(DiffCriteria::Flags));
    assert_eq!(DiffCriteria::try_from("question"), Ok(DiffCriteria::Question));
    assert_eq!(
        DiffCriteria::try_from("answertypes"),
        Ok(DiffCriteria::AnswerTypes)
    );
    assert_eq!(
        DiffCriteria::try_from("answerrrsigs"),
        Ok(DiffCriteria::AnswerRrsigs)
    );
    assert_eq!(
        DiffCriteria::try_from("authority"),
        Err(Error::UnknownDiffCriteria("authority".to_string()))
    );
}

#[test]
fn field_weight_names() {
    assert_eq!(FieldWeight::try_from("timeout"), Ok(FieldWeight::Timeout));
    assert_eq!(FieldWeight::try_from("nsid"), Ok(FieldWeight::Nsid));
    assert_eq!(FieldWeight::try_from("answer"), Ok(FieldWeight::Answer));
    assert_eq!(
        FieldWeight::try_from("weight"),
        Err(Error::UnknownFieldWeight("weight".to_string()))
    );
}

#[test]
fn server_names_from_list() {
    assert_eq!(
        servers_from_namelist("google, cloudflare, cznic"),
        vec![
            "google".to_string(),
            "cloudflare".to_string(),
            "cznic".to_string()
        ]
    );
}

#[test]
fn lists_split_at_commas_and_lose_white_space() {
    assert_eq!(split_list(""), vec!["".to_string()]);
    assert_eq!(split_list("a"), vec!["a".to_string()]);
    assert_eq!(
        split_list(" a b ,\tc\u{a0},,d "),
        vec![
            "a b".to_string(),
            "c".to_string(),
            "".to_string(),
            "d".to_string()
        ]
    );
    assert_eq!(split_list(","), vec!["".to_string(), "".to_string()]);
    assert_eq!(split_list("   "), vec!["".to_string()]);
}

#[test]
fn criteria_list() {
    assert_eq!(
        criteria_from_list("opcode, rcode, flags, question, answertypes, answerrrsigs"),
        Ok(vec![
            DiffCriteria::Opcode,
            DiffCriteria::Rcode,
            DiffCriteria::Flags,
            DiffCriteria::Question,
            DiffCriteria::AnswerTypes,
            DiffCriteria::AnswerRrsigs,
        ])
    );
    assert_eq!(
        criteria_from_list("opcode, edns, nsid"),
        Err(Error::UnknownDiffCriteria("edns".to_string()))
    );
    assert_eq!(
        criteria_from_list(""),
        Err(Error::UnknownDiffCriteria("".to_string()))
    );
}

#[test]
fn field_weight_list() {
    assert_eq!(
        field_weights_from_list(
            "timeout, malformed, opcode, question, rcode, flags, answertypes, answerrrsigs, answer, authority, additional, edns, nsid"
        ),
        Ok(vec![
            FieldWeight::Timeout,
            FieldWeight::Malformed,
            FieldWeight::Opcode,
            FieldWeight::Question,
            FieldWeight::Rcode,
            FieldWeight::Flags,
            FieldWeight::AnswerTypes,
            FieldWeight::AnswerRrsigs,
            FieldWeight::Answer,
            FieldWeight::Authority,
            FieldWeight::Additional,
            FieldWeight::Edns,
            FieldWeight::Nsid,
        ])
    );
    assert_eq!(
        field_weights_from_list("timeout,bogus"),
        Err(Error::UnknownFieldWeight("bogus".to_string()))
    );
}
