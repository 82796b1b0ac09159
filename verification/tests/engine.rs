use domain::base::iana::Rcode;
use domain::base::MessageBuilder;
use respdiff::dataformat::{MismatchQueries, Report};
use respdiff::diff_answers::{
    diff_answers, find_others_disagreements, find_target_diffs, indices_to_compare,
    others_disagree, target_diff, target_disagreements_from_diffs, Disagreements,
};
use respdiff::error::Error;
use respdiff::matcher::{Field, Mismatch};
use respdiff::{DiffCriteria, DnsReply, QKey, ServerResponse, ServerResponseList};
use std::collections::BTreeSet;

fn reply(rcode: Rcode) -> ServerResponse {
    let mut msg = MessageBuilder::new_vec().into_message();
    msg.header_mut().set_rcode(rcode);
    ServerResponse::Data(DnsReply::new(0, msg.into_octets()).unwrap())
}

fn noerror() -> ServerResponse {
    reply(Rcode::NoError)
}

fn servfail() -> ServerResponse {
    reply(Rcode::ServFail)
}

fn servers() -> Vec<String> {
    vec!["A".to_string(), "B".to_string(), "T".to_string()]
}

fn list(key: QKey, replies: Vec<ServerResponse>) -> ServerResponseList {
    ServerResponseList { key, replies }
}

fn report_of(lists: &Vec<ServerResponseList>) -> Report {
    let audit = diff_answers(lists, &servers(), "T", &[DiffCriteria::Rcode]).unwrap();
    Report::compose(&audit, 1628173617, 1628174644, 100, lists.len() as u64)
}

fn keys(list: &[QKey]) -> BTreeSet<QKey> {
    list.iter().copied().collect()
}

#[test]
fn all_agree() {
    let lists = vec![
        list(1, vec![noerror(), noerror(), noerror()]),
        list(2, vec![noerror(), noerror(), noerror()]),
    ];
    let report = report_of(&lists);
    assert!(report.others_disagree().is_empty());
    assert!(report.target_disagrees().is_empty());
    assert_eq!(report.start_time, 1628173617);
    assert_eq!(report.end_time, 1628174644);
    assert_eq!(report.total_queries, 100);
    assert_eq!(report.total_answers, 2);
    assert_eq!(report.summary, None);
    assert_eq!(report.reprodata, None);
}

#[test]
fn target_alone_disagrees() {
    let lists = vec![list(7, vec![noerror(), noerror(), servfail()])];
    let report = report_of(&lists);
    assert!(report.others_disagree().is_empty());
    let fields = report.target_disagrees();
    assert_eq!(fields.len(), 1);
    assert_eq!(fields[0].field, Field::Rcode);
    assert_eq!(
        fields[0].mismatches,
        vec![MismatchQueries {
            exp_val: "NOERROR".to_string(),
            got_val: "SERVFAIL".to_string(),
            queries: vec![7],
        }]
    );
}

#[test]
fn others_disagree_among_themselves() {
    let lists = vec![list(7, vec![noerror(), servfail(), servfail()])];
    let report = report_of(&lists);
    assert_eq!(report.others_disagree(), keys(&[7]));
    assert!(report.target_disagrees().is_empty());
}

#[test]
fn timeout_of_another_server_is_a_disagreement() {
    let lists = vec![list(
        9,
        vec![ServerResponse::Timeout, noerror(), noerror()],
    )];
    let pairs = vec![(0, 1)];
    let diff = respdiff::matcher::compare(&lists[0].replies[0], &lists[0].replies[1], &[
        DiffCriteria::Rcode,
    ]);
    assert!(diff.contains(&Mismatch::TimeoutExpected));
    assert!(others_disagree(&lists[0], &pairs, &[DiffCriteria::Rcode]));
    let report = report_of(&lists);
    assert_eq!(report.others_disagree(), keys(&[9]));
    assert!(report.target_disagrees().is_empty());
}

#[test]
fn malformed_target() {
    let lists = vec![list(
        3,
        vec![noerror(), noerror(), ServerResponse::Malformed],
    )];
    let report = report_of(&lists);
    assert!(report.others_disagree().is_empty());
    let fields = report.target_disagrees();
    assert_eq!(fields.len(), 1);
    assert_eq!(fields[0].field, Field::Malformed);
    assert_eq!(
        fields[0].mismatches,
        vec![MismatchQueries {
            exp_val: "answer".to_string(),
            got_val: "malformed".to_string(),
            queries: vec![3],
        }]
    );
}

#[test]
fn outcomes_share_no_query() {
    let lists = vec![
        list(1, vec![noerror(), noerror(), servfail()]),
        list(2, vec![noerror(), servfail(), servfail()]),
        list(3, vec![servfail(), noerror(), noerror()]),
        list(4, vec![noerror(), noerror(), noerror()]),
        list(5, vec![noerror(), noerror(), ServerResponse::Timeout]),
    ];
    let report = report_of(&lists);
    let others = report.others_disagree();
    assert_eq!(others, keys(&[2, 3]));
    let mut counted: Vec<QKey> = Vec::new();
    for part in report.target_disagrees() {
        assert!(!part.mismatches.is_empty());
        for row in &part.mismatches {
            assert!(!row.queries.is_empty());
            for key in &row.queries {
                assert!(!others.contains(key));
                counted.push(*key);
            }
        }
    }
    counted.sort();
    assert_eq!(counted, vec![1, 5]);
    // fields come in their fixed order: timeout before rcode
    let fields: Vec<Field> = report.target_disagrees().iter().map(|p| p.field).collect();
    assert_eq!(fields, vec![Field::Timeout, Field::Rcode]);
}

#[test]
fn queries_of_a_mismatch_come_in_ascending_order() {
    let lists = vec![
        list(30, vec![noerror(), noerror(), servfail()]),
        list(10, vec![noerror(), noerror(), servfail()]),
        list(20, vec![noerror(), noerror(), servfail()]),
    ];
    let report = report_of(&lists);
    let fields = report.target_disagrees();
    assert_eq!(fields.len(), 1);
    assert_eq!(fields[0].mismatches.len(), 1);
    assert_eq!(fields[0].mismatches[0].queries, vec![10, 20, 30]);
}

#[test]
fn two_servers_have_no_others_to_disagree() {
    let servers = vec!["ref".to_string(), "target".to_string()];
    let (pair, others) = indices_to_compare("target", &servers).unwrap();
    assert_eq!(pair, (0, 1));
    assert!(others.is_empty());

    let lists = vec![
        list(1, vec![noerror(), servfail()]),
        list(2, vec![noerror(), noerror()]),
        list(3, vec![ServerResponse::Timeout, noerror()]),
    ];
    let audit = diff_answers(&lists, &servers, "target", &[DiffCriteria::Rcode]).unwrap();
    assert!(audit.others_disagreements.is_empty());
    let entries = audit.target_disagreements.entries();
    assert_eq!(entries.len(), 2);
    assert!(entries[0].mismatch.same(&Mismatch::Rcode(
        Rcode::NoError.to_int(),
        Rcode::ServFail.to_int()
    )));
    assert_eq!(entries[0].queries, keys(&[1]));
    assert!(entries[1].mismatch.same(&Mismatch::TimeoutExpected));
    assert_eq!(entries[1].queries, keys(&[3]));
}

#[test]
fn indices_follow_the_declared_order() {
    let servers = vec![
        "google".to_string(),
        "cloudflare".to_string(),
        "cznic".to_string(),
        "quad9".to_string(),
    ];
    assert_eq!(
        indices_to_compare("cznic", &servers),
        Ok(((0, 2), vec![(0, 1), (1, 3)]))
    );
    assert_eq!(
        indices_to_compare("google", &servers),
        Ok(((1, 0), vec![(1, 2), (2, 3)]))
    );
}

#[test]
fn unknown_target_is_an_invalid_server_name() {
    assert_eq!(
        indices_to_compare("nobody", &servers()),
        Err(Error::InvalidServerName)
    );
    let lists = vec![list(1, vec![noerror(), noerror(), noerror()])];
    assert_eq!(
        diff_answers(&lists, &servers(), "nobody", &[DiffCriteria::Rcode]).err(),
        Some(Error::InvalidServerName)
    );
}

#[test]
fn passes_one_by_one() {
    let lists = vec![
        list(1, vec![noerror(), noerror(), servfail()]),
        list(2, vec![noerror(), servfail(), servfail()]),
        list(3, vec![noerror(), noerror(), noerror()]),
    ];
    let crit = [DiffCriteria::Rcode];
    let (pair, others) = indices_to_compare("T", &servers()).unwrap();
    assert_eq!(find_others_disagreements(&lists, &others, &crit), keys(&[2]));
    let diffs = find_target_diffs(&lists, pair, &crit);
    assert_eq!(diffs.len(), 2);
    assert_eq!(diffs[0].0, 1);
    assert_eq!(diffs[1].0, 2);
    assert!(target_diff(&lists[2], pair, &crit).is_empty());
    let dis = target_disagreements_from_diffs(&diffs, &keys(&[2]));
    assert_eq!(dis.entries().len(), 1);
    assert_eq!(dis.entries()[0].queries, keys(&[1]));
}

#[test]
fn a_mismatch_seen_on_unstable_queries_only_is_not_listed() {
    // the reference and the target differ, but so do the two other servers
    let lists = vec![
        list(1, vec![noerror(), servfail(), servfail()]),
        list(2, vec![noerror(), noerror(), noerror()]),
    ];
    let audit = diff_answers(&lists, &servers(), "T", &[DiffCriteria::Rcode]).unwrap();
    assert_eq!(audit.others_disagreements, keys(&[1]));
    assert!(audit.target_disagreements.entries().is_empty());
    let lists = vec![
        list(1, vec![noerror(), servfail(), servfail()]),
        list(2, vec![noerror(), noerror(), servfail()]),
    ];
    let audit = diff_answers(&lists, &servers(), "T", &[DiffCriteria::Rcode]).unwrap();
    assert_eq!(audit.others_disagreements, keys(&[1]));
    let entries = audit.target_disagreements.entries();
    assert_eq!(entries.len(), 1);
    assert_eq!(entries[0].queries, keys(&[2]));
}

#[test]
fn same_mismatch_is_recorded_once() {
    let mut dis = Disagreements::new();
    dis.record(&Mismatch::TimeoutGot, 5);
    dis.record(&Mismatch::MalformedBoth, 5);
    dis.record(&Mismatch::TimeoutGot, 2);
    dis.record(&Mismatch::TimeoutGot, 5);
    let entries = dis.entries();
    assert_eq!(entries.len(), 2);
    assert!(entries[0].mismatch.same(&Mismatch::TimeoutGot));
    assert_eq!(entries[0].queries, keys(&[2, 5]));
    assert!(entries[1].mismatch.same(&Mismatch::MalformedBoth));
    assert_eq!(entries[1].queries, keys(&[5]));
}

#[test]
fn report_starts_empty() {
    let mut report = Report::new();
    assert_eq!(report.start_time, 0);
    assert_eq!(report.end_time, 0);
    assert_eq!(report.total_queries, 0);
    assert_eq!(report.total_answers, 0);
    assert!(report.others_disagree().is_empty());
    assert!(report.target_disagrees().is_empty());
    assert_eq!(report.summary, None);
    assert_eq!(report.reprodata, None);
    report.set_others_disagree(&keys(&[22, 64, 93]));
    assert_eq!(report.others_disagree(), keys(&[22, 64, 93]));
    assert!(report.target_disagrees().is_empty());

    let mut dis = Disagreements::new();
    dis.record(&Mismatch::Rcode(0, 2), 16);
    dis.record(&Mismatch::Flags(flags(true), flags(false)), 32);
    dis.record(&Mismatch::Rcode(3, 2), 43);
    dis.record(&Mismatch::Rcode(0, 2), 6);
    report.set_target_disagrees(&dis);
    assert_eq!(report.others_disagree(), keys(&[22, 64, 93]));
    let fields = report.target_disagrees();
    assert_eq!(fields.len(), 2);
    assert_eq!(fields[0].field, Field::Rcode);
    assert_eq!(
        fields[0].mismatches,
        vec![
            MismatchQueries {
                exp_val: "NOERROR".to_string(),
                got_val: "SERVFAIL".to_string(),
                queries: vec![6, 16],
            },
            MismatchQueries {
                exp_val: "NXDOMAIN".to_string(),
                got_val: "SERVFAIL".to_string(),
                queries: vec![43],
            },
        ]
    );
    assert_eq!(fields[1].field, Field::Flags);
    assert_eq!(
        fields[1].mismatches,
        vec![MismatchQueries {
            exp_val: "QR RD RA AD".to_string(),
            got_val: "QR RD RA".to_string(),
            queries: vec![32],
        }]
    );
}

fn flags(ad: bool) -> respdiff::wire::Flags {
    respdiff::wire::Flags {
        qr: true,
        aa: false,
        tc: false,
        rd: true,
        ra: true,
        ad,
        cd: false,
    }
}
