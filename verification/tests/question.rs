use domain::base::iana::{Class, Rtype};
use domain::base::{Dname, MessageBuilder};
use respdiff::matcher::{compare_questions, questions};
use respdiff::matcher::{Field, Mismatch, MismatchSet};
use respdiff::question::Question;
use respdiff::wire::ParseError;
use domain::rdata::{Rrsig, A};
use respdiff::{covered_from_records, rtypes_from_records, DnsReply};
use std::collections::BTreeSet;

fn name(text: &str) -> Vec<u8> {
    Dname::vec_from_str(text).unwrap().into_octets()
}

#[test]
fn names_must_be_absolute() {
    assert!(Question::new(vec![0], 1, 1).is_some());
    assert!(Question::new(name("example.com."), 1, 1).is_some());
    assert!(Question::new(vec![], 1, 1).is_none());
    assert!(Question::new(vec![3, b'c', b'o', b'm'], 1, 1).is_none());
    assert!(Question::new(vec![0, 0], 1, 1).is_none());
    assert!(Question::new(vec![64, 0], 1, 1).is_none());
    assert!(Question::new(vec![0xc0, 0x0c], 1, 1).is_none());
    let mut long = Vec::new();
    for _ in 0..4 {
        long.push(63);
        long.extend_from_slice(&[b'a'; 63]);
    }
    long.push(0);
    assert_eq!(long.len(), 257);
    assert!(Question::new(long, 1, 1).is_none());
}

#[test]
fn questions_and_their_parts() {
    let q = Question::new(name("Example.com."), Rtype::Aaaa.to_int(), Class::In.to_int()).unwrap();
    assert_eq!(q.qname(), &name("Example.com."));
    assert_eq!(q.qtype(), 28);
    assert_eq!(q.qclass(), 1);
    assert_eq!(q.to_string(), "Example.com.\tAAAA\tIN");
    let lower = Question::new(name("example.COM."), 28, 1).unwrap();
    assert!(q.same(&lower));
    assert!(lower.same(&q));
    assert!(q.same(&q.duplicate()));
    assert!(!q.same(&Question::new(name("example.com."), 1, 1).unwrap()));
    assert!(!q.same(&Question::new(name("example.com."), 28, 3).unwrap()));
    assert!(!q.same(&Question::new(name("example.org."), 28, 1).unwrap()));
    assert!(!q.same(&Question::new(name("com."), 28, 1).unwrap()));
}

#[test]
fn questions_of_a_reply() {
    let mut msg = MessageBuilder::new_vec().question();
    msg.push(domain::base::Question::new_in(
        Dname::vec_from_str("test.").unwrap(),
        Rtype::A,
    ))
    .unwrap();
    msg.push(domain::base::Question::new_in(Dname::root_vec(), Rtype::Ns))
        .unwrap();
    let reply = DnsReply::new(0, msg.into_message().into_octets()).unwrap();
    let found = questions(&reply);
    assert_eq!(found.len(), 2);
    assert!(found[0]
        .as_ref()
        .unwrap()
        .same(&Question::new(name("test."), 1, 1).unwrap()));
    assert!(found[1]
        .as_ref()
        .unwrap()
        .same(&Question::new(vec![0], 2, 1).unwrap()));

    // one question is announced, none is there
    let mut wire = vec![0u8; 12];
    wire[5] = 1;
    let broken = DnsReply::new(0, wire).unwrap();
    let found = questions(&broken);
    assert_eq!(found.len(), 1);
    assert!(found[0].is_none());
}

#[test]
fn question_sections_compared() {
    let a = Question::new(name("test."), 1, 1).unwrap();
    let b = Question::new(name("test."), 28, 1).unwrap();
    let one = vec![Some(a.clone())];
    let other = vec![Some(b.clone())];
    let none: Vec<Option<Question>> = vec![];
    let two = vec![Some(a.clone()), Some(b.clone())];
    let broken: Vec<Option<Question>> = vec![None];

    assert!(compare_questions(&one, &one).is_none());
    assert!(compare_questions(&one, &other)
        .unwrap()
        .same(&Mismatch::Question(a.clone(), b.clone())));
    assert!(compare_questions(&none, &one)
        .unwrap()
        .same(&Mismatch::QuestionCount));
    assert!(compare_questions(&one, &two)
        .unwrap()
        .same(&Mismatch::QuestionCount));
    // the counts come first, on both sides
    assert!(compare_questions(&broken, &two)
        .unwrap()
        .same(&Mismatch::QuestionCount));
    assert!(compare_questions(&broken, &none)
        .unwrap()
        .same(&Mismatch::QuestionCount));
    assert!(compare_questions(&two, &broken)
        .unwrap()
        .same(&Mismatch::QuestionCount));
    // then the parse, the expected side before the other
    assert!(compare_questions(&broken, &one)
        .unwrap()
        .same(&Mismatch::MalformedExpected));
    assert!(compare_questions(&broken, &broken)
        .unwrap()
        .same(&Mismatch::MalformedExpected));
    assert!(compare_questions(&one, &broken)
        .unwrap()
        .same(&Mismatch::MalformedGot));
}

#[test]
fn answer_sections() {
    let mut msg = MessageBuilder::new_vec().answer();
    msg.push((Dname::root_ref(), 86400, A::from_octets(192, 0, 2, 1)))
        .unwrap();
    msg.push((Dname::root_ref(), 86400, A::from_octets(192, 0, 2, 2)))
        .unwrap();
    msg.push((
        Dname::root_ref(),
        86400,
        Rrsig::new(
            Rtype::A,
            domain::base::iana::secalg::SecAlg::EcdsaP384Sha384,
            1,
            1,
            domain::base::serial::Serial::from(1),
            domain::base::serial::Serial::from(2),
            1,
            Dname::root_ref(),
            &[0],
        ),
    ))
    .unwrap();
    let reply = DnsReply::new(0, msg.into_message().into_octets()).unwrap();
    let a: BTreeSet<u16> = [1u16].into_iter().collect();
    assert_eq!(reply.answer_rtypes(), Ok(a.clone()));
    assert_eq!(reply.answer_rrsig_covered(), Ok(a));

    // an RRSIG whose data is cut short: a record, but no signature
    let mut wire = vec![0u8; 12];
    wire[7] = 1;
    wire.extend_from_slice(&[0, 0, 46, 0, 1, 0, 0, 0, 0, 0, 2, 0, 1]);
    let cut = DnsReply::new(0, wire).unwrap();
    assert_eq!(cut.answer_rtypes(), Ok(BTreeSet::new()));
    assert_eq!(cut.answer_rrsig_covered(), Err(ParseError));

    // an answer is announced, none is there
    let mut wire = vec![0u8; 12];
    wire[7] = 1;
    let broken = DnsReply::new(0, wire).unwrap();
    assert_eq!(broken.answer_rtypes(), Err(ParseError));
    assert_eq!(broken.answer_rrsig_covered(), Err(ParseError));
}

#[test]
fn walks_over_answers() {
    let types = Some(vec![Some(1u16), Some(46), Some(28), Some(1)]);
    let found: BTreeSet<u16> = [1u16, 28].into_iter().collect();
    assert_eq!(rtypes_from_records(&types), Ok(found));
    assert_eq!(rtypes_from_records(&None), Err(ParseError));
    assert_eq!(
        rtypes_from_records(&Some(vec![Some(1), None])),
        Err(ParseError)
    );
    assert_eq!(rtypes_from_records(&Some(vec![])), Ok(BTreeSet::new()));

    let sigs = Some(vec![Some(None), Some(Some(16u16)), Some(Some(1)), Some(None)]);
    let covered: BTreeSet<u16> = [1u16, 16].into_iter().collect();
    assert_eq!(covered_from_records(&sigs), Ok(covered));
    assert_eq!(covered_from_records(&None), Err(ParseError));
    assert_eq!(
        covered_from_records(&Some(vec![Some(Some(1)), None])),
        Err(ParseError)
    );
}

#[test]
fn fields_of_mismatches() {
    let q = Question::new(vec![0], 1, 1).unwrap();
    let none: BTreeSet<u16> = BTreeSet::new();
    assert_eq!(Mismatch::TimeoutExpected.field(), Field::Timeout);
    assert_eq!(Mismatch::TimeoutGot.field(), Field::Timeout);
    assert_eq!(Mismatch::MalformedExpected.field(), Field::Malformed);
    assert_eq!(Mismatch::MalformedGot.field(), Field::Malformed);
    assert_eq!(Mismatch::MalformedBoth.field(), Field::Malformed);
    assert_eq!(Mismatch::QuestionCount.field(), Field::Question);
    assert_eq!(Mismatch::Question(q.clone(), q).field(), Field::Question);
    assert_eq!(Mismatch::Opcode(0, 1).field(), Field::Opcode);
    assert_eq!(Mismatch::Rcode(0, 1).field(), Field::Rcode);
    assert_eq!(
        Mismatch::AnswerTypes(none.clone(), none.clone()).field(),
        Field::AnswerTypes
    );
    assert_eq!(
        Mismatch::AnswerRrsigs(none.clone(), none).field(),
        Field::AnswerRrsigs
    );
    assert!(Field::Timeout < Field::Malformed);
    assert!(Field::Question < Field::AnswerTypes);
}

#[test]
fn sets_hold_each_mismatch_once() {
    let mut set = MismatchSet::new();
    assert!(set.is_empty());
    assert!(set.insert(Mismatch::Opcode(0, 2)));
    assert!(set.insert(Mismatch::Rcode(0, 2)));
    assert!(!set.insert(Mismatch::Opcode(0, 2)));
    assert_eq!(set.len(), 2);
    assert!(set.contains(&Mismatch::Rcode(0, 2)));
    assert!(!set.contains(&Mismatch::Rcode(2, 0)));
    assert_eq!(set.items().len(), 2);
    let upper = Question::new(name("A."), 1, 1).unwrap();
    let lower = Question::new(name("a."), 1, 1).unwrap();
    let other = Question::new(vec![0], 1, 1).unwrap();
    assert!(set.insert(Mismatch::Question(upper.clone(), other.clone())));
    assert!(!set.insert(Mismatch::Question(lower, other)));
    assert_eq!(set.len(), 3);
    assert_eq!(
        set.items()[2].expected(),
        upper.to_string()
    );
}
