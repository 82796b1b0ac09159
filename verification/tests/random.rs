use respdiff::matcher::{compare, questions, Mismatch};
use respdiff::{DiffCriteria, DnsReply, ServerResponse, ServerResponseList};

/// A small generator of numbers that look random and are the same on every run.
struct Numbers(u64);

impl Numbers {
    fn next(&mut self) -> u64 {
        self.0 = self
            .0
            .wrapping_mul(6364136223846793005)
            .wrapping_add(1442695040888963407);
        self.0 >> 33
    }

    fn below(&mut self, n: u64) -> u64 {
        self.next() % n
    }

    /// Octets that may pass for a DNS message: a header that announces
    /// few questions and answers, and after it names, pointers and noise.
    fn message(&mut self) -> Vec<u8> {
        let len = 12 + self.below(60) as usize;
        let mut wire: Vec<u8> = (0..len).map(|_| self.below(256) as u8).collect();
        wire[4] = 0;
        wire[5] = self.below(3) as u8;
        wire[6] = 0;
        wire[7] = self.below(3) as u8;
        for at in 12..len {
            match self.below(6) {
                0 => wire[at] = 0,
                1 => wire[at] = self.below(4) as u8,
                2 => wire[at] = 0xc0,
                3 => wire[at] = 12 + self.below(8) as u8,
                4 => wire[at] = 46,
                _ => {}
            }
        }
        wire
    }

    fn response(&mut self) -> ServerResponse {
        match self.below(8) {
            0 => ServerResponse::Timeout,
            1 => ServerResponse::Malformed,
            _ => ServerResponse::Data(DnsReply::new(self.below(1000), self.message()).unwrap()),
        }
    }
}

fn all_criteria() -> Vec<DiffCriteria> {
    vec![
        DiffCriteria::Opcode,
        DiffCriteria::Rcode,
        DiffCriteria::Flags,
        DiffCriteria::Question,
        DiffCriteria::AnswerTypes,
        DiffCriteria::AnswerRrsigs,
    ]
}

#[test]
fn any_octets_can_be_compared() {
    let mut numbers = Numbers(1);
    let criteria = all_criteria();
    let mut differing = 0;
    let mut parsed = 0;
    for _ in 0..3000 {
        let a = numbers.response();
        let b = numbers.response();
        let ab = compare(&a, &b, &criteria);
        let ba = compare(&b, &a, &criteria);
        assert_eq!(ab.is_empty(), ba.is_empty());
        assert!(ab.len() <= criteria.len());
        for m in ab.items() {
            let _ = (m.expected(), m.got(), m.to_string(), m.field());
        }
        if !ab.is_empty() {
            differing += 1;
        }
        if let ServerResponse::Data(reply) = &a {
            let found = questions(reply);
            for q in found.iter().flatten() {
                parsed += 1;
                assert!(q.same(q));
                let _ = q.to_string();
            }
            let aa = compare(&a, &a, &criteria);
            for m in aa.items() {
                assert!(
                    *m == Mismatch::QuestionCount || *m == Mismatch::MalformedExpected,
                    "{:?}",
                    m
                );
            }
            let _ = (reply.answer_rtypes(), reply.answer_rrsig_covered());
        }
    }
    assert!(differing > 0);
    assert!(parsed > 0);
}

#[test]
fn any_value_decodes_or_is_refused() {
    let mut numbers = Numbers(2);
    let key = [1u8, 0, 0, 0];
    let mut read = 0;
    for _ in 0..3000 {
        let mut value: Vec<u8> = Vec::new();
        for _ in 0..numbers.below(4) {
            match numbers.below(4) {
                0 => value.extend_from_slice(&[0xff, 0xff, 0xff, 0xff, 0, 0]),
                1 => {
                    let wire = numbers.message();
                    value.extend_from_slice(&(numbers.below(100) as u32).to_le_bytes());
                    value.extend_from_slice(&(wire.len() as u16).to_le_bytes());
                    value.extend_from_slice(&wire);
                }
                2 => {
                    let n = numbers.below(8) as usize;
                    value.extend_from_slice(&[0, 0, 0, 0, n as u8, 0]);
                    value.extend(std::iter::repeat(7u8).take(n));
                }
                _ => value.push(numbers.below(256) as u8),
            }
        }
        if let Ok(list) = ServerResponseList::try_from((&key[..], value.as_slice())) {
            read += 1;
            assert_eq!(list.key, 1);
            match list.encode() {
                Some(again) => assert_eq!(again, value),
                None => assert!(list.replies.contains(&ServerResponse::Malformed)),
            }
        }
    }
    assert!(read > 0);
}
