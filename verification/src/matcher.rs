//! Logic for comparing DNS messages.

use vstd::prelude::*;
use vstd::std_specs::cmp::PartialEqSpecImpl;
use vstd::std_specs::convert::FromSpecImpl;
use vstd::string::*;
use std::collections::BTreeSet;
use crate::question::{Question, QuestionView};
use crate::sets::{ascending_of, equal_u16, lemma_ascending_of, sorted_u16};
use crate::question::fold_case;
use crate::wire::{
    answer_covered, answer_types, flag_words, flags_of, flags_str, header_flags, header_opcode,
    header_rcode, join_words, opcode_of, opcode_str, opcode_text, question_items, question_section,
    rcode_of, rcode_str, rcode_text, rtype_str, rtype_text, texts, Flags,
};
use crate::{covered_of, rtypes_of, DiffCriteria, DnsReply, ResponseView, ServerResponse};

pub mod laws;
pub mod set;

pub use set::{views, MismatchSet};

verus! {

/// The part of a response in which a mismatch was found.
#[derive(Debug, PartialEq, Eq, PartialOrd, Ord, Copy, Clone, Hash, Structural)]
pub enum Field {
    Timeout,
    Malformed,
    Opcode,
    Rcode,
    Flags,
    Question,
    AnswerTypes,
    AnswerRrsigs,
}

/// A difference between the response that was expected and the one that
/// was got, with the two values where the field has any.
#[derive(Debug)]
pub enum Mismatch {
    TimeoutExpected,
    TimeoutGot,
    MalformedExpected,
    MalformedGot,
    MalformedBoth,
    /// Opcodes, by their numbers.
    Opcode(u8, u8),
    /// Response codes, by their numbers.
    Rcode(u8, u8),
    Flags(Flags, Flags),
    QuestionCount,
    Question(Question, Question),
    /// Sets of record types, by their numbers.
    AnswerTypes(BTreeSet<u16>, BTreeSet<u16>),
    /// Sets of covered record types, by their numbers.
    AnswerRrsigs(BTreeSet<u16>, BTreeSet<u16>),
}

/// What identifies a [`Mismatch`]: two mismatches with the same view are
/// the same mismatch.
pub enum MismatchView {
    TimeoutExpected,
    TimeoutGot,
    MalformedExpected,
    MalformedGot,
    MalformedBoth,
    Opcode(u8, u8),
    Rcode(u8, u8),
    Flags(Flags, Flags),
    QuestionCount,
    Question(QuestionView, QuestionView),
    AnswerTypes(Set<u16>, Set<u16>),
    AnswerRrsigs(Set<u16>, Set<u16>),
}

impl View for Mismatch {
    type V = MismatchView;

    open spec fn view(&self) -> MismatchView {
        match self {
            Mismatch::TimeoutExpected => MismatchView::TimeoutExpected,
            Mismatch::TimeoutGot => MismatchView::TimeoutGot,
            Mismatch::MalformedExpected => MismatchView::MalformedExpected,
            Mismatch::MalformedGot => MismatchView::MalformedGot,
            Mismatch::MalformedBoth => MismatchView::MalformedBoth,
            Mismatch::Opcode(e, g) => MismatchView::Opcode(*e, *g),
            Mismatch::Rcode(e, g) => MismatchView::Rcode(*e, *g),
            Mismatch::Flags(e, g) => MismatchView::Flags(*e, *g),
            Mismatch::QuestionCount => MismatchView::QuestionCount,
            Mismatch::Question(e, g) => MismatchView::Question(e@, g@),
            Mismatch::AnswerTypes(e, g) => MismatchView::AnswerTypes(e@, g@),
            Mismatch::AnswerRrsigs(e, g) => MismatchView::AnswerRrsigs(e@, g@),
        }
    }
}

impl MismatchView {
    /// The field that a mismatch belongs to.
    pub open spec fn field(self) -> Field {
        match self {
            MismatchView::TimeoutExpected => Field::Timeout,
            MismatchView::TimeoutGot => Field::Timeout,
            MismatchView::MalformedExpected => Field::Malformed,
            MismatchView::MalformedGot => Field::Malformed,
            MismatchView::MalformedBoth => Field::Malformed,
            MismatchView::QuestionCount => Field::Question,
            MismatchView::AnswerTypes(_, _) => Field::AnswerTypes,
            MismatchView::AnswerRrsigs(_, _) => Field::AnswerRrsigs,
            MismatchView::Opcode(_, _) => Field::Opcode,
            MismatchView::Rcode(_, _) => Field::Rcode,
            MismatchView::Flags(_, _) => Field::Flags,
            MismatchView::Question(_, _) => Field::Question,
        }
    }
}

/// The name of each record type, in the order given.
pub open spec fn rtype_words(types: Seq<u16>) -> Seq<Seq<char>> {
    types.map_values(|t: u16| rtype_text(t))
}

/// `RRSIG(` name `)` for each record type, in the order given.
pub open spec fn rrsig_words(types: Seq<u16>) -> Seq<Seq<char>> {
    types.map_values(|t: u16| "RRSIG("@ + rtype_text(t) + ")"@)
}

/// The names of the record types of a set, in ascending order of their
/// numbers, with spaces between.
pub open spec fn answertypes_text(types: Set<u16>) -> Seq<char> {
    join_words(rtype_words(ascending_of(types)))
}

/// `RRSIG(` name `)` for the record types of a set, in ascending order of
/// their numbers, with spaces between.
pub open spec fn answerrrsigs_text(types: Set<u16>) -> Seq<char> {
    join_words(rrsig_words(ascending_of(types)))
}

/// `words` with a single space between neighbours.
pub fn join(words: &Vec<String>) -> (r: String)
    ensures
        r@ == join_words(texts(words@)),
{
    let mut out = String::new();
    let mut i: usize = 0;
    while i < words.len()
        invariant
            i <= words.len(),
            out@ == join_words(texts(words@).take(i as int)),
        decreases words.len() - i,
    {
        let ghost before = texts(words@).take(i as int);
        let ghost after = texts(words@).take(i + 1);
        if i > 0 {
            out.append(" ");
        }
        out.append(words[i].as_str());
        proof {
            reveal_strlit(" ");
            assert(after.drop_last() == before);
        }
        i += 1;
    }
    assert(texts(words@).take(i as int) == texts(words@));
    out
}

/// The names of the record types of `types`, separated by spaces.
pub fn answertypes_str(types: &BTreeSet<u16>) -> (r: String)
    ensures
        r@ == answertypes_text(types@),
{
    let sorted = sorted_u16(types);
    let mut words: Vec<String> = Vec::new();
    let mut i: usize = 0;
    while i < sorted.len()
        invariant
            i <= sorted.len(),
            texts(words@) == rtype_words(sorted@.take(i as int)),
        decreases sorted.len() - i,
    {
        let ghost before = words@;
        let word = rtype_str(sorted[i]);
        words.push(word);
        proof {
            assert(texts(before.push(word)) =~= texts(before).push(word@));
        }
        i += 1;
    }
    proof {
        assert(sorted@.take(i as int) == sorted@);
        lemma_ascending_of(sorted@);
    }
    join(&words)
}

/// `RRSIG(` name `)` for the record types of `types`, separated by spaces.
pub fn answerrrsigs_str(types: &BTreeSet<u16>) -> (r: String)
    ensures
        r@ == answerrrsigs_text(types@),
{
    let sorted = sorted_u16(types);
    let mut words: Vec<String> = Vec::new();
    let mut i: usize = 0;
    while i < sorted.len()
        invariant
            i <= sorted.len(),
            texts(words@) == rrsig_words(sorted@.take(i as int)),
        decreases sorted.len() - i,
    {
        let mut word = String::from_str("RRSIG(");
        word.append(rtype_str(sorted[i]).as_str());
        word.append(")");
        let ghost before = words@;
        words.push(word);
        proof {
            assert(texts(before.push(word)) =~= texts(before).push(word@));
        }
        i += 1;
    }
    proof {
        assert(sorted@.take(i as int) == sorted@);
        lemma_ascending_of(sorted@);
    }
    join(&words)
}

impl Mismatch {
    /// The text that presents what was expected.
    pub open spec fn expected_text(&self) -> Seq<char> {
        match self {
            Mismatch::TimeoutExpected => "timeout"@,
            Mismatch::TimeoutGot => "answer"@,
            Mismatch::MalformedExpected => "malformed"@,
            Mismatch::MalformedGot => "answer"@,
            Mismatch::MalformedBoth => "malformed"@,
            Mismatch::QuestionCount => "question"@,
            Mismatch::AnswerTypes(exp, _) => answertypes_text(exp@),
            Mismatch::AnswerRrsigs(exp, _) => answerrrsigs_text(exp@),
            Mismatch::Opcode(exp, _) => opcode_text(*exp),
            Mismatch::Rcode(exp, _) => rcode_text(*exp),
            Mismatch::Flags(exp, _) => join_words(flag_words(*exp)),
            Mismatch::Question(exp, _) => exp.text(),
        }
    }

    /// The text that presents what was got.
    pub open spec fn got_text(&self) -> Seq<char> {
        match self {
            Mismatch::TimeoutExpected => "answer"@,
            Mismatch::TimeoutGot => "timeout"@,
            Mismatch::MalformedExpected => "answer"@,
            Mismatch::MalformedGot => "malformed"@,
            Mismatch::MalformedBoth => "malformed"@,
            Mismatch::QuestionCount => "questions"@,
            Mismatch::AnswerTypes(_, got) => answertypes_text(got@),
            Mismatch::AnswerRrsigs(_, got) => answerrrsigs_text(got@),
            Mismatch::Opcode(_, got) => opcode_text(*got),
            Mismatch::Rcode(_, got) => rcode_text(*got),
            Mismatch::Flags(_, got) => join_words(flag_words(*got)),
            Mismatch::Question(_, got) => got.text(),
        }
    }

    /// What was expected, as text for a report.
    pub fn expected(&self) -> (r: String)
        ensures
            r@ == self.expected_text(),
    {
        match self {
            Mismatch::TimeoutExpected => String::from_str("timeout"),
            Mismatch::TimeoutGot => String::from_str("answer"),
            Mismatch::MalformedExpected => String::from_str("malformed"),
            Mismatch::MalformedGot => String::from_str("answer"),
            Mismatch::MalformedBoth => String::from_str("malformed"),
            Mismatch::QuestionCount => String::from_str("question"),
            Mismatch::AnswerTypes(exp, _) => answertypes_str(exp),
            Mismatch::AnswerRrsigs(exp, _) => answerrrsigs_str(exp),
            Mismatch::Opcode(exp, _) => opcode_str(*exp),
            Mismatch::Rcode(exp, _) => rcode_str(*exp),
            Mismatch::Flags(exp, _) => flags_str(*exp),
            Mismatch::Question(exp, _) => exp.to_string(),
        }
    }

    /// What was got, as text for a report.
    pub fn got(&self) -> (r: String)
        ensures
            r@ == self.got_text(),
    {
        match self {
            Mismatch::TimeoutExpected => String::from_str("answer"),
            Mismatch::TimeoutGot => String::from_str("timeout"),
            Mismatch::MalformedExpected => String::from_str("answer"),
            Mismatch::MalformedGot => String::from_str("malformed"),
            Mismatch::MalformedBoth => String::from_str("malformed"),
            Mismatch::QuestionCount => String::from_str("questions"),
            Mismatch::AnswerTypes(_, got) => answertypes_str(got),
            Mismatch::AnswerRrsigs(_, got) => answerrrsigs_str(got),
            Mismatch::Opcode(_, got) => opcode_str(*got),
            Mismatch::Rcode(_, got) => rcode_str(*got),
            Mismatch::Flags(_, got) => flags_str(*got),
            Mismatch::Question(_, got) => got.to_string(),
        }
    }

    /// The mismatch as one line: what was expected, ` != `, what was got.
    pub fn to_string(&self) -> (r: String)
        ensures
            r@ == self.expected_text() + " != "@ + self.got_text(),
    {
        let mut out = self.expected();
        out.append(" != ");
        out.append(self.got().as_str());
        out
    }

    /// The field that the mismatch belongs to.
    pub fn field(&self) -> (r: Field)
        ensures
            r == self@.field(),
    {
        match self {
            Mismatch::TimeoutExpected => Field::Timeout,
            Mismatch::TimeoutGot => Field::Timeout,
            Mismatch::MalformedExpected => Field::Malformed,
            Mismatch::MalformedGot => Field::Malformed,
            Mismatch::MalformedBoth => Field::Malformed,
            Mismatch::QuestionCount => Field::Question,
            Mismatch::AnswerTypes(_, _) => Field::AnswerTypes,
            Mismatch::AnswerRrsigs(_, _) => Field::AnswerRrsigs,
            Mismatch::Opcode(_, _) => Field::Opcode,
            Mismatch::Rcode(_, _) => Field::Rcode,
            Mismatch::Flags(_, _) => Field::Flags,
            Mismatch::Question(_, _) => Field::Question,
        }
    }

    /// Whether two mismatches are the same mismatch.
    pub fn same(&self, other: &Mismatch) -> (r: bool)
        ensures
            r == (self@ == other@),
    {
        match (self, other) {
            (Mismatch::TimeoutExpected, Mismatch::TimeoutExpected) => true,
            (Mismatch::TimeoutGot, Mismatch::TimeoutGot) => true,
            (Mismatch::MalformedExpected, Mismatch::MalformedExpected) => true,
            (Mismatch::MalformedGot, Mismatch::MalformedGot) => true,
            (Mismatch::MalformedBoth, Mismatch::MalformedBoth) => true,
            (Mismatch::QuestionCount, Mismatch::QuestionCount) => true,
            (Mismatch::Opcode(e1, g1), Mismatch::Opcode(e2, g2)) => *e1 == *e2 && *g1 == *g2,
            (Mismatch::Rcode(e1, g1), Mismatch::Rcode(e2, g2)) => *e1 == *e2 && *g1 == *g2,
            (Mismatch::Flags(e1, g1), Mismatch::Flags(e2, g2)) => *e1 == *e2 && *g1 == *g2,
            (Mismatch::Question(e1, g1), Mismatch::Question(e2, g2)) => e1.same(e2) && g1.same(g2),
            (Mismatch::AnswerTypes(e1, g1), Mismatch::AnswerTypes(e2, g2)) => equal_u16(e1, e2)
                && equal_u16(g1, g2),
            (Mismatch::AnswerRrsigs(e1, g1), Mismatch::AnswerRrsigs(e2, g2)) => equal_u16(e1, e2)
                && equal_u16(g1, g2),
            _ => false,
        }
    }

    /// A copy of the mismatch.
    pub fn duplicate(&self) -> (r: Mismatch)
        ensures
            r@ == self@,
            r.expected_text() == self.expected_text(),
            r.got_text() == self.got_text(),
    {
        match self {
            Mismatch::TimeoutExpected => Mismatch::TimeoutExpected,
            Mismatch::TimeoutGot => Mismatch::TimeoutGot,
            Mismatch::MalformedExpected => Mismatch::MalformedExpected,
            Mismatch::MalformedGot => Mismatch::MalformedGot,
            Mismatch::MalformedBoth => Mismatch::MalformedBoth,
            Mismatch::QuestionCount => Mismatch::QuestionCount,
            Mismatch::Opcode(e, g) => Mismatch::Opcode(*e, *g),
            Mismatch::Rcode(e, g) => Mismatch::Rcode(*e, *g),
            Mismatch::Flags(e, g) => Mismatch::Flags(*e, *g),
            Mismatch::Question(e, g) => Mismatch::Question(e.duplicate(), g.duplicate()),
            Mismatch::AnswerTypes(e, g) => Mismatch::AnswerTypes(e.clone(), g.clone()),
            Mismatch::AnswerRrsigs(e, g) => Mismatch::AnswerRrsigs(e.clone(), g.clone()),
        }
    }
}

impl From<&Mismatch> for Field {
    fn from(mismatch: &Mismatch) -> (r: Field) {
        mismatch.field()
    }
}

impl FromSpecImpl<&Mismatch> for Field {
    open spec fn obeys_from_spec() -> bool {
        true
    }

    open spec fn from_spec(mismatch: &Mismatch) -> Field {
        mismatch@.field()
    }
}

impl PartialEq for Mismatch {
    fn eq(&self, other: &Mismatch) -> (r: bool) {
        self.same(other)
    }
}

impl PartialEqSpecImpl for Mismatch {
    open spec fn obeys_eq_spec() -> bool {
        true
    }

    open spec fn eq_spec(&self, other: &Mismatch) -> bool {
        self@ == other@
    }
}

impl Eq for Mismatch {

}

impl Clone for Mismatch {
    fn clone(&self) -> (r: Self)
        ensures
            r@ == self@,
    {
        self.duplicate()
    }
}

// ----- One criterion --------

/// What identifies the question that a step of the walk over a question
/// section gave.
pub open spec fn question_view(item: (Seq<u8>, u16, u16)) -> QuestionView {
    QuestionView { qname: fold_case(item.0), qtype: item.1, qclass: item.2 }
}

/// The questions of a section by what identifies them, `None` for a step that failed.
pub open spec fn question_views(items: Seq<Option<(Seq<u8>, u16, u16)>>) -> Seq<Option<QuestionView>> {
    items.map_values(
        |item: Option<(Seq<u8>, u16, u16)>|
            match item {
                Some(q) => Some(question_view(q)),
                None => None,
            },
    )
}

/// The questions of a list by what identifies them.
pub open spec fn parsed_views(items: Seq<Option<Question>>) -> Seq<Option<QuestionView>> {
    items.map_values(
        |item: Option<Question>|
            match item {
                Some(q) => Some(q@),
                None => None,
            },
    )
}

/// What the question criterion finds between two question sections. Each
/// must hold exactly one question: the counts are judged first, on both
/// sides. Then the one question must parse, on the expected side and on the
/// side that was got; two questions that parse are compared.
pub open spec fn question_mismatch(
    expected: Seq<Option<QuestionView>>,
    got: Seq<Option<QuestionView>>,
) -> Option<MismatchView> {
    if expected.len() != 1 || got.len() != 1 {
        Some(MismatchView::QuestionCount)
    } else if expected[0] is None {
        Some(MismatchView::MalformedExpected)
    } else if got[0] is None {
        Some(MismatchView::MalformedGot)
    } else if expected[0].unwrap() != got[0].unwrap() {
        Some(MismatchView::Question(expected[0].unwrap(), got[0].unwrap()))
    } else {
        None
    }
}

/// What the answer-types criterion finds between the record types of two
/// answer sections, `None` standing for a section that did not parse.
pub open spec fn types_mismatch(expected: Option<Set<u16>>, got: Option<Set<u16>>) -> Option<
    MismatchView,
> {
    match expected {
        None => Some(MismatchView::MalformedExpected),
        Some(e) => match got {
            None => Some(MismatchView::MalformedGot),
            Some(g) => if e != g {
                Some(MismatchView::AnswerTypes(e, g))
            } else {
                None
            },
        },
    }
}

/// What the answer-signatures criterion finds between the covered types of
/// two answer sections, `None` standing for a section that did not parse.
pub open spec fn rrsigs_mismatch(expected: Option<Set<u16>>, got: Option<Set<u16>>) -> Option<
    MismatchView,
> {
    match expected {
        None => Some(MismatchView::MalformedExpected),
        Some(e) => match got {
            None => Some(MismatchView::MalformedGot),
            Some(g) => if e != g {
                Some(MismatchView::AnswerRrsigs(e, g))
            } else {
                None
            },
        },
    }
}

/// What one criterion finds between two DNS messages, given by their octets.
pub open spec fn criterion_mismatch(criterion: DiffCriteria, expected: Seq<u8>, got: Seq<u8>)
    -> Option<MismatchView> {
    match criterion {
        DiffCriteria::Opcode => if opcode_of(expected) != opcode_of(got) {
            Some(MismatchView::Opcode(opcode_of(expected), opcode_of(got)))
        } else {
            None
        },
        DiffCriteria::Rcode => if rcode_of(expected) != rcode_of(got) {
            Some(MismatchView::Rcode(rcode_of(expected), rcode_of(got)))
        } else {
            None
        },
        DiffCriteria::Flags => if flags_of(expected) != flags_of(got) {
            Some(MismatchView::Flags(flags_of(expected), flags_of(got)))
        } else {
            None
        },
        DiffCriteria::Question => question_mismatch(
            question_views(question_items(expected)),
            question_views(question_items(got)),
        ),
        DiffCriteria::AnswerTypes => types_mismatch(
            rtypes_of(answer_types(expected)),
            rtypes_of(answer_types(got)),
        ),
        DiffCriteria::AnswerRrsigs => rrsigs_mismatch(
            covered_of(answer_covered(expected)),
            covered_of(answer_covered(got)),
        ),
    }
}

/// What identifies the mismatch that was found, if one was.
pub open spec fn found_view(found: Option<Mismatch>) -> Option<MismatchView> {
    match found {
        Some(m) => Some(m@),
        None => None,
    }
}

/// The names of a question mismatch are written as the two lists of
/// questions have them.
pub open spec fn names_from(m: Mismatch, expected: Seq<Option<Question>>, got: Seq<Option<Question>>)
    -> bool {
    m matches Mismatch::Question(e, g) ==> {
        &&& expected.len() == 1 && expected[0] is Some && e.name() == expected[0].unwrap().name()
        &&& got.len() == 1 && got[0] is Some && g.name() == got[0].unwrap().name()
    }
}

/// The names of a question mismatch are written as the two messages have them.
pub open spec fn names_from_wire(m: Mismatch, expected: Seq<u8>, got: Seq<u8>) -> bool {
    m matches Mismatch::Question(e, g) ==> {
        &&& question_items(expected).len() == 1
        &&& question_items(expected)[0] matches Some(q) && e.name() == q.0
        &&& question_items(got).len() == 1
        &&& question_items(got)[0] matches Some(q) && g.name() == q.0
    }
}

/// Compares the question sections of two messages, each given as the
/// outcome of the walk over it.
pub fn compare_questions(expected: &Vec<Option<Question>>, got: &Vec<Option<Question>>) -> (r:
    Option<Mismatch>)
    ensures
        found_view(r) == question_mismatch(parsed_views(expected@), parsed_views(got@)),
        r matches Some(m) ==> names_from(m, expected@, got@),
{
    if expected.len() != 1 || got.len() != 1 {
        return Some(Mismatch::QuestionCount);
    }
    let e = match &expected[0] {
        Some(q) => q,
        None => {
            return Some(Mismatch::MalformedExpected);
        },
    };
    let g = match &got[0] {
        Some(q) => q,
        None => {
            return Some(Mismatch::MalformedGot);
        },
    };
    if !e.same(g) {
        Some(Mismatch::Question(e.duplicate(), g.duplicate()))
    } else {
        None
    }
}

/// The question section of a reply, walked to its end: each question
/// that parsed, and `None` for the step at which parsing failed.
pub fn questions(reply: &DnsReply) -> (r: Vec<Option<Question>>)
    ensures
        parsed_views(r@) == question_views(question_items(reply@.wire)),
        r@.len() == question_items(reply@.wire).len(),
        forall|i: int|
            0 <= i < r@.len() ==> (#[trigger] r@[i] matches Some(q) ==> (question_items(
                reply@.wire,
            )[i] matches Some(item) && q.name() == item.0)),
{
    let raw = question_section(reply.wire());
    let ghost items = question_items(reply@.wire);
    let mut out: Vec<Option<Question>> = Vec::new();
    let mut i: usize = 0;
    while i < raw.len()
        invariant
            i <= raw.len(),
            raw.deep_view() == items,
            forall|k: int|
                0 <= k < raw@.len() && raw@[k] is Some ==> crate::wire::valid_name(
                    #[trigger] raw@[k].unwrap().0@,
                ),
            out@.len() == i,
            parsed_views(out@) == question_views(items.take(i as int)),
            forall|k: int|
                0 <= k < i ==> (#[trigger] out@[k] matches Some(q) ==> (items[k] matches Some(item)
                    && q.name() == item.0)),
        decreases raw.len() - i,
    {
        let ghost before = out@;
        let next = match &raw[i] {
            Some(item) => {
                let name = item.0.clone();
                proof {
                    assert(items[i as int] == Some((item.0@, item.1, item.2)));
                }
                Question::new(name, item.1, item.2)
            },
            None => None,
        };
        out.push(next);
        proof {
            assert(parsed_views(before.push(next)) =~= parsed_views(before).push(
                match next {
                    Some(q) => Some(q@),
                    None => None,
                },
            ));
        }
        i += 1;
    }
    out
}

impl DiffCriteria {
    /// What this criterion finds between the reply that was expected and
    /// the one that was got, if it finds anything.
    pub fn mismatch(&self, expected: &DnsReply, got: &DnsReply) -> (r: Option<Mismatch>)
        ensures
            found_view(r) == criterion_mismatch(*self, expected@.wire, got@.wire),
            r matches Some(m) ==> names_from_wire(m, expected@.wire, got@.wire),
    {
        match self {
            DiffCriteria::Opcode => {
                let e = header_opcode(expected.wire());
                let g = header_opcode(got.wire());
                if e != g {
                    Some(Mismatch::Opcode(e, g))
                } else {
                    None
                }
            },
            DiffCriteria::Rcode => {
                let e = header_rcode(expected.wire());
                let g = header_rcode(got.wire());
                if e != g {
                    Some(Mismatch::Rcode(e, g))
                } else {
                    None
                }
            },
            DiffCriteria::Flags => {
                let e = header_flags(expected.wire());
                let g = header_flags(got.wire());
                if e != g {
                    Some(Mismatch::Flags(e, g))
                } else {
                    None
                }
            },
            DiffCriteria::Question => {
                let e = questions(expected);
                let g = questions(got);
                compare_questions(&e, &g)
            },
            DiffCriteria::AnswerTypes => {
                let e = match expected.answer_rtypes() {
                    Ok(val) => val,
                    Err(_) => {
                        return Some(Mismatch::MalformedExpected);
                    },
                };
                let g = match got.answer_rtypes() {
                    Ok(val) => val,
                    Err(_) => {
                        return Some(Mismatch::MalformedGot);
                    },
                };
                if !equal_u16(&e, &g) {
                    Some(Mismatch::AnswerTypes(e, g))
                } else {
                    None
                }
            },
            DiffCriteria::AnswerRrsigs => {
                let e = match expected.answer_rrsig_covered() {
                    Ok(val) => val,
                    Err(_) => {
                        return Some(Mismatch::MalformedExpected);
                    },
                };
                let g = match got.answer_rrsig_covered() {
                    Ok(val) => val,
                    Err(_) => {
                        return Some(Mismatch::MalformedGot);
                    },
                };
                if !equal_u16(&e, &g) {
                    Some(Mismatch::AnswerRrsigs(e, g))
                } else {
                    None
                }
            },
        }
    }
}

// ----- Two responses --------

/// The mismatches between the response that was expected and the one that
/// was got. A timeout on either side, and then a malformed response on
/// either side, decides alone; two DNS messages are compared by each
/// criterion of the list.
pub open spec fn compare_spec(expected: ResponseView, got: ResponseView, criteria: Seq<DiffCriteria>)
    -> Set<MismatchView> {
    match (expected, got) {
        (ResponseView::Timeout, ResponseView::Timeout) => Set::empty(),
        (ResponseView::Timeout, _) => set![MismatchView::TimeoutExpected],
        (_, ResponseView::Timeout) => set![MismatchView::TimeoutGot],
        (ResponseView::Malformed, ResponseView::Malformed) => set![MismatchView::MalformedBoth],
        (ResponseView::Malformed, _) => set![MismatchView::MalformedExpected],
        (_, ResponseView::Malformed) => set![MismatchView::MalformedGot],
        (ResponseView::Data(e), ResponseView::Data(g)) => found_by(criteria, e.wire, g.wire),
    }
}

/// The mismatches that the criteria of a list find between two DNS messages.
pub open spec fn found_by(criteria: Seq<DiffCriteria>, expected: Seq<u8>, got: Seq<u8>) -> Set<
    MismatchView,
> {
    Set::new(
        |m: MismatchView|
            exists|i: int|
                0 <= i < criteria.len() && #[trigger] criterion_mismatch(criteria[i], expected, got)
                    == Some(m),
    )
}

/// The name that the first question of a response is written with, if
/// the response is a DNS message whose first question parses.
pub open spec fn asked_name(response: ResponseView) -> Seq<u8> {
    match response {
        ResponseView::Data(reply) => match question_items(reply.wire)[0] {
            Some(q) => q.0,
            None => Seq::empty(),
        },
        _ => Seq::empty(),
    }
}

/// The text for what was expected, of a mismatch found against the
/// response `expected`.
pub open spec fn expected_of(m: MismatchView, expected: ResponseView) -> Seq<char> {
    match m {
        MismatchView::TimeoutExpected => "timeout"@,
        MismatchView::TimeoutGot => "answer"@,
        MismatchView::MalformedExpected => "malformed"@,
        MismatchView::MalformedGot => "answer"@,
        MismatchView::MalformedBoth => "malformed"@,
        MismatchView::QuestionCount => "question"@,
        MismatchView::AnswerTypes(exp, _) => answertypes_text(exp),
        MismatchView::AnswerRrsigs(exp, _) => answerrrsigs_text(exp),
        MismatchView::Opcode(exp, _) => opcode_text(exp),
        MismatchView::Rcode(exp, _) => rcode_text(exp),
        MismatchView::Flags(exp, _) => join_words(flag_words(exp)),
        MismatchView::Question(exp, _) => crate::wire::question_text(
            asked_name(expected),
            exp.qtype,
            exp.qclass,
        ),
    }
}

/// The text for what was got, of a mismatch found in the response `got`.
pub open spec fn got_of(m: MismatchView, got: ResponseView) -> Seq<char> {
    match m {
        MismatchView::TimeoutExpected => "answer"@,
        MismatchView::TimeoutGot => "timeout"@,
        MismatchView::MalformedExpected => "answer"@,
        MismatchView::MalformedGot => "malformed"@,
        MismatchView::MalformedBoth => "malformed"@,
        MismatchView::QuestionCount => "questions"@,
        MismatchView::AnswerTypes(_, found) => answertypes_text(found),
        MismatchView::AnswerRrsigs(_, found) => answerrrsigs_text(found),
        MismatchView::Opcode(_, found) => opcode_text(found),
        MismatchView::Rcode(_, found) => rcode_text(found),
        MismatchView::Flags(_, found) => join_words(flag_words(found)),
        MismatchView::Question(_, found) => crate::wire::question_text(
            asked_name(got),
            found.qtype,
            found.qclass,
        ),
    }
}

/// Whether a mismatch is presented as one found between these two
/// responses is: a question is written as its response writes it.
pub open spec fn presented(m: Mismatch, expected: ResponseView, got: ResponseView) -> bool {
    m.expected_text() == expected_of(m@, expected) && m.got_text() == got_of(m@, got)
}

/// Whether each mismatch of a list is presented as one found between these
/// two responses is.
pub open spec fn all_presented(items: Seq<Mismatch>, expected: ResponseView, got: ResponseView)
    -> bool {
    forall|i: int| 0 <= i < items.len() ==> presented(#[trigger] items[i], expected, got)
}

/// A set with one member.
fn single(m: Mismatch) -> (r: MismatchSet)
    requires
        !(m is Question),
    ensures
        r@ == set![m@],
        forall|expected: ResponseView, got: ResponseView|
            #[trigger] all_presented(r.elements(), expected, got),
{
    let mut out = MismatchSet::new();
    out.insert(m);
    assert forall|expected: ResponseView, got: ResponseView| #[trigger]
        all_presented(out.elements(), expected, got) by {}
    out
}

/// Finds the mismatches between the response that was expected and the
/// one that was got, under the given criteria.
pub fn compare(expected: &ServerResponse, got: &ServerResponse, criteria: &[DiffCriteria]) -> (r:
    MismatchSet)
    ensures
        r@ == compare_spec(expected@, got@, criteria@),
        all_presented(r.elements(), expected@, got@),
{
    match expected {
        ServerResponse::Timeout => match got {
            ServerResponse::Timeout => MismatchSet::new(),
            _ => single(Mismatch::TimeoutExpected),
        },
        ServerResponse::Malformed => match got {
            ServerResponse::Timeout => single(Mismatch::TimeoutGot),
            ServerResponse::Malformed => single(Mismatch::MalformedBoth),
            _ => single(Mismatch::MalformedExpected),
        },
        ServerResponse::Data(e) => match got {
            ServerResponse::Timeout => single(Mismatch::TimeoutGot),
            ServerResponse::Malformed => single(Mismatch::MalformedGot),
            ServerResponse::Data(g) => {
                let mut mismatches = MismatchSet::new();
                let mut i: usize = 0;
                while i < criteria.len()
                    invariant
                        i <= criteria.len(),
                        mismatches@ == found_by(criteria@.take(i as int), e@.wire, g@.wire),
                        forall|k: int|
                            0 <= k < mismatches.elements().len() ==> names_from_wire(
                                #[trigger] mismatches.elements()[k],
                                e@.wire,
                                g@.wire,
                            ),
                    decreases criteria.len() - i,
                {
                    let found = criteria[i].mismatch(e, g);
                    if let Some(m) = found {
                        mismatches.insert(m);
                    }
                    proof {
                        let done = criteria@.take(i as int);
                        let next = criteria@.take(i + 1);
                        let here = criterion_mismatch(criteria@[i as int], e@.wire, g@.wire);
                        assert forall|x: MismatchView|
                            found_by(next, e@.wire, g@.wire).contains(x) <==> found_by(
                                done,
                                e@.wire,
                                g@.wire,
                            ).contains(x) || here == Some(x) by {
                            if here == Some(x) {
                                assert(next[i as int] == criteria@[i as int]);
                            }
                        }
                    }
                    i += 1;
                }
                assert(criteria@.take(i as int) == criteria@);
                mismatches
            },
        },
    }
}

} // verus!
