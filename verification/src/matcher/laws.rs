//! What holds of every comparison.

use vstd::prelude::*;
use super::{
    compare_spec, criterion_mismatch, found_by, Field, MismatchView,
};
use crate::wire::{answer_covered, answer_types, question_items};
use crate::{covered_of, rtypes_of, DiffCriteria, ResponseView};

verus! {

/// The field that a criterion looks at.
pub open spec fn criterion_field(criterion: DiffCriteria) -> Field {
    match criterion {
        DiffCriteria::Opcode => Field::Opcode,
        DiffCriteria::Rcode => Field::Rcode,
        DiffCriteria::Flags => Field::Flags,
        DiffCriteria::Question => Field::Question,
        DiffCriteria::AnswerTypes => Field::AnswerTypes,
        DiffCriteria::AnswerRrsigs => Field::AnswerRrsigs,
    }
}

/// Whether a criterion can read what it compares from a message: one
/// question that parses, or an answer section that parses to its end.
pub open spec fn readable(criterion: DiffCriteria, wire: Seq<u8>) -> bool {
    match criterion {
        DiffCriteria::Question => question_items(wire).len() == 1 && question_items(wire)[0] is Some,
        DiffCriteria::AnswerTypes => rtypes_of(answer_types(wire)) is Some,
        DiffCriteria::AnswerRrsigs => covered_of(answer_covered(wire)) is Some,
        _ => true,
    }
}

/// Whether a response can be read under every criterion of a list.
pub open spec fn readable_under(response: ResponseView, criteria: Seq<DiffCriteria>) -> bool {
    response matches ResponseView::Data(reply) ==> forall|i: int|
        0 <= i < criteria.len() ==> readable(#[trigger] criteria[i], reply.wire)
}

/// Whether a mismatch says that a message did not parse.
pub open spec fn is_malformed(found: Option<MismatchView>) -> bool {
    found == Some(MismatchView::MalformedExpected) || found == Some(MismatchView::MalformedGot)
}

/// What a timeout or a malformed response on either side makes of a
/// comparison, whatever the other side holds.
pub open spec fn decided_alone(expected: ResponseView, got: ResponseView) -> Set<MismatchView> {
    if expected is Timeout && got is Timeout {
        Set::empty()
    } else if expected is Timeout {
        set![MismatchView::TimeoutExpected]
    } else if got is Timeout {
        set![MismatchView::TimeoutGot]
    } else if expected is Malformed && got is Malformed {
        set![MismatchView::MalformedBoth]
    } else if expected is Malformed {
        set![MismatchView::MalformedExpected]
    } else {
        set![MismatchView::MalformedGot]
    }
}

/// A response compared with itself shows no mismatch, unless it is
/// malformed, which shows as malformed on both sides. This holds of a DNS
/// message as far as the criteria can read it: a message without exactly
/// one question, say, differs from any message under the question
/// criterion, and so from itself.
pub proof fn lemma_compare_reflexive(response: ResponseView, criteria: Seq<DiffCriteria>)
    requires
        readable_under(response, criteria),
    ensures
        compare_spec(response, response, criteria) == if response is Malformed {
            set![MismatchView::MalformedBoth]
        } else {
            Set::<MismatchView>::empty()
        },
{
}

/// If either response is a timeout or malformed, the comparison gives the
/// one mismatch that says so (none for two timeouts), whatever the criteria.
pub proof fn lemma_compare_precedence(
    expected: ResponseView,
    got: ResponseView,
    criteria: Seq<DiffCriteria>,
)
    requires
        !(expected is Data && got is Data),
    ensures
        compare_spec(expected, got, criteria) == decided_alone(expected, got),
{
}

/// Taking a criterion out of the list takes no mismatch in: what the
/// shorter list finds, the longer list finds too.
pub proof fn lemma_compare_grows(
    expected: ResponseView,
    got: ResponseView,
    criteria: Seq<DiffCriteria>,
    at: int,
)
    requires
        0 <= at < criteria.len(),
    ensures
        compare_spec(expected, got, criteria.remove(at)).subset_of(
            compare_spec(expected, got, criteria),
        ),
{
}

/// A mismatch that goes away when a criterion is taken out of the list is
/// the one that this criterion found, and lies in the field that the
/// criterion looks at. The latter holds where the criterion could read both
/// messages: where it could not, what it found lies in the field
/// `Malformed`.
pub proof fn lemma_compare_isolation(
    expected: ResponseView,
    got: ResponseView,
    criteria: Seq<DiffCriteria>,
    at: int,
    m: MismatchView,
)
    requires
        0 <= at < criteria.len(),
        compare_spec(expected, got, criteria).contains(m),
        !compare_spec(expected, got, criteria.remove(at)).contains(m),
    ensures
        expected matches ResponseView::Data(e) && got matches ResponseView::Data(g)
            && criterion_mismatch(criteria[at], e.wire, g.wire) == Some(m) && (!is_malformed(
            Some(m),
        ) ==> m.field() == criterion_field(criteria[at])),
{
    let fewer = criteria.remove(at);
    if let (ResponseView::Data(e), ResponseView::Data(g)) = (expected, got) {
        let i = choose|i: int|
            0 <= i < criteria.len() && #[trigger] criterion_mismatch(criteria[i], e.wire, g.wire)
                == Some(m);
        if i != at {
            let j = if i < at {
                i
            } else {
                i - 1
            };
            assert(criterion_mismatch(fewer[j], e.wire, g.wire) == Some(m));
        }
    }
}

/// Under the question criterion the counts are judged before anything
/// else: where either message does not hold exactly one question, the
/// mismatch is that of the count, whether or not a question fails to parse.
pub proof fn lemma_question_count_first(expected: Seq<u8>, got: Seq<u8>)
    requires
        question_items(expected).len() != 1 || question_items(got).len() != 1,
    ensures
        criterion_mismatch(DiffCriteria::Question, expected, got) == Some(
            MismatchView::QuestionCount,
        ),
{
}

/// One criterion finds something between two messages exactly if it finds
/// something between them the other way round.
pub proof fn lemma_criterion_symmetric(criterion: DiffCriteria, a: Seq<u8>, b: Seq<u8>)
    ensures
        criterion_mismatch(criterion, a, b) is None <==> criterion_mismatch(criterion, b, a) is None,
{
}

/// Two responses differ in one order exactly if they differ in the other:
/// the comparison is empty one way round if and only if it is empty the
/// other way round.
pub proof fn lemma_compare_symmetric(a: ResponseView, b: ResponseView, criteria: Seq<DiffCriteria>)
    ensures
        compare_spec(a, b, criteria) == Set::<MismatchView>::empty() <==> compare_spec(
            b,
            a,
            criteria,
        ) == Set::<MismatchView>::empty(),
{
    lemma_empty_means_none(a, b, criteria);
    lemma_empty_means_none(b, a, criteria);
    if let (ResponseView::Data(x), ResponseView::Data(y)) = (a, b) {
        assert forall|i: int| 0 <= i < criteria.len() implies (criterion_mismatch(
            criteria[i],
            x.wire,
            y.wire,
        ) is None <==> criterion_mismatch(criteria[i], y.wire, x.wire) is None) by {}
    } else {
        assert(set![MismatchView::TimeoutExpected].contains(MismatchView::TimeoutExpected));
        assert(set![MismatchView::TimeoutGot].contains(MismatchView::TimeoutGot));
        assert(set![MismatchView::MalformedExpected].contains(MismatchView::MalformedExpected));
        assert(set![MismatchView::MalformedGot].contains(MismatchView::MalformedGot));
    }
}

/// Two DNS messages compare empty exactly if no criterion of the list
/// finds anything between them.
pub proof fn lemma_empty_means_none(a: ResponseView, b: ResponseView, criteria: Seq<DiffCriteria>)
    ensures
        a matches ResponseView::Data(x) ==> (b matches ResponseView::Data(y) ==> (compare_spec(
            a,
            b,
            criteria,
        ) == Set::<MismatchView>::empty() <==> forall|i: int|
            0 <= i < criteria.len() ==> (#[trigger] criterion_mismatch(criteria[i], x.wire, y.wire))
                is None)),
{
    if let (ResponseView::Data(x), ResponseView::Data(y)) = (a, b) {
        let found = found_by(criteria, x.wire, y.wire);
        if found == Set::<MismatchView>::empty() {
            assert forall|i: int| 0 <= i < criteria.len() implies (#[trigger] criterion_mismatch(
                criteria[i],
                x.wire,
                y.wire,
            )) is None by {
                if let Some(m) = criterion_mismatch(criteria[i], x.wire, y.wire) {
                    assert(found.contains(m));
                }
            }
        }
        if forall|i: int|
            0 <= i < criteria.len() ==> (#[trigger] criterion_mismatch(criteria[i], x.wire, y.wire))
                is None {
            assert(found =~= Set::<MismatchView>::empty());
        }
    }
}

} // verus!
