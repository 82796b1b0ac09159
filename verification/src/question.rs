//! The question of a DNS message: a name, a record type and a class.

use vstd::prelude::*;
use vstd::std_specs::cmp::PartialEqSpecImpl;
use crate::wire::{name_is_valid, question_str, question_text, valid_name};

verus! {

/// A question as it stands in a DNS message, its name flattened to
/// uncompressed wire format.
#[derive(Debug)]
pub struct Question {
    qname: Vec<u8>,
    qtype: u16,
    qclass: u16,
}

/// What identifies a [`Question`]: its name without regard to the case of
/// ASCII letters, its type and its class.
pub struct QuestionView {
    /// The name in wire format, ASCII letters in lower case.
    pub qname: Seq<u8>,
    pub qtype: u16,
    pub qclass: u16,
}

/// An ASCII capital letter as its small letter; any other octet unchanged.
pub open spec fn lower(octet: u8) -> u8 {
    if 65 <= octet <= 90 {
        (octet + 32) as u8
    } else {
        octet
    }
}

/// `name` with its ASCII letters in lower case.
pub open spec fn fold_case(name: Seq<u8>) -> Seq<u8> {
    name.map_values(|octet: u8| lower(octet))
}

/// An ASCII capital letter as its small letter; any other octet unchanged.
fn lower_octet(octet: u8) -> (r: u8)
    ensures
        r == lower(octet),
{
    if 65 <= octet && octet <= 90 {
        octet + 32
    } else {
        octet
    }
}

impl View for Question {
    type V = QuestionView;

    closed spec fn view(&self) -> QuestionView {
        QuestionView { qname: fold_case(self.qname@), qtype: self.qtype, qclass: self.qclass }
    }
}

impl Question {
    #[verifier::type_invariant]
    spec fn name_is_absolute(&self) -> bool {
        valid_name(self.qname@)
    }

    /// The name as it was written, in uncompressed wire format.
    pub closed spec fn name(&self) -> Seq<u8> {
        self.qname@
    }

    /// The text that presents the question.
    pub open spec fn text(&self) -> Seq<char> {
        question_text(self.name(), self@.qtype, self@.qclass)
    }

    /// Makes a question of a name in uncompressed wire format, a record
    /// type and a class; `None` if the name is not an absolute domain name.
    pub fn new(qname: Vec<u8>, qtype: u16, qclass: u16) -> (r: Option<Question>)
        ensures
            r is Some <==> valid_name(qname@),
            r matches Some(q) ==> q.name() == qname@ && q@ == (QuestionView {
                qname: fold_case(qname@),
                qtype,
                qclass,
            }),
    {
        if name_is_valid(&qname) {
            Some(Question { qname, qtype, qclass })
        } else {
            None
        }
    }

    /// The name asked for, in uncompressed wire format.
    pub fn qname(&self) -> (r: &Vec<u8>)
        ensures
            r@ == self.name(),
            valid_name(r@),
            fold_case(r@) == self@.qname,
    {
        proof {
            use_type_invariant(self);
        }
        &self.qname
    }

    /// The record type asked for.
    pub fn qtype(&self) -> (r: u16)
        ensures
            r == self@.qtype,
    {
        self.qtype
    }

    /// The class asked for.
    pub fn qclass(&self) -> (r: u16)
        ensures
            r == self@.qclass,
    {
        self.qclass
    }

    /// Whether two questions are the same: equal in type and class, and in
    /// name up to the case of ASCII letters.
    pub fn same(&self, other: &Question) -> (r: bool)
        ensures
            r == (self@ == other@),
    {
        if self.qtype != other.qtype || self.qclass != other.qclass {
            return false;
        }
        if self.qname.len() != other.qname.len() {
            assert(fold_case(self.qname@).len() != fold_case(other.qname@).len());
            return false;
        }
        let mut i: usize = 0;
        while i < self.qname.len()
            invariant
                i <= self.qname.len(),
                self.qname.len() == other.qname.len(),
                forall|k: int| 0 <= k < i ==> lower(self.qname@[k]) == lower(other.qname@[k]),
            decreases self.qname.len() - i,
        {
            if lower_octet(self.qname[i]) != lower_octet(other.qname[i]) {
                assert(fold_case(self.qname@)[i as int] != fold_case(other.qname@)[i as int]);
                return false;
            }
            i += 1;
        }
        assert(fold_case(self.qname@) =~= fold_case(other.qname@));
        true
    }

    /// A copy of the question.
    pub fn duplicate(&self) -> (r: Question)
        ensures
            r@ == self@,
            r.name() == self.name(),
    {
        proof {
            use_type_invariant(self);
        }
        Question { qname: self.qname.clone(), qtype: self.qtype, qclass: self.qclass }
    }

    /// The question in presentation form.
    pub fn to_string(&self) -> (r: String)
        ensures
            r@ == self.text(),
    {
        let name = self.qname();
        question_str(name, self.qtype, self.qclass)
    }
}

impl PartialEq for Question {
    fn eq(&self, other: &Question) -> (r: bool) {
        self.same(other)
    }
}

impl PartialEqSpecImpl for Question {
    open spec fn obeys_eq_spec() -> bool {
        true
    }

    open spec fn eq_spec(&self, other: &Question) -> bool {
        self@ == other@
    }
}

impl Eq for Question {

}

impl Clone for Question {
    fn clone(&self) -> (r: Self)
        ensures
            r@ == self@,
            r.name() == self.name(),
    {
        self.duplicate()
    }
}

} // verus!
