//! The parts of the configuration that the comparison reads: names of
//! transports, of criteria and of field weights, and lists of them.

use vstd::prelude::*;
use vstd::string::*;
use crate::error::Error;
use crate::wire::texts;
use crate::DiffCriteria;

verus! {

/// Transport protocol used to send/receive queries
#[derive(Clone, Copy, Debug, PartialEq, Eq, Structural)]
pub enum TransportProtocol {
    Udp,
    Tcp,
    Tls,
}

/// Msgdiff configuration
#[derive(Clone, Debug, PartialEq, Eq)]
pub struct DiffConfig {
    /// The name of the server under test.
    pub target: String,
    /// The criteria by which responses are compared.
    pub criteria: Vec<DiffCriteria>,
}

/// DiffReport configuration
#[derive(Clone, Debug, PartialEq, Eq)]
pub struct ReportConfig {
    /// The fields in the order in which a report weighs them.
    pub field_weights: Vec<FieldWeight>,
}

/// Field weights used to produce DiffReport
#[derive(Clone, Copy, Debug, PartialEq, Eq, Structural)]
pub enum FieldWeight {
    Timeout,
    Malformed,
    Opcode,
    Question,
    Rcode,
    Flags,
    AnswerTypes,
    AnswerRrsigs,
    Answer,
    Authority,
    Additional,
    Edns,
    Nsid,
}

// ----- Names --------

/// The transport protocol that a name stands for.
pub open spec fn transport_named(name: Seq<char>) -> Option<TransportProtocol> {
    if name == "udp"@ {
        Some(TransportProtocol::Udp)
    } else if name == "tcp"@ {
        Some(TransportProtocol::Tcp)
    } else if name == "tls"@ {
        Some(TransportProtocol::Tls)
    } else {
        None
    }
}

/// The criterion that a name stands for.
pub open spec fn criteria_named(name: Seq<char>) -> Option<DiffCriteria> {
    if name == "opcode"@ {
        Some(DiffCriteria::Opcode)
    } else if name == "rcode"@ {
        Some(DiffCriteria::Rcode)
    } else if name == "flags"@ {
        Some(DiffCriteria::Flags)
    } else if name == "question"@ {
        Some(DiffCriteria::Question)
    } else if name == "answertypes"@ {
        Some(DiffCriteria::AnswerTypes)
    } else if name == "answerrrsigs"@ {
        Some(DiffCriteria::AnswerRrsigs)
    } else {
        None
    }
}

/// The field weight that a name stands for.
pub open spec fn field_weight_named(name: Seq<char>) -> Option<FieldWeight> {
    if name == "timeout"@ {
        Some(FieldWeight::Timeout)
    } else if name == "malformed"@ {
        Some(FieldWeight::Malformed)
    } else if name == "opcode"@ {
        Some(FieldWeight::Opcode)
    } else if name == "question"@ {
        Some(FieldWeight::Question)
    } else if name == "rcode"@ {
        Some(FieldWeight::Rcode)
    } else if name == "flags"@ {
        Some(FieldWeight::Flags)
    } else if name == "answertypes"@ {
        Some(FieldWeight::AnswerTypes)
    } else if name == "answerrrsigs"@ {
        Some(FieldWeight::AnswerRrsigs)
    } else if name == "answer"@ {
        Some(FieldWeight::Answer)
    } else if name == "authority"@ {
        Some(FieldWeight::Authority)
    } else if name == "additional"@ {
        Some(FieldWeight::Additional)
    } else if name == "edns"@ {
        Some(FieldWeight::Edns)
    } else if name == "nsid"@ {
        Some(FieldWeight::Nsid)
    } else {
        None
    }
}

/// Whether `value` reads as `word`.
fn is_word(value: &String, word: &str) -> (r: bool)
    ensures
        r == (value@ == word@),
{
    *value == String::from_str(word)
}

impl TransportProtocol {
    /// The transport protocol of that name.
    pub fn try_from(value: String) -> (r: Result<TransportProtocol, Error>)
        ensures
            match transport_named(value@) {
                Some(protocol) => r == Ok::<TransportProtocol, Error>(protocol),
                None => r matches Err(Error::UnknownTransportProtocol(name)) && name@ == value@,
            },
    {
        if is_word(&value, "udp") {
            Ok(TransportProtocol::Udp)
        } else if is_word(&value, "tcp") {
            Ok(TransportProtocol::Tcp)
        } else if is_word(&value, "tls") {
            Ok(TransportProtocol::Tls)
        } else {
            Err(Error::UnknownTransportProtocol(value))
        }
    }
}

impl DiffCriteria {
    /// The criterion of that name.
    pub fn try_from(value: &str) -> (r: Result<DiffCriteria, Error>)
        ensures
            match criteria_named(value@) {
                Some(criterion) => r == Ok::<DiffCriteria, Error>(criterion),
                None => r matches Err(Error::UnknownDiffCriteria(name)) && name@ == value@,
            },
    {
        let value = String::from_str(value);
        if is_word(&value, "opcode") {
            Ok(DiffCriteria::Opcode)
        } else if is_word(&value, "rcode") {
            Ok(DiffCriteria::Rcode)
        } else if is_word(&value, "flags") {
            Ok(DiffCriteria::Flags)
        } else if is_word(&value, "question") {
            Ok(DiffCriteria::Question)
        } else if is_word(&value, "answertypes") {
            Ok(DiffCriteria::AnswerTypes)
        } else if is_word(&value, "answerrrsigs") {
            Ok(DiffCriteria::AnswerRrsigs)
        } else {
            Err(Error::UnknownDiffCriteria(value))
        }
    }
}

impl FieldWeight {
    /// The field weight of that name.
    pub fn try_from(value: &str) -> (r: Result<FieldWeight, Error>)
        ensures
            match field_weight_named(value@) {
                Some(weight) => r == Ok::<FieldWeight, Error>(weight),
                None => r matches Err(Error::UnknownFieldWeight(name)) && name@ == value@,
            },
    {
        let value = String::from_str(value);
        if is_word(&value, "timeout") {
            Ok(FieldWeight::Timeout)
        } else if is_word(&value, "malformed") {
            Ok(FieldWeight::Malformed)
        } else if is_word(&value, "opcode") {
            Ok(FieldWeight::Opcode)
        } else if is_word(&value, "question") {
            Ok(FieldWeight::Question)
        } else if is_word(&value, "rcode") {
            Ok(FieldWeight::Rcode)
        } else if is_word(&value, "flags") {
            Ok(FieldWeight::Flags)
        } else if is_word(&value, "answertypes") {
            Ok(FieldWeight::AnswerTypes)
        } else if is_word(&value, "answerrrsigs") {
            Ok(FieldWeight::AnswerRrsigs)
        } else if is_word(&value, "answer") {
            Ok(FieldWeight::Answer)
        } else if is_word(&value, "authority") {
            Ok(FieldWeight::Authority)
        } else if is_word(&value, "additional") {
            Ok(FieldWeight::Additional)
        } else if is_word(&value, "edns") {
            Ok(FieldWeight::Edns)
        } else if is_word(&value, "nsid") {
            Ok(FieldWeight::Nsid)
        } else {
            Err(Error::UnknownFieldWeight(value))
        }
    }
}

// ----- Lists --------

/// Whether a character is white space: one that carries the Unicode
/// property `White_Space`.
pub open spec fn is_space(c: char) -> bool {
    let code = c as u32;
    ||| 0x09 <= code <= 0x0D
    ||| code == 0x20
    ||| code == 0x85
    ||| code == 0xA0
    ||| code == 0x1680
    ||| 0x2000 <= code <= 0x200A
    ||| code == 0x2028
    ||| code == 0x2029
    ||| code == 0x202F
    ||| code == 0x205F
    ||| code == 0x3000
}

/// `s` without the white space that it begins with.
pub open spec fn trim_start(s: Seq<char>) -> Seq<char>
    decreases s.len(),
{
    if s.len() > 0 && is_space(s[0]) {
        trim_start(s.drop_first())
    } else {
        s
    }
}

/// `s` without the white space that it ends with.
pub open spec fn trim_end(s: Seq<char>) -> Seq<char>
    decreases s.len(),
{
    if s.len() > 0 && is_space(s.last()) {
        trim_end(s.drop_last())
    } else {
        s
    }
}

/// `s` without the white space around it.
pub open spec fn trim(s: Seq<char>) -> Seq<char> {
    trim_end(trim_start(s))
}

/// The pieces that commas cut `s` into: one more than there are commas,
/// each possibly empty.
pub open spec fn pieces(s: Seq<char>) -> Seq<Seq<char>>
    decreases s.len(),
{
    if s.len() == 0 {
        seq![Seq::empty()]
    } else {
        let before = pieces(s.drop_last());
        if s.last() == ',' {
            before.push(Seq::empty())
        } else {
            before.drop_last().push(before.last().push(s.last()))
        }
    }
}

/// The entries of a list written with commas: its pieces, each without
/// the white space around it.
pub open spec fn entries(list: Seq<char>) -> Seq<Seq<char>> {
    pieces(list).map_values(|piece: Seq<char>| trim(piece))
}

/// Whether a character is white space.
fn is_whitespace(c: char) -> (r: bool)
    ensures
        r == is_space(c),
{
    let code: u32 = c as u32;
    (0x09 <= code && code <= 0x0D) || code == 0x20 || code == 0x85 || code == 0xA0 || code
        == 0x1680 || (0x2000 <= code && code <= 0x200A) || code == 0x2028 || code == 0x2029
        || code == 0x202F || code == 0x205F || code == 0x3000
}

/// The characters of a string.
fn chars_of(s: &str) -> (r: Vec<char>)
    ensures
        r@ == s@,
{
    let mut out: Vec<char> = Vec::new();
    for c in it: s.chars()
        invariant
            out@ == it.seq().take(it.index() as int),
            it.seq() == s@,
    {
        out.push(c);
    }
    out
}

/// The part of `s` between two positions, without the white space around it.
fn trimmed(s: &str, chars: &Vec<char>, start: usize, end: usize) -> (r: String)
    requires
        chars@ == s@,
        start <= end <= chars@.len(),
    ensures
        r@ == trim(s@.subrange(start as int, end as int)),
{
    let ghost whole = s@.subrange(start as int, end as int);
    let mut a: usize = start;
    while a < end && is_whitespace(chars[a])
        invariant
            start <= a <= end <= chars@.len(),
            chars@ == s@,
            trim_start(whole) == trim_start(s@.subrange(a as int, end as int)),
        decreases end - a,
    {
        assert(s@.subrange(a as int, end as int).drop_first() == s@.subrange(a + 1, end as int));
        a += 1;
    }
    let ghost rest = s@.subrange(a as int, end as int);
    let mut b: usize = end;
    while b > a && is_whitespace(chars[b - 1])
        invariant
            a <= b <= end <= chars@.len(),
            chars@ == s@,
            trim_end(rest) == trim_end(s@.subrange(a as int, b as int)),
        decreases b,
    {
        assert(s@.subrange(a as int, b as int).drop_last() == s@.subrange(a as int, b - 1));
        b -= 1;
    }
    String::from_str(s.substring_char(a, b))
}

/// Splits a list written with commas into its entries.
pub fn split_list(list: &str) -> (r: Vec<String>)
    ensures
        texts(r@) == entries(list@),
{
    let chars = chars_of(list);
    let mut out: Vec<String> = Vec::new();
    let mut start: usize = 0;
    let mut i: usize = 0;
    let ghost mut done: Seq<Seq<char>> = Seq::empty();
    proof {
        assert(list@.subrange(0, 0) =~= Seq::<char>::empty());
    }
    while i < chars.len()
        invariant
            start <= i <= chars@.len(),
            chars@ == list@,
            pieces(list@.take(i as int)) == done.push(list@.subrange(start as int, i as int)),
            texts(out@) == done.map_values(|piece: Seq<char>| trim(piece)),
        decreases chars.len() - i,
    {
        let ghost before = list@.take(i as int);
        let ghost current = list@.subrange(start as int, i as int);
        proof {
            assert(list@.take(i + 1).drop_last() == before);
        }
        if chars[i] == ',' {
            let entry = trimmed(list, &chars, start, i);
            out.push(entry);
            proof {
                assert(done.push(current).map_values(|piece: Seq<char>| trim(piece)) =~= done.map_values(
                    |piece: Seq<char>| trim(piece),
                ).push(trim(current)));
                done = done.push(current);
                assert(list@.subrange(i + 1, i + 1) =~= Seq::<char>::empty());
            }
            start = i + 1;
        } else {
            assert(list@.subrange(start as int, i + 1) == current.push(list@[i as int]));
        }
        i += 1;
    }
    let entry = trimmed(list, &chars, start, i);
    out.push(entry);
    proof {
        let current = list@.subrange(start as int, i as int);
        assert(list@.take(i as int) == list@);
        assert(done.push(current).map_values(|piece: Seq<char>| trim(piece)) =~= done.map_values(
            |piece: Seq<char>| trim(piece),
        ).push(trim(current)));
    }
    out
}

/// The names of the servers from the list that declares them.
pub fn servers_from_namelist(namelist: &str) -> (r: Vec<String>)
    ensures
        texts(r@) == entries(namelist@),
{
    split_list(namelist)
}

/// The criteria that the first `n` names stand for, if each stands for one.
pub open spec fn criteria_of(names: Seq<Seq<char>>, n: nat) -> Option<Seq<DiffCriteria>>
    decreases n,
{
    if n == 0 {
        Some(Seq::empty())
    } else {
        match (criteria_of(names, (n - 1) as nat), criteria_named(names[n - 1])) {
            (Some(before), Some(criterion)) => Some(before.push(criterion)),
            _ => None,
        }
    }
}

/// The first of the first `n` names that stands for no criterion, if there is one.
pub open spec fn unknown_criterion(names: Seq<Seq<char>>, n: nat) -> Option<Seq<char>>
    decreases n,
{
    if n == 0 {
        None
    } else {
        match unknown_criterion(names, (n - 1) as nat) {
            Some(name) => Some(name),
            None => if criteria_named(names[n - 1]) is None {
                Some(names[n - 1])
            } else {
                None
            },
        }
    }
}

/// The criteria of a list written with commas. Fails on the first name
/// that stands for no criterion.
pub fn criteria_from_list(criterialist: &str) -> (r: Result<Vec<DiffCriteria>, Error>)
    ensures
        match unknown_criterion(entries(criterialist@), entries(criterialist@).len()) {
            Some(unknown) => r matches Err(Error::UnknownDiffCriteria(name)) && name@ == unknown,
            None => r matches Ok(criteria) && Some(criteria@) == criteria_of(
                entries(criterialist@),
                entries(criterialist@).len(),
            ),
        },
{
    let names = split_list(criterialist);
    let ghost all = entries(criterialist@);
    let mut criteria: Vec<DiffCriteria> = Vec::new();
    let mut i: usize = 0;
    while i < names.len()
        invariant
            i <= names.len(),
            texts(names@) == all,
            all == entries(criterialist@),
            unknown_criterion(all, i as nat) is None,
            criteria_of(all, i as nat) == Some(criteria@),
        decreases names.len() - i,
    {
        match DiffCriteria::try_from(names[i].as_str()) {
            Ok(criterion) => {
                criteria.push(criterion);
            },
            Err(e) => {
                proof {
                    lemma_unknown_criterion_stays(all, (i + 1) as nat, all.len());
                }
                return Err(e);
            },
        }
        i += 1;
    }
    Ok(criteria)
}

/// A name that stands for no criterion among the first `n` is still the
/// first such among the first `m`, for `m` beyond `n`.
proof fn lemma_unknown_criterion_stays(names: Seq<Seq<char>>, n: nat, m: nat)
    requires
        n <= m,
        unknown_criterion(names, n) is Some,
    ensures
        unknown_criterion(names, m) == unknown_criterion(names, n),
    decreases m - n,
{
    if n < m {
        lemma_unknown_criterion_stays(names, n, (m - 1) as nat);
    }
}

/// The field weights that the first `n` names stand for, if each stands for one.
pub open spec fn weights_of(names: Seq<Seq<char>>, n: nat) -> Option<Seq<FieldWeight>>
    decreases n,
{
    if n == 0 {
        Some(Seq::empty())
    } else {
        match (weights_of(names, (n - 1) as nat), field_weight_named(names[n - 1])) {
            (Some(before), Some(weight)) => Some(before.push(weight)),
            _ => None,
        }
    }
}

/// The first of the first `n` names that stands for no field weight, if there is one.
pub open spec fn unknown_weight(names: Seq<Seq<char>>, n: nat) -> Option<Seq<char>>
    decreases n,
{
    if n == 0 {
        None
    } else {
        match unknown_weight(names, (n - 1) as nat) {
            Some(name) => Some(name),
            None => if field_weight_named(names[n - 1]) is None {
                Some(names[n - 1])
            } else {
                None
            },
        }
    }
}

/// The field weights of a list written with commas. Fails on the first
/// name that stands for no field weight.
pub fn field_weights_from_list(weightlist: &str) -> (r: Result<Vec<FieldWeight>, Error>)
    ensures
        match unknown_weight(entries(weightlist@), entries(weightlist@).len()) {
            Some(unknown) => r matches Err(Error::UnknownFieldWeight(name)) && name@ == unknown,
            None => r matches Ok(weights) && Some(weights@) == weights_of(
                entries(weightlist@),
                entries(weightlist@).len(),
            ),
        },
{
    let names = split_list(weightlist);
    let ghost all = entries(weightlist@);
    let mut field_weights: Vec<FieldWeight> = Vec::new();
    let mut i: usize = 0;
    while i < names.len()
        invariant
            i <= names.len(),
            texts(names@) == all,
            all == entries(weightlist@),
            unknown_weight(all, i as nat) is None,
            weights_of(all, i as nat) == Some(field_weights@),
        decreases names.len() - i,
    {
        match FieldWeight::try_from(names[i].as_str()) {
            Ok(weight) => {
                field_weights.push(weight);
            },
            Err(e) => {
                proof {
                    lemma_unknown_weight_stays(all, (i + 1) as nat, all.len());
                }
                return Err(e);
            },
        }
        i += 1;
    }
    Ok(field_weights)
}

/// A name that stands for no field weight among the first `n` is still
/// the first such among the first `m`, for `m` beyond `n`.
proof fn lemma_unknown_weight_stays(names: Seq<Seq<char>>, n: nat, m: nat)
    requires
        n <= m,
        unknown_weight(names, n) is Some,
    ensures
        unknown_weight(names, m) == unknown_weight(names, n),
    decreases m - n,
{
    if n < m {
        lemma_unknown_weight_stays(names, n, (m - 1) as nat);
    }
}

} // verus!
