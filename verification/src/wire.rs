//! The boundary to the DNS wire-format parser and to the byte-order helpers.
//!
//! Everything the rest of the crate knows about a DNS message it learns
//! here: header fields, which are stated bit by bit, the texts of opcodes
//! and response codes, which are stated word by word, and the question and
//! answer sections, whose parse results are given names. The functions in
//! this module are trusted, not proved; each says what it takes for granted.

use vstd::prelude::*;
use byteorder::{ByteOrder, LittleEndian};
use domain::base::iana::{Class, Opcode, Rcode, Rtype};
use domain::base::{Dname, Message, ToDname};
use domain::rdata::Rrsig;

verus! {

/// Size of the fixed DNS header; a shorter buffer is not a DNS message.
pub const HEADER_LEN: usize = 12;

/// Record type number of RRSIG.
pub const RTYPE_RRSIG: u16 = 46;

/// A section of a message could not be walked to its end.
#[derive(Clone, Copy, Debug, PartialEq, Eq, Structural)]
pub struct ParseError;

/// The flag bits of a DNS header.
#[derive(Clone, Copy, Debug, PartialEq, Eq, Hash, Structural)]
pub struct Flags {
    pub qr: bool,
    pub aa: bool,
    pub tc: bool,
    pub rd: bool,
    pub ra: bool,
    pub ad: bool,
    pub cd: bool,
}

/// Whether bit `bit` (0 is the least significant) of `byte` is set.
pub open spec fn bit_set(byte: u8, bit: u8) -> bool {
    (byte >> bit) & 1u8 == 1u8
}

/// The opcode field of a header: bits 3 to 6 of the third octet.
pub open spec fn opcode_of(wire: Seq<u8>) -> u8 {
    (wire[2] >> 3u8) & 0x0fu8
}

/// The response code field of a header: the low half of the fourth octet.
pub open spec fn rcode_of(wire: Seq<u8>) -> u8 {
    wire[3] & 0x0fu8
}

/// The flag bits of a header, read from its third and fourth octets.
pub open spec fn flags_of(wire: Seq<u8>) -> Flags {
    Flags {
        qr: bit_set(wire[2], 7),
        aa: bit_set(wire[2], 2),
        tc: bit_set(wire[2], 1),
        rd: bit_set(wire[2], 0),
        ra: bit_set(wire[3], 7),
        ad: bit_set(wire[3], 5),
        cd: bit_set(wire[3], 4),
    }
}

/// Whether `name`, read from `pos`, is a run of labels of at most 63 octets
/// that ends with the root label on the last octet.
pub open spec fn labels_end_at_root(name: Seq<u8>, pos: int) -> bool
    decreases name.len() - pos,
{
    if pos < 0 || pos >= name.len() {
        false
    } else if name[pos] == 0 {
        pos == name.len() - 1
    } else if name[pos] > 63 || pos + 1 + name[pos] >= name.len() {
        false
    } else {
        labels_end_at_root(name, pos + 1 + name[pos])
    }
}

/// An absolute domain name in uncompressed wire format.
pub open spec fn valid_name(name: Seq<u8>) -> bool {
    name.len() <= 255 && labels_end_at_root(name, 0)
}

/// The value of up to four octets read as a little-endian number.
pub open spec fn le_value(bytes: Seq<u8>) -> nat
    decreases bytes.len(),
{
    if bytes.len() == 0 {
        0
    } else {
        bytes[0] as nat + 256 * le_value(bytes.drop_first())
    }
}

/// The `width` low-order octets of `value`, least significant first.
pub open spec fn le_bytes(value: nat, width: nat) -> Seq<u8>
    decreases width,
{
    if width == 0 {
        Seq::empty()
    } else {
        seq![(value % 256) as u8] + le_bytes(value / 256, (width - 1) as nat)
    }
}

/// The words of `words` with a single space between neighbours.
pub open spec fn join_words(words: Seq<Seq<char>>) -> Seq<char>
    decreases words.len(),
{
    if words.len() == 0 {
        Seq::empty()
    } else if words.len() == 1 {
        words[0]
    } else {
        join_words(words.drop_last()) + seq![' '] + words.last()
    }
}

/// The texts of a list of strings.
pub open spec fn texts(words: Seq<String>) -> Seq<Seq<char>> {
    words.map_values(|w: String| w@)
}

/// The two-letter tokens of the flags that are set, in header order.
pub open spec fn flag_words(f: Flags) -> Seq<Seq<char>> {
    (if f.qr { seq!["QR"@] } else { seq![] })
        + (if f.aa { seq!["AA"@] } else { seq![] })
        + (if f.tc { seq!["TC"@] } else { seq![] })
        + (if f.rd { seq!["RD"@] } else { seq![] })
        + (if f.ra { seq!["RA"@] } else { seq![] })
        + (if f.ad { seq!["AD"@] } else { seq![] })
        + (if f.cd { seq!["CD"@] } else { seq![] })
}

/// What walking the question section of `wire` yields, one entry per
/// step: the question's name in uncompressed wire format with its type and
/// class, or `None` for the step at which parsing failed.
pub uninterp spec fn question_items(wire: Seq<u8>) -> Seq<Option<(Seq<u8>, u16, u16)>>;

/// What walking the answer section of `wire` yields: `None` when the
/// section cannot be reached, else per step the record's type, or `None`
/// for the step at which parsing failed.
pub uninterp spec fn answer_types(wire: Seq<u8>) -> Option<Seq<Option<u16>>>;

/// The answer section of `wire` read for its signatures: `None` when the
/// section cannot be reached, else per step `None` for a record or
/// signature that failed to parse, `Some(None)` for a record that is no
/// RRSIG, and `Some(Some(t))` for an RRSIG that covers type `t`.
pub uninterp spec fn answer_covered(wire: Seq<u8>) -> Option<Seq<Option<Option<u16>>>>;

/// The decimal digits of a number.
pub open spec fn decimal_text(n: nat) -> Seq<char>
    decreases n,
{
    if n < 10 {
        seq![((48 + n) as u8) as char]
    } else {
        decimal_text(n / 10).push(((48 + n % 10) as u8) as char)
    }
}

/// The text that stands for an opcode: its mnemonic where it has one,
/// else its number in decimal.
pub open spec fn opcode_text(code: u8) -> Seq<char> {
    if code == 0 {
        "QUERY"@
    } else if code == 1 {
        "IQUERY"@
    } else if code == 2 {
        "STATUS"@
    } else if code == 4 {
        "NOTIFY"@
    } else if code == 5 {
        "UPDATE"@
    } else if code == 6 {
        "DSO"@
    } else {
        decimal_text(code as nat)
    }
}

/// The text that stands for a response code. Only its low four bits
/// count: eleven of their values have a mnemonic, the others are written
/// in decimal.
pub open spec fn rcode_text(code: u8) -> Seq<char> {
    let low = code & 0x0fu8;
    if low == 0 {
        "NOERROR"@
    } else if low == 1 {
        "FORMERR"@
    } else if low == 2 {
        "SERVFAIL"@
    } else if low == 3 {
        "NXDOMAIN"@
    } else if low == 4 {
        "NOTIMP"@
    } else if low == 5 {
        "REFUSED"@
    } else if low == 6 {
        "YXDOMAIN"@
    } else if low == 7 {
        "YXRRSET"@
    } else if low == 8 {
        "NXRRSET"@
    } else if low == 9 {
        "NOAUTH"@
    } else if low == 10 {
        "NOTZONE"@
    } else {
        decimal_text(low as nat)
    }
}

/// The mnemonic, or else the generic `TYPEnnn` form, of a record type.
pub uninterp spec fn rtype_text(rtype: u16) -> Seq<char>;

/// The presentation form of a question: name, type and class.
pub uninterp spec fn question_text(qname: Seq<u8>, qtype: u16, qclass: u16) -> Seq<char>;

/// `domain::base::Message::from_octets` accepts a buffer exactly when it
/// can hold the twelve octets of a header.
#[verifier::external_body]
pub(crate) fn is_message(wire: &Vec<u8>) -> (r: bool)
    ensures
        r == (wire@.len() >= HEADER_LEN),
{
    Message::from_octets(wire.as_slice()).is_ok()
}

/// `Header::opcode` of `domain`, as its number: four bits of the third octet.
#[verifier::external_body]
pub(crate) fn header_opcode(wire: &Vec<u8>) -> (r: u8)
    requires
        wire@.len() >= HEADER_LEN,
    ensures
        r == opcode_of(wire@),
{
    Message::from_octets(wire.as_slice()).unwrap().header().opcode().to_int()
}

/// `Header::rcode` of `domain`, as its number: four bits of the fourth octet.
#[verifier::external_body]
pub(crate) fn header_rcode(wire: &Vec<u8>) -> (r: u8)
    requires
        wire@.len() >= HEADER_LEN,
    ensures
        r == rcode_of(wire@),
{
    Message::from_octets(wire.as_slice()).unwrap().header().rcode().to_int()
}

/// `Header::flags` of `domain`: the seven flag bits, each at its place.
#[verifier::external_body]
pub(crate) fn header_flags(wire: &Vec<u8>) -> (r: Flags)
    requires
        wire@.len() >= HEADER_LEN,
    ensures
        r == flags_of(wire@),
{
    let f = Message::from_octets(wire.as_slice()).unwrap().header().flags();
    Flags { qr: f.qr, aa: f.aa, tc: f.tc, rd: f.rd, ra: f.ra, ad: f.ad, cd: f.cd }
}

/// `Message::question` of `domain`, walked to its end. The iterator gives
/// each question it can parse and, once, the error that stopped it; a name
/// it hands out has been checked and is flattened here.
#[verifier::external_body]
pub(crate) fn question_section(wire: &Vec<u8>) -> (r: Vec<Option<(Vec<u8>, u16, u16)>>)
    requires
        wire@.len() >= HEADER_LEN,
    ensures
        r.deep_view() == question_items(wire@),
        forall|i: int| 0 <= i < r@.len() && r@[i] is Some ==> valid_name(#[trigger] r@[i].unwrap().0@),
{
    let msg = Message::from_octets(wire.as_slice()).unwrap();
    msg.question().map(|item| item.ok().map(|q| (
        q.qname().to_vec().into_octets(), q.qtype().to_int(), q.qclass().to_int(),
    ))).collect()
}

/// `Message::answer` of `domain`, walked to its end for the type of each record.
#[verifier::external_body]
pub(crate) fn answer_record_types(wire: &Vec<u8>) -> (r: Option<Vec<Option<u16>>>)
    requires
        wire@.len() >= HEADER_LEN,
    ensures
        r.deep_view() == answer_types(wire@),
{
    let msg = Message::from_octets(wire.as_slice()).unwrap();
    let section = msg.answer().ok()?;
    Some(section.map(|item| item.ok().map(|rr| rr.rtype().to_int())).collect())
}

/// `Message::answer` of `domain`, walked to its end with each record read
/// as an RRSIG (`ParsedRecord::into_record`), which gives nothing for a
/// record of another type.
#[verifier::external_body]
pub(crate) fn answer_covered_types(wire: &Vec<u8>) -> (r: Option<Vec<Option<Option<u16>>>>)
    requires
        wire@.len() >= HEADER_LEN,
    ensures
        r.deep_view() == answer_covered(wire@),
{
    let msg = Message::from_octets(wire.as_slice()).unwrap();
    let section = msg.answer().ok()?;
    Some(section.map(|item| item.and_then(|rr| rr.into_record::<Rrsig<_, _>>()).ok().map(
        |sig| sig.map(|sig| sig.data().type_covered().to_int()),
    )).collect())
}

/// `Dname::from_slice` of `domain` accepts exactly the absolute names in
/// uncompressed wire format of at most 255 octets.
#[verifier::external_body]
pub(crate) fn name_is_valid(name: &Vec<u8>) -> (r: bool)
    ensures
        r == valid_name(name@),
{
    Dname::from_slice(name.as_slice()).is_ok()
}

/// The `Display` form of `domain`'s `Opcode`: the mnemonic of the six
/// opcodes that have one, and the number in decimal of any other.
#[verifier::external_body]
pub(crate) fn opcode_str(code: u8) -> (r: String)
    ensures
        r@ == opcode_text(code),
{
    Opcode::from_int(code).to_string()
}

/// The `Display` form of `domain`'s `Rcode`, which `Rcode::from_int` makes
/// of the low four bits of the number: one of eleven mnemonics, or the
/// decimal number from 11 to 15.
#[verifier::external_body]
pub(crate) fn rcode_str(code: u8) -> (r: String)
    ensures
        r@ == rcode_text(code),
{
    Rcode::from_int(code).to_string()
}

/// The `Display` form of `domain`'s `Rtype`.
#[verifier::external_body]
pub(crate) fn rtype_str(rtype: u16) -> (r: String)
    ensures
        r@ == rtype_text(rtype),
{
    Rtype::from_int(rtype).to_string()
}

/// The `Display` form of `domain`'s header `Flags`: the token of each flag
/// that is set, in header order, with single spaces between them.
#[verifier::external_body]
pub(crate) fn flags_str(f: Flags) -> (r: String)
    ensures
        r@ == join_words(flag_words(f)),
{
    let flags = domain::base::header::Flags {
        qr: f.qr, aa: f.aa, tc: f.tc, rd: f.rd, ra: f.ra, ad: f.ad, cd: f.cd,
    };
    flags.to_string()
}

/// The `Display` form of `domain`'s `Question` over a flat name.
#[verifier::external_body]
pub(crate) fn question_str(qname: &Vec<u8>, qtype: u16, qclass: u16) -> (r: String)
    requires
        valid_name(qname@),
    ensures
        r@ == question_text(qname@, qtype, qclass),
{
    let name = Dname::from_slice(qname.as_slice()).unwrap();
    domain::base::Question::new(name, Rtype::from_int(qtype), Class::from_int(qclass)).to_string()
}

/// `String::from_utf8` of the standard library: the text that the octets
/// encode, if they are UTF-8.
#[verifier::external_body]
pub(crate) fn text_from_utf8(bytes: &[u8]) -> (r: Option<String>)
    ensures
        r is Some <==> vstd::utf8::valid_utf8(bytes@),
        r matches Some(text) ==> text@ == vstd::utf8::decode_utf8(bytes@),
{
    String::from_utf8(bytes.to_vec()).ok()
}

/// `LittleEndian::read_u32` of `byteorder` on exactly four octets.
#[verifier::external_body]
pub(crate) fn read_u32_le(bytes: &[u8]) -> (r: u32)
    requires
        bytes@.len() == 4,
    ensures
        r == le_value(bytes@),
{
    LittleEndian::read_u32(bytes)
}

/// `LittleEndian::read_u16` of `byteorder` on exactly two octets.
#[verifier::external_body]
pub(crate) fn read_u16_le(bytes: &[u8]) -> (r: u16)
    requires
        bytes@.len() == 2,
    ensures
        r == le_value(bytes@),
{
    LittleEndian::read_u16(bytes)
}

/// `LittleEndian::write_u32` of `byteorder` into a fresh buffer of four octets.
#[verifier::external_body]
pub(crate) fn write_u32_le(value: u32) -> (r: Vec<u8>)
    ensures
        r@ == le_bytes(value as nat, 4),
{
    let mut bytes = [0u8; 4];
    LittleEndian::write_u32(&mut bytes, value);
    bytes.to_vec()
}

/// `LittleEndian::write_u16` of `byteorder` into a fresh buffer of two octets.
#[verifier::external_body]
pub(crate) fn write_u16_le(value: u16) -> (r: Vec<u8>)
    ensures
        r@ == le_bytes(value as nat, 2),
{
    let mut bytes = [0u8; 2];
    LittleEndian::write_u16(&mut bytes, value);
    bytes.to_vec()
}

} // verus!
