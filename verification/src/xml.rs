//! Trusted interface to the `xmlwriter` crate.
//!
//! The writer is modelled by the sequence of events it has received:
//! [`xml_events`] names that history, and [`xml_render`] names the document
//! text that ending a writer with a given history yields. Each wrapper states
//! how the call it makes extends the history; `xmlwriter` itself is a pure,
//! deterministic string builder, so the final text is a function of the
//! history alone. Element and attribute names are restricted to a small
//! well-formed alphabet, under which distinct histories produce distinct
//! writer states.

use vstd::prelude::*;

verus! {

/// One event written into an XML document builder.
pub ghost enum XmlEv {
    /// The XML declaration line.
    Declaration,
    /// The opening `<name` of an element.
    Start { name: Seq<char> },
    /// An attribute `name="value"` on the element being opened.
    Attr { name: Seq<char>, value: Seq<char> },
    /// The close of the innermost open element.
    End,
}

/// The events a writer value has received so far.
pub uninterp spec fn xml_events(w: xmlwriter::XmlWriter) -> Seq<XmlEv>;

/// The document text that ending a writer with the given event history
/// yields.
pub uninterp spec fn xml_render(events: Seq<XmlEv>) -> Seq<char>;

#[verifier::external_type_specification]
#[verifier::external_body]
pub struct ExXmlWriter(xmlwriter::XmlWriter);

/// A well-formed element or attribute name: nonempty, over letters, colon
/// and hyphen. The writer copies names into its buffer unescaped, so this
/// keeps the buffer encoding of the history unambiguous.
pub open spec fn xml_name_ok(name: Seq<char>) -> bool {
    &&& name.len() > 0
    &&& forall|i: int|
        0 <= i < name.len() ==> {
            ||| 'a' <= #[trigger] name[i] <= 'z'
            ||| 'A' <= name[i] <= 'Z'
            ||| name[i] == ':'
            ||| name[i] == '-'
        }
}

/// Whether a history leaves the writer accepting attributes: it ends in an
/// element start followed only by attributes.
pub open spec fn xml_attrs_open(events: Seq<XmlEv>) -> bool
    decreases events.len(),
{
    if events.len() == 0 {
        false
    } else {
        match events.last() {
            XmlEv::Start { .. } => true,
            XmlEv::Attr { .. } => xml_attrs_open(events.drop_last()),
            _ => false,
        }
    }
}

/// Relies on `xmlwriter::XmlWriter::new` with default options: a fresh
/// writer with an empty history.
#[verifier::external_body]
pub(crate) fn xml_new() -> (w: xmlwriter::XmlWriter)
    ensures
        xml_events(w) == Seq::<XmlEv>::empty(),
{
    xmlwriter::XmlWriter::new(xmlwriter::Options::default())
}

/// Relies on `xmlwriter::XmlWriter::write_declaration`: writes the fixed XML
/// declaration. It panics when anything was written before it, so it is
/// restricted to a fresh writer.
#[verifier::external_body]
pub(crate) fn xml_write_declaration(w: &mut xmlwriter::XmlWriter)
    requires
        xml_events(*old(w)) == Seq::<XmlEv>::empty(),
    ensures
        xml_events(*final(w)) == seq![XmlEv::Declaration],
{
    w.write_declaration()
}

/// Relies on `xmlwriter::XmlWriter::start_element`: begins `<name`.
#[verifier::external_body]
pub(crate) fn xml_start_element(w: &mut xmlwriter::XmlWriter, name: &str)
    requires
        xml_name_ok(name@),
    ensures
        xml_events(*final(w)) == xml_events(*old(w)).push(XmlEv::Start { name: name@ }),
{
    w.start_element(name)
}

/// Relies on `xmlwriter::XmlWriter::write_attribute`: appends
/// `name="value"`, escaping quotes in the value. It panics unless an element
/// start is still open for attributes.
#[verifier::external_body]
pub(crate) fn xml_write_attribute(w: &mut xmlwriter::XmlWriter, name: &str, value: &str)
    requires
        xml_name_ok(name@),
        xml_attrs_open(xml_events(*old(w))),
    ensures
        xml_events(*final(w)) == xml_events(*old(w)).push(
            XmlEv::Attr { name: name@, value: value@ },
        ),
{
    w.write_attribute(name, value)
}

/// Relies on `xmlwriter::XmlWriter::end_element`: closes the innermost open
/// element (and does nothing on a writer with no open element).
#[verifier::external_body]
pub(crate) fn xml_end_element(w: &mut xmlwriter::XmlWriter)
    ensures
        xml_events(*final(w)) == xml_events(*old(w)).push(XmlEv::End),
{
    w.end_element()
}

/// Relies on `xmlwriter::XmlWriter::end_document`: closes all open elements
/// and returns the buffer. The crate builds the text deterministically from
/// the calls it received, so the result is a function of the history.
#[verifier::external_body]
pub(crate) fn xml_end_document(w: xmlwriter::XmlWriter) -> (r: String)
    ensures
        r@ == xml_render(xml_events(w)),
{
    w.end_document()
}

} // verus!
