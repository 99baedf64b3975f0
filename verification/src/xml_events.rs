//! The XML events of an Ableton Live set, read with quick-xml.
//!
//! quick-xml's reader turns the bytes of a document into a stream of events.
//! This module holds the part of each event that the Ableton parser reads (tag
//! names and raw attributes), and the trusted items through which the library
//! calls the reader.
use vstd::prelude::*;
use quick_xml::events::Event;

verus! {

/// A raw attribute: its key and its value, both as the document spells them.
#[derive(Debug, Clone)]
pub struct XmlAttr {
    pub key: Vec<u8>,
    pub value: Vec<u8>,
}

impl DeepView for XmlAttr {
    type V = (Seq<u8>, Seq<u8>);

    open spec fn deep_view(&self) -> (Seq<u8>, Seq<u8>) {
        (self.key@, self.value@)
    }
}

/// A start or empty-element tag: its name and its attributes in document order,
/// `None` standing for an attribute the reader could not parse.
#[derive(Debug, Clone)]
pub struct XmlTag {
    pub name: Vec<u8>,
    pub attrs: Vec<Option<XmlAttr>>,
}

pub struct XmlTagModel {
    pub name: Seq<u8>,
    pub attrs: Seq<Option<(Seq<u8>, Seq<u8>)>>,
}

impl View for XmlTag {
    type V = XmlTagModel;

    open spec fn view(&self) -> XmlTagModel {
        XmlTagModel { name: self.name@, attrs: self.attrs.deep_view() }
    }
}

/// One event of the reader.
#[derive(Debug, Clone)]
pub enum XmlEvent {
    /// `<tag …>`
    Start(XmlTag),
    /// `<tag …/>`
    Empty(XmlTag),
    /// `</tag>`, with the tag's name.
    End(Vec<u8>),
    /// The end of the document.
    Eof,
    /// The reader's error, as its `Display` writes it.
    Error(String),
    /// Text, comments, declarations and the like.
    Other,
}

pub enum XmlEventModel {
    Start(XmlTagModel),
    Empty(XmlTagModel),
    End(Seq<u8>),
    Eof,
    Error(Seq<char>),
    Other,
}

impl View for XmlEvent {
    type V = XmlEventModel;

    open spec fn view(&self) -> XmlEventModel {
        match self {
            XmlEvent::Start(t) => XmlEventModel::Start(t@),
            XmlEvent::Empty(t) => XmlEventModel::Empty(t@),
            XmlEvent::End(n) => XmlEventModel::End(n@),
            XmlEvent::Eof => XmlEventModel::Eof,
            XmlEvent::Error(m) => XmlEventModel::Error(m@),
            XmlEvent::Other => XmlEventModel::Other,
        }
    }
}

impl DeepView for XmlEvent {
    type V = XmlEventModel;

    open spec fn deep_view(&self) -> XmlEventModel {
        self@
    }
}

/// An event after which the reader delivers nothing more of use.
pub open spec fn is_final(e: XmlEventModel) -> bool {
    e is Eof || e is Error
}

/// A non-empty event sequence whose last event, and only that one, is final.
pub open spec fn ends_once(s: Seq<XmlEventModel>) -> bool {
    &&& s.len() > 0
    &&& is_final(s.last())
    &&& forall|i: int| 0 <= i < s.len() - 1 ==> !is_final(#[trigger] s[i])
}

#[verifier::external_type_specification]
#[verifier::external_body]
#[verifier::reject_recursive_types(R)]
pub struct ExReader<R>(quick_xml::Reader<R>);

/// The events quick-xml's `Reader` (`trim_text(true)`) reads from the bytes of a
/// document, up to and including the first end of document or error.
pub uninterp spec fn xml_events_of(xml: Seq<u8>) -> Seq<XmlEventModel>;

/// The events a reader has still to deliver, up to and including the first end
/// of document or error.
pub uninterp spec fn reader_events(reader: quick_xml::Reader<&[u8]>) -> Seq<XmlEventModel>;

/// `quick_xml::Reader::from_reader` on the document's bytes, configured with
/// `trim_text(true)`. Claimed: the reader will deliver `xml_events_of(xml)`, a
/// finite sequence that ends with the first end of document or error.
#[verifier::external_body]
pub(crate) fn xml_reader(xml: &[u8]) -> (r: quick_xml::Reader<&[u8]>)
    ensures
        reader_events(r) == xml_events_of(xml@),
        ends_once(reader_events(r)),
{
    let mut reader = quick_xml::Reader::from_reader(xml);
    reader.config_mut().trim_text(true);
    reader
}

/// An attribute from its key and value.
pub fn xml_attr(key: &[u8], value: &[u8]) -> (r: XmlAttr)
    ensures
        r.key@ == key@,
        r.value@ == value@,
{
    XmlAttr { key: vstd::slice::slice_to_vec(key), value: vstd::slice::slice_to_vec(value) }
}

/// `quick_xml::Reader::read_event` (the slice reader's `read_event_into`, which
/// needs no buffer), with the event converted: tag names as bytes, attributes one
/// for one (`None` for one the reader rejects), the error by its `Display`.
/// Claimed: it delivers the reader's next event.
#[verifier::external_body]
pub(crate) fn next_event(reader: &mut quick_xml::Reader<&[u8]>) -> (e: XmlEvent)
    requires
        reader_events(*old(reader)).len() > 0,
    ensures
        e@ == reader_events(*old(reader))[0],
        reader_events(*final(reader)) == reader_events(*old(reader)).drop_first(),
{
    let (start, e) = match reader.read_event() {
        Ok(Event::Start(e)) => (true, e),
        Ok(Event::Empty(e)) => (false, e),
        Ok(Event::End(e)) => return XmlEvent::End(e.name().0.to_vec()),
        Ok(Event::Eof) => return XmlEvent::Eof,
        Ok(_) => return XmlEvent::Other,
        Err(err) => return XmlEvent::Error(err.to_string()),
    };
    let tag = XmlTag {
        name: e.name().0.to_vec(),
        attrs: e.attributes().map(|a| a.ok().map(|a| xml_attr(a.key.0, &a.value))).collect(),
    };
    if start { XmlEvent::Start(tag) } else { XmlEvent::Empty(tag) }
}

} // verus!
