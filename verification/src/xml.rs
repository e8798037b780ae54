//! The calls into quick-xml that the reader makes. Each item here is trusted:
//! Verus believes what it says and does not look at its body.
use vstd::prelude::*;
use quick_xml::events::attributes::{Attribute, AttrError, Attributes};
use quick_xml::events::{BytesEnd, BytesStart, BytesText, Event};
use quick_xml::Reader;
use quick_xml::errors::Error as XmlError;

verus! {

/// quick-xml's pull parser, here always over the bytes of a `&str`.
#[verifier::external_type_specification]
#[verifier::external_body]
#[verifier::reject_recursive_types(R)]
pub struct ExReader<R>(Reader<R>);

/// A start tag or an empty element tag.
#[verifier::external_type_specification]
#[verifier::external_body]
pub struct ExBytesStart<'a>(BytesStart<'a>);

/// An end tag.
#[verifier::external_type_specification]
#[verifier::external_body]
pub struct ExBytesEnd<'a>(BytesEnd<'a>);

/// Character data between tags.
#[verifier::external_type_specification]
#[verifier::external_body]
pub struct ExBytesText<'a>(BytesText<'a>);

/// The iterator over the attributes of a tag.
#[verifier::external_type_specification]
#[verifier::external_body]
pub struct ExAttributes<'a>(Attributes<'a>);

/// One attribute of a tag.
#[verifier::external_type_specification]
#[verifier::external_body]
pub struct ExAttribute<'a>(Attribute<'a>);

/// The error for an attribute that could not be read.
#[verifier::external_type_specification]
#[verifier::external_body]
pub struct ExAttrError(AttrError);

/// An error of quick-xml.
#[verifier::external_type_specification]
#[verifier::external_body]
pub struct ExXmlError(XmlError);

/// The events of quick-xml that the reader looks at; every other event is `Other`.
pub enum XmlEvent<'a> {
    Start(BytesStart<'a>),
    Empty(BytesStart<'a>),
    End(BytesEnd<'a>),
    Text(BytesText<'a>),
    Eof,
    Other,
}

/// `Reader::from_str`: a reader positioned at the start of `s`. Nothing is
/// stated of it; the reader is opaque.
#[verifier::external_body]
pub(crate) fn reader_from_str<'a>(s: &'a str) -> Reader<&'a [u8]> {
    Reader::from_str(s)
}

/// `Reader::read_event`: the next event of the input, or the error that stopped
/// the reader. What comes back depends on the reader's position, which Verus
/// does not see, so nothing is stated of it.
#[verifier::external_body]
pub(crate) fn read_event<'a>(reader: &mut Reader<&'a [u8]>) -> Result<XmlEvent<'a>, XmlError> {
    match reader.read_event() {
        Ok(Event::Start(e)) => Ok(XmlEvent::Start(e)),
        Ok(Event::Empty(e)) => Ok(XmlEvent::Empty(e)),
        Ok(Event::End(e)) => Ok(XmlEvent::End(e)),
        Ok(Event::Text(e)) => Ok(XmlEvent::Text(e)),
        Ok(Event::Eof) => Ok(XmlEvent::Eof),
        Ok(_) => Ok(XmlEvent::Other),
        Err(e) => Err(e),
    }
}

/// `Reader::error_position`: the byte offset in the input where the last
/// error was found. Nothing is stated of it (it may lie anywhere).
#[verifier::external_body]
pub(crate) fn error_position<'a>(reader: &Reader<&'a [u8]>) -> u64 {
    reader.error_position()
}

/// The `Display` text of a quick-xml error. Nothing is stated of it.
#[verifier::external_body]
pub(crate) fn error_text(e: &XmlError) -> String {
    format!("{}", e)
}

/// `BytesStart::local_name`: the tag's name without its namespace prefix.
/// Nothing is stated of it.
#[verifier::external_body]
pub(crate) fn start_name<'a>(e: &BytesStart<'a>) -> String {
    e.local_name().into_inner().to_owned()
}

/// `BytesEnd::local_name`: the tag's name without its namespace prefix.
/// Nothing is stated of it.
#[verifier::external_body]
pub(crate) fn end_name<'a>(e: &BytesEnd<'a>) -> String {
    e.local_name().into_inner().to_owned()
}

/// `BytesText::into_inner`: the text as it stands in the input. Nothing is
/// stated of it.
#[verifier::external_body]
pub(crate) fn text_content<'a>(e: BytesText<'a>) -> String {
    e.into_inner().into_owned()
}

/// `BytesStart::attributes`: an iterator over the tag's attributes.
#[verifier::external_body]
pub(crate) fn attributes<'b, 'a>(e: &'b BytesStart<'a>) -> Attributes<'b> {
    e.attributes()
}

/// `Attributes::next`: `None` at the end, `Some(None)` for an attribute that
/// could not be read, else the attribute's local name and raw value. Nothing
/// is stated of it.
#[verifier::external_body]
pub(crate) fn next_attribute<'b>(it: &mut Attributes<'b>) -> Option<Option<(String, String)>> {
    match it.next() {
        None => None,
        Some(Ok(a)) => Some(Some((a.key.local_name().into_inner().to_owned(), a.value.into_owned()))),
        Some(Err(_)) => Some(None),
    }
}

} // verus!
