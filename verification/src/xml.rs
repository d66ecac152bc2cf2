//! XML stream events reduced to plain values, and the trusted boundary to
//! the quick_xml tokenizer that produces them.
//!
//! The tokenizer is the one part of parsing that is not verified: each
//! event quick_xml yields is converted at once into an [`XmlEvent`] of
//! plain strings, and everything done with those events afterwards is
//! verified. Which tokens a given input yields is not written out — it is
//! given a name, [`xml_tokens_of`], fixed by the fact that tokenizing a
//! byte slice is a function of those bytes alone — and the parser is
//! verified for every possible token sequence.

use vstd::prelude::*;

use crate::errors::ParseError;

verus! {

/// Mathematical model of an [`XmlAttr`].
#[verifier::ext_equal]
pub ghost struct XmlAttrModel {
    pub key: Seq<char>,
    pub value: Seq<char>,
}

/// One attribute of a start element, with its value unescaped.
#[derive(Debug)]
pub struct XmlAttr {
    pub key: String,
    pub value: String,
}

impl View for XmlAttr {
    type V = XmlAttrModel;

    open spec fn view(&self) -> XmlAttrModel {
        XmlAttrModel { key: self.key@, value: self.value@ }
    }
}

impl DeepView for XmlAttr {
    type V = XmlAttrModel;

    open spec fn deep_view(&self) -> XmlAttrModel {
        self.view()
    }
}

impl XmlAttr {
    pub fn new(key: String, value: String) -> (a: XmlAttr)
        ensures
            a@ == (XmlAttrModel { key: key@, value: value@ }),
    {
        XmlAttr { key, value }
    }
}

/// Mathematical model of an [`XmlEvent`].
#[verifier::ext_equal]
pub ghost enum XmlEventModel {
    Start { name: Seq<char>, attrs: Seq<XmlAttrModel> },
    End { name: Seq<char> },
    Text { content: Seq<char> },
    Reference { content: Seq<char> },
    Other,
    Eof,
}

/// One event of an XML stream, reduced to the plain values the parser
/// reads.
#[derive(Debug)]
pub enum XmlEvent {
    /// A start tag, with its attribute values unescaped.
    Start { name: String, attrs: Vec<XmlAttr> },
    /// An end tag.
    End { name: String },
    /// One piece of character data, as it stood in the document.
    Text { content: String },
    /// A general entity or character reference amid character data; the
    /// content is the raw text between `&` and `;`.
    Reference { content: String },
    /// Any other event: an empty element, a comment, a declaration, a
    /// processing instruction, CDATA or a document type declaration.
    Other,
    /// The end of the document.
    Eof,
}

impl View for XmlEvent {
    type V = XmlEventModel;

    open spec fn view(&self) -> XmlEventModel {
        match self {
            XmlEvent::Start { name, attrs } => XmlEventModel::Start {
                name: name@,
                attrs: attrs.deep_view(),
            },
            XmlEvent::End { name } => XmlEventModel::End { name: name@ },
            XmlEvent::Text { content } => XmlEventModel::Text { content: content@ },
            XmlEvent::Reference { content } => XmlEventModel::Reference { content: content@ },
            XmlEvent::Other => XmlEventModel::Other,
            XmlEvent::Eof => XmlEventModel::Eof,
        }
    }
}

impl DeepView for XmlEvent {
    type V = XmlEventModel;

    open spec fn deep_view(&self) -> XmlEventModel {
        self.view()
    }
}

/// Mathematical model of a [`Token`].
#[verifier::ext_equal]
pub ghost struct TokenModel {
    pub event: XmlEventModel,
    pub pos: u64,
}

/// One event paired with the stream offset at which the tokenizer stood
/// after producing it.
#[derive(Debug)]
pub struct Token {
    pub event: XmlEvent,
    pub pos: u64,
}

impl View for Token {
    type V = TokenModel;

    open spec fn view(&self) -> TokenModel {
        TokenModel { event: self.event@, pos: self.pos }
    }
}

impl DeepView for Token {
    type V = TokenModel;

    open spec fn deep_view(&self) -> TokenModel {
        self.view()
    }
}

impl Token {
    pub fn new(event: XmlEvent, pos: u64) -> (t: Token)
        ensures
            t@ == (TokenModel { event: event@, pos: pos }),
    {
        Token { event, pos }
    }
}

/// Relies on quick_xml's `Reader::read_event`: the next event of the
/// document, converted at once to plain owned values. Nothing is assumed
/// about which event comes back.
#[verifier::external_body]
fn next_event<'i>(r: &mut quick_xml::reader::Reader<&'i [u8]>) -> (ev: Result<
    XmlEvent,
    quick_xml::errors::Error,
>) {
    match r.read_event() {
        Ok(quick_xml::events::Event::Start(e)) => start_event(&e),
        Ok(quick_xml::events::Event::End(e)) => Ok(XmlEvent::End {
            name: e.name().as_ref().to_owned(),
        }),
        Ok(quick_xml::events::Event::Text(e)) => Ok(XmlEvent::Text {
            content: e.into_inner().into_owned(),
        }),
        Ok(quick_xml::events::Event::GeneralRef(e)) => Ok(XmlEvent::Reference {
            content: e.into_inner().into_owned(),
        }),
        Ok(quick_xml::events::Event::Eof) => Ok(XmlEvent::Eof),
        Ok(_) => Ok(XmlEvent::Other),
        Err(e) => Err(e),
    }
}

/// Relies on quick_xml's `BytesStart::name`, `BytesStart::attributes` and
/// `Attribute::normalized_value`: the element name and each attribute as
/// an unescaped key-value pair of plain strings.
#[verifier::external_body]
fn start_event(e: &quick_xml::events::BytesStart<'_>) -> (ev: Result<
    XmlEvent,
    quick_xml::errors::Error,
>) {
    let name = e.name().as_ref().to_owned();
    let mut attrs: Vec<XmlAttr> = Vec::new();
    for a in e.attributes() {
        let a = a?;
        let value = a.normalized_value(quick_xml::XmlVersion::Implicit1_0)?.into_owned();
        let key = a.key.as_ref().to_owned();
        attrs.push(XmlAttr { key, value });
    }
    Ok(XmlEvent::Start { name, attrs })
}

/// An opaque declaration of quick_xml's reader type, so that the trusted
/// boundary above can hold one in its signatures.
#[verifier::external_type_specification]
#[verifier::external_body]
#[verifier::reject_recursive_types(R)]
pub struct ExXmlReader<R>(quick_xml::reader::Reader<R>);

/// An opaque declaration of quick_xml's error type; any such error is
/// surfaced as [`ParseError::MalformedXml`].
#[verifier::external_type_specification]
#[verifier::external_body]
pub struct ExXmlError(quick_xml::errors::Error);

/// An opaque declaration of quick_xml's start-tag type, held only between
/// the two trusted conversion functions above.
#[verifier::external_type_specification]
#[verifier::external_body]
pub struct ExBytesStart<'a>(quick_xml::events::BytesStart<'a>);

/// The token stream that tokenizing a byte slice yields, or nothing where
/// the tokenizer reports malformed XML. Tokenizing a slice is a function
/// of its bytes alone, so the result bears a name; what it is on given
/// bytes is not stated, and the parser is verified for every value of it.
pub uninterp spec fn xml_tokens_of(input: Seq<u8>) -> Option<Seq<TokenModel>>;

/// Reads the whole event stream of one document into plain tokens, each
/// carrying the stream offset reached after it.
///
/// Relies on quick_xml's `Reader::from_reader`, `Reader::read_event` and
/// `Reader::buffer_position`: the reader walks the slice event by event,
/// reaches `Eof` at its end, and reports malformed input as an error,
/// which is surfaced as [`ParseError::MalformedXml`]; the events and
/// offsets depend on the input bytes alone.
#[verifier::external_body]
pub(crate) fn tokenize(input: &[u8]) -> (r: Result<Vec<Token>, ParseError>)
    ensures
        match r {
            Ok(tokens) => xml_tokens_of(input@) == Some(tokens.deep_view()),
            Err(e) => xml_tokens_of(input@) is None && e == ParseError::MalformedXml,
        },
{
    let mut reader = quick_xml::reader::Reader::from_reader(input);
    let mut tokens: Vec<Token> = Vec::new();
    loop {
        match next_event(&mut reader) {
            Ok(XmlEvent::Eof) => return Ok(tokens),
            Ok(event) => {
                let pos = reader.buffer_position();
                tokens.push(Token { event, pos });
            },
            Err(_) => return Err(ParseError::MalformedXml),
        }
    }
}

} // verus!
