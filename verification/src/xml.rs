//! The tokenizer boundary: a thin trusted layer over quick-xml's pull parser.
//!
//! The stream hands out one token per document event — an element's start tag
//! or self-closing tag with its name and raw attributes, an uninteresting
//! event, or a structural error — and the scanner consumes them one by one.
//! Tokenization of a byte sequence is deterministic, so the whole stream is
//! named up front by `doc_tokens`, and each token read is tied to it.

use vstd::prelude::*;

use crate::models::ScanError;

verus! {

/// A raw attribute as the tokenizer hands it out: the attribute name and the
/// still-escaped value text.
pub struct RawAttr {
    pub key: String,
    pub value: String,
}

/// View of a raw attribute.
pub ghost struct AttrModel {
    pub key: Seq<char>,
    pub value: Seq<char>,
}

impl View for RawAttr {
    type V = AttrModel;

    open spec fn view(&self) -> AttrModel {
        AttrModel { key: self.key@, value: self.value@ }
    }
}

/// An element tag as the tokenizer hands it out: its name and the attributes
/// that parsed, in document order.
pub struct RawElement {
    pub name: String,
    pub attrs: Vec<RawAttr>,
}

/// One reading step's outcome, as executable data.
pub enum XmlToken {
    /// An opening tag `<name ...>`.
    Start(RawElement),
    /// A self-closing tag `<name .../>`.
    Empty(RawElement),
    /// Any other event: text, an end tag, a comment, a declaration.
    Other,
    /// The end of the document.
    Eof,
}

/// The model of one token. `Malformed` stands for the reading step at which
/// the tokenizer reports the document structurally broken.
pub ghost enum TokenModel {
    Start { name: Seq<char>, attrs: Seq<AttrModel> },
    Empty { name: Seq<char>, attrs: Seq<AttrModel> },
    Other,
    Malformed,
}

pub open spec fn attrs_model(attrs: Seq<RawAttr>) -> Seq<AttrModel> {
    attrs.map_values(|a: RawAttr| a@)
}

/// Whether an executable reading outcome realizes a token model.
pub open spec fn token_matches(t: Result<XmlToken, ScanError>, m: TokenModel) -> bool {
    match m {
        TokenModel::Start { name, attrs } => t matches Ok(XmlToken::Start(e)) && e.name@ == name
            && attrs_model(e.attrs@) == attrs,
        TokenModel::Empty { name, attrs } => t matches Ok(XmlToken::Empty(e)) && e.name@ == name
            && attrs_model(e.attrs@) == attrs,
        TokenModel::Other => t matches Ok(XmlToken::Other),
        TokenModel::Malformed => t matches Err(e) && e matches ScanError::MalformedXml(_),
    }
}

/// Tokenizer state over an in-memory document. Verus sees the stream only
/// through `stream_rest`.
#[verifier::external_body]
pub struct TokenStream {
    inner: quick_xml::reader::Reader<std::io::Cursor<Vec<u8>>>,
}

/// The tokens a stream will still yield, in order. Once they run out, the
/// stream yields only end-of-document.
pub uninterp spec fn stream_rest(s: TokenStream) -> Seq<TokenModel>;

/// The token sequence that tokenizing a document yields: a function of the
/// document bytes alone.
pub uninterp spec fn doc_tokens(input: Seq<u8>) -> Seq<TokenModel>;

/// Relies on quick_xml's `Reader::from_reader`: a pull tokenizer over the
/// given bytes, whose event sequence depends on the bytes alone. Every event
/// spans at least one byte of input, so the stream holds no more tokens than
/// the document has bytes.
#[verifier::external_body]
pub fn token_stream_new(input: Vec<u8>) -> (s: TokenStream)
    ensures
        stream_rest(s) == doc_tokens(input@),
        stream_rest(s).len() <= input@.len(),
{
    TokenStream { inner: quick_xml::reader::Reader::from_reader(std::io::Cursor::new(input)) }
}

/// Relies on quick_xml's `Reader::read_event_into`: yields the next event,
/// here converted to an owned token; start tags and self-closing tags keep
/// their name and attribute list, every other event collapses to `Other`, a
/// structural error becomes the terminal `MalformedXml`. Past the last token
/// only `Eof` comes.
#[verifier::external_body]
pub fn next_token(s: &mut TokenStream) -> (t: Result<XmlToken, ScanError>)
    ensures
        stream_rest(*old(s)).len() == 0 ==> (t matches Ok(tok) && tok is Eof && stream_rest(
            *final(s),
        ) == stream_rest(*old(s))),
        stream_rest(*old(s)).len() > 0 ==> stream_rest(*final(s)) == stream_rest(
            *old(s),
        ).drop_first() && token_matches(t, stream_rest(*old(s)).first()),
{
    let mut buf = Vec::new();
    match s.inner.read_event_into(&mut buf) {
        Ok(quick_xml::events::Event::Start(e)) => Ok(XmlToken::Start(own_element(&e))),
        Ok(quick_xml::events::Event::Empty(e)) => Ok(XmlToken::Empty(own_element(&e))),
        Ok(quick_xml::events::Event::Eof) => Ok(XmlToken::Eof),
        Ok(_) => Ok(XmlToken::Other),
        Err(e) => Err(ScanError::MalformedXml(e.to_string())),
    }
}

#[verifier::external_type_specification]
#[verifier::external_body]
pub struct ExBytesStart<'a>(quick_xml::events::BytesStart<'a>);

/// Relies on quick_xml's `BytesStart::name` and `BytesStart::attributes`:
/// copies the tag name and the attributes that parsed out as owned plain
/// values, in document order, dropping attributes the tokenizer rejects as
/// the original attribute walk did.
#[verifier::external_body]
fn own_element(e: &quick_xml::events::BytesStart<'_>) -> RawElement {
    RawElement {
        name: e.name().as_ref().to_owned(),
        attrs: e.attributes().filter_map(|a| a.ok()).map(
            |a| RawAttr { key: a.key.as_ref().to_owned(), value: a.value.into_owned() },
        ).collect(),
    }
}

/// What resolving the escapes of attribute text yields: a function of the
/// text alone; nothing, where an escape is unresolvable.
pub uninterp spec fn unescaped(raw: Seq<char>) -> Option<Seq<char>>;

/// Relies on quick_xml's `escape::unescape`: resolves the XML escape
/// sequences in attribute text. Text without an ampersand passes through
/// unchanged, and every resolved escape contributes at least one character,
/// so non-empty text never resolves to an empty result, and empty text
/// resolves to an empty one.
#[verifier::external_body]
pub fn unescape_attr(raw: &str) -> (r: Result<String, ScanError>)
    ensures
        match r {
            Ok(s) => unescaped(raw@) == Some(s@) && (s@.len() == 0 <==> raw@.len() == 0),
            Err(e) => unescaped(raw@) is None && raw@.len() > 0 && e
                matches ScanError::MalformedEscape(_),
        },
{
    match quick_xml::escape::unescape(raw) {
        Ok(c) => Ok(c.into_owned()),
        Err(e) => Err(ScanError::MalformedEscape(e.to_string())),
    }
}

} // verus!
